//! Moments in time, read and written by chrono.

use vstd::prelude::*;

verus! {

/// The first second that a date can name.
pub const MIN_SECS: i64 = -8334601228800;

/// The last second that a date can name.
pub const MAX_SECS: i64 = 8210266876799;

/// A moment in UTC: seconds since the start of 1970, and nanoseconds within the
/// second. A leap second counts as a second of twice the length.
#[derive(Debug, Clone, Copy, PartialEq, Eq, Structural)]
pub struct Timestamp {
    pub secs: i64,
    pub nanos: u32,
}

impl View for Timestamp {
    type V = Timestamp;

    open spec fn view(&self) -> Timestamp {
        *self
    }
}

impl Timestamp {
    /// Whether the moment has a date: its year is in range, and only the last
    /// second of a minute is a leap second.
    pub open spec fn is_date(self) -> bool {
        &&& MIN_SECS <= self.secs <= MAX_SECS
        &&& self.nanos < 2_000_000_000
        &&& self.nanos >= 1_000_000_000 ==> self.secs % 60 == 59
    }

    /// Whether the moment is `other` or earlier.
    pub open spec fn le(self, other: Timestamp) -> bool {
        self.secs < other.secs || (self.secs == other.secs && self.nanos <= other.nanos)
    }

    /// Whether the moment is no later than `other`.
    pub fn at_most(&self, other: &Timestamp) -> (r: bool)
        ensures
            r == self.le(*other),
    {
        self.secs < other.secs || (self.secs == other.secs && self.nanos <= other.nanos)
    }
}

/// The moment that a date and time with an offset from UTC names, in the form
/// of RFC 3339 or close to it.
pub uninterp spec fn rfc3339_time(s: Seq<char>) -> Option<(i64, u32)>;

/// The moment in UTC that a date and time in the given format names.
pub uninterp spec fn formatted_time(s: Seq<char>, format: Seq<char>) -> Option<(i64, u32)>;

/// A moment in the form of RFC 3339.
pub uninterp spec fn rfc3339_text(secs: i64, nanos: u32) -> Seq<char>;

/// A moment in the form of RFC 3339, with `Z` for the offset.
pub uninterp spec fn zulu_text(secs: i64, nanos: u32) -> Seq<char>;

/// `chrono::Utc::now` reads the clock. The moment has a date and is no leap
/// second. Where the clock stands before 1970, the call panics natively, and gives
/// that moment where a JavaScript engine keeps the clock.
#[verifier::external_body]
pub(crate) fn utc_now() -> (t: Timestamp)
    ensures
        t.is_date(),
        t.nanos < 1_000_000_000,
{
    let now = chrono::Utc::now();
    Timestamp { secs: now.timestamp(), nanos: now.timestamp_subsec_nanos() }
}

/// `chrono::DateTime::<Utc>::from_str` reads a date and time with an offset. The
/// moment depends on the text alone and has a date.
#[verifier::external_body]
pub(crate) fn parse_rfc3339(s: &str) -> (r: Option<Timestamp>)
    ensures
        match r {
            Some(t) => rfc3339_time(s@) == Some((t.secs, t.nanos)) && t.is_date(),
            None => rfc3339_time(s@) is None,
        },
{
    match s.parse::<chrono::DateTime<chrono::Utc>>() {
        Ok(t) => Some(Timestamp { secs: t.timestamp(), nanos: t.timestamp_subsec_nanos() }),
        Err(_) => None,
    }
}

/// `chrono::NaiveDateTime::parse_from_str` reads a date and time without an
/// offset, here taken as UTC. The moment depends on the text and the format
/// alone and has a date.
#[verifier::external_body]
pub(crate) fn parse_formatted(s: &str, format: &str) -> (r: Option<Timestamp>)
    ensures
        match r {
            Some(t) => formatted_time(s@, format@) == Some((t.secs, t.nanos)) && t.is_date(),
            None => formatted_time(s@, format@) is None,
        },
{
    match chrono::NaiveDateTime::parse_from_str(s, format) {
        Ok(naive) => {
            let t = naive.and_utc();
            Some(Timestamp { secs: t.timestamp(), nanos: t.timestamp_subsec_nanos() })
        },
        Err(_) => None,
    }
}

/// `chrono::DateTime::to_rfc3339` writes a moment that has a date. The text
/// depends on the moment alone.
#[verifier::external_body]
pub(crate) fn rfc3339(t: &Timestamp) -> (s: String)
    requires
        t.is_date(),
    ensures
        s@ == rfc3339_text(t.secs, t.nanos),
{
    chrono::DateTime::from_timestamp(t.secs, t.nanos).unwrap().to_rfc3339()
}

/// `chrono::DateTime::to_rfc3339_opts` writes a moment that has a date, with as
/// many digits of the second as it needs and `Z` for the offset. The text depends
/// on the moment alone.
#[verifier::external_body]
pub(crate) fn zulu(t: &Timestamp) -> (s: String)
    requires
        t.is_date(),
    ensures
        s@ == zulu_text(t.secs, t.nanos),
{
    chrono::DateTime::from_timestamp(t.secs, t.nanos).unwrap().to_rfc3339_opts(
        chrono::SecondsFormat::AutoSi,
        true,
    )
}

/// Moments are ordered: each is no later than itself, of two one is no later than the
/// other, both only if they are the same, and the order is transitive. Within a second
/// the nanoseconds decide, else the seconds.
pub proof fn law_time_order(a: Timestamp, b: Timestamp, c: Timestamp)
    ensures
        a.le(a),
        a.le(b) || b.le(a),
        a.le(b) && b.le(a) ==> a == b,
        a.le(b) && b.le(c) ==> a.le(c),
        a.secs < b.secs ==> a.le(b),
        a.secs == b.secs && a.nanos < b.nanos ==> a.le(b),
{
}

} // verus!
