//! How long kept metadata is good for.

use vstd::prelude::*;

use crate::json::Json;
use crate::timestamp::{self, Timestamp};

verus! {

/// The largest number of hours that can be counted back from any moment.
pub const MAX_CLEANUP_HOURS: i64 = 2315167008;

/// The largest number of hours that an age can be held against.
pub const MAX_AGE_HOURS: i64 = 2562047788015;

/// The number of hours that kept metadata of NPM packages is good for.
pub const KEPT_HOURS: i64 = 24;

/// The metadata of a package, and when it was kept.
#[derive(Debug)]
pub struct PackageMetadata {
    pub package_name: String,
    pub metadata: Json,
    pub last_updated: Timestamp,
}

/// The nanoseconds from one moment to another, with the leap second that lies
/// between them within a day.
pub open spec fn elapsed(from: Timestamp, to: Timestamp) -> int {
    let a = to.secs % 86400;
    let b = from.secs % 86400;
    let leap: int = if a > b && from.nanos >= 1_000_000_000 {
        1
    } else if a < b && to.nanos >= 1_000_000_000 {
        -1
    } else {
        0
    };
    (to.secs - from.secs + leap) * 1_000_000_000 + (to.nanos - from.nanos)
}

fn second_of_day(t: &Timestamp) -> (r: i64)
    requires
        t.is_date(),
    ensures
        r == t.secs % 86400,
{
    match t.secs.checked_rem_euclid(86400) {
        Some(s) => s,
        None => 0,
    }
}

/// Whether metadata kept at `last_updated` is no older than `max_age_hours` at
/// the moment `now`.
pub fn is_fresh(now: &Timestamp, last_updated: &Timestamp, max_age_hours: i64) -> (r: bool)
    requires
        now.is_date(),
        last_updated.is_date(),
        -MAX_AGE_HOURS <= max_age_hours <= MAX_AGE_HOURS,
    ensures
        r == (elapsed(*last_updated, *now) <= max_age_hours * 3600 * 1_000_000_000),
{
    let a = second_of_day(now);
    let b = second_of_day(last_updated);
    let leap: i128 = if a > b && last_updated.nanos >= 1_000_000_000 {
        1
    } else if a < b && now.nanos >= 1_000_000_000 {
        -1
    } else {
        0
    };
    let seconds: i128 = now.secs as i128 - last_updated.secs as i128 + leap;
    let nanos: i128 = seconds * 1_000_000_000 + (now.nanos as i128 - last_updated.nanos as i128);
    nanos <= max_age_hours as i128 * 3_600_000_000_000
}

/// Whether kept metadata is good at the moment `now`; where nothing is kept it
/// is not.
pub fn is_valid_at(now: &Timestamp, kept: &Option<PackageMetadata>, max_age_hours: i64) -> (r: bool)
    requires
        now.is_date(),
        kept matches Some(m) ==> m.last_updated.is_date(),
        -MAX_AGE_HOURS <= max_age_hours <= MAX_AGE_HOURS,
    ensures
        r == (kept matches Some(m) && elapsed(m.last_updated, *now) <= max_age_hours * 3600
            * 1_000_000_000),
{
    match kept {
        Some(m) => is_fresh(now, &m.last_updated, max_age_hours),
        None => false,
    }
}

/// Whether kept metadata is good now; where nothing is kept it is not.
pub fn is_valid(kept: &Option<PackageMetadata>, max_age_hours: i64) -> (r: bool)
    requires
        kept matches Some(m) ==> m.last_updated.is_date(),
        -MAX_AGE_HOURS <= max_age_hours <= MAX_AGE_HOURS,
    ensures
        r ==> kept is Some,
        kept is None ==> !r,
        exists|now: Timestamp| #[trigger]
            now.is_date() && now.nanos < 1_000_000_000 && r == (kept matches Some(m) && elapsed(
                m.last_updated,
                now,
            ) <= max_age_hours * 3600 * 1_000_000_000),
{
    let now = timestamp::utc_now();
    let r = is_valid_at(&now, kept, max_age_hours);
    proof {
        assert(now.is_date());
    }
    r
}

/// The moment `max_age_hours` before `now`; what was kept earlier is dropped.
pub fn cutoff_at(now: &Timestamp, max_age_hours: i64) -> (r: Timestamp)
    requires
        timestamp::MIN_SECS <= now.secs <= timestamp::MAX_SECS,
        -MAX_CLEANUP_HOURS <= max_age_hours <= MAX_CLEANUP_HOURS,
    ensures
        r.secs == now.secs - 3600 * max_age_hours,
        r.nanos == now.nanos,
{
    Timestamp { secs: now.secs - 3600 * max_age_hours, nanos: now.nanos }
}

/// The moment `max_age_hours` ago; what was kept earlier is dropped.
pub fn cleanup_cutoff(max_age_hours: i64) -> (r: Timestamp)
    requires
        -MAX_CLEANUP_HOURS <= max_age_hours <= MAX_CLEANUP_HOURS,
    ensures
        timestamp::MIN_SECS - 3600 * max_age_hours <= r.secs <= timestamp::MAX_SECS - 3600
            * max_age_hours,
        r.nanos < 1_000_000_000,
{
    cutoff_at(&timestamp::utc_now(), max_age_hours)
}

/// The metadata to use from what is kept, given whether that could be told to be
/// good: `None` where it is not good or was lost.
pub fn usable(good: Option<bool>, kept: Option<PackageMetadata>) -> (r: Option<Json>)
    ensures
        match r {
            Some(v) => kept matches Some(m) && m.metadata@ == v@ && good == Some(true),
            None => good != Some(true) || kept is None,
        },
{
    match (good, kept) {
        (Some(true), Some(m)) => Some(m.metadata),
        _ => None,
    }
}

/// Metadata that was just kept is good for any age that is not negative, and
/// what is good for an age is good for a longer one.
pub proof fn law_freshness(kept: Timestamp, now: Timestamp, hours: int, more: int)
    requires
        0 <= hours <= more,
    ensures
        elapsed(now, now) <= hours * 3600 * 1_000_000_000,
        elapsed(kept, now) <= hours * 3600 * 1_000_000_000 ==> elapsed(kept, now) <= more * 3600
            * 1_000_000_000,
{
}

/// Between two moments that are no leap seconds there is the difference of their
/// nanoseconds.
pub proof fn law_elapsed(from: Timestamp, to: Timestamp)
    requires
        from.nanos < 1_000_000_000,
        to.nanos < 1_000_000_000,
    ensures
        elapsed(from, to) == (to.secs * 1_000_000_000 + to.nanos) - (from.secs * 1_000_000_000
            + from.nanos),
        elapsed(from, to) == -elapsed(to, from),
{
}

/// The time that goes by is the same both ways, but for its sign; a leap second that lies
/// between two moments of a day counts as one more second.
pub proof fn law_elapsed_leap(from: Timestamp, to: Timestamp)
    ensures
        elapsed(from, to) == -elapsed(to, from),
        elapsed(from, from) == 0,
        from.nanos >= 1_000_000_000 && to.secs % 86400 > from.secs % 86400 ==> elapsed(from, to)
            == (to.secs - from.secs + 1) * 1_000_000_000 + to.nanos - from.nanos,
        to.secs % 86400 == from.secs % 86400 ==> elapsed(from, to) == (to.secs - from.secs)
            * 1_000_000_000 + to.nanos - from.nanos,
{
}

} // verus!
