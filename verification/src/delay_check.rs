//! The delay rule: a version may be served once it has been out for the
//! configured number of days; a younger one gives way to the newest version that
//! may be served.

use vstd::prelude::*;
use vstd::string::StringExecFns;

use crate::json::{Json, JsonView};
use crate::names::{self, NameMap};
use crate::text;
use crate::timestamp::{self, Timestamp};

verus! {

/// The days of delay where none are configured.
pub const DEFAULT_DELAY_DAYS: i64 = 3;

/// The largest number of days that can be counted back from any moment.
pub const MAX_DELAY_DAYS: i64 = 96465292;

/// The largest number of days that can be counted on from the start of 1970.
pub const MAX_ADVANCE_DAYS: i64 = 95026236;

/// What can go wrong in a delay check.
#[derive(Debug, Clone)]
pub enum DelayCheckError {
    InvalidTimeFormat(String),
    MissingTimeField,
    VersionNotFound { version: String },
    NoEligibleVersions,
    InvalidDelayDays(String),
}

/// What an error says.
#[verifier::ext_equal]
pub enum ErrorView {
    InvalidTimeFormat(Seq<char>),
    MissingTimeField,
    VersionNotFound(Seq<char>),
    NoEligibleVersions,
    InvalidDelayDays(Seq<char>),
}

impl View for DelayCheckError {
    type V = ErrorView;

    open spec fn view(&self) -> ErrorView {
        match self {
            DelayCheckError::InvalidTimeFormat(m) => ErrorView::InvalidTimeFormat(m@),
            DelayCheckError::MissingTimeField => ErrorView::MissingTimeField,
            DelayCheckError::VersionNotFound { version } => ErrorView::VersionNotFound(version@),
            DelayCheckError::NoEligibleVersions => ErrorView::NoEligibleVersions,
            DelayCheckError::InvalidDelayDays(v) => ErrorView::InvalidDelayDays(v@),
        }
    }
}

impl ErrorView {
    /// The message for an error.
    pub open spec fn message(self) -> Seq<char> {
        match self {
            ErrorView::InvalidTimeFormat(m) => "Invalid time field format: "@ + m,
            ErrorView::MissingTimeField => "Missing time field in metadata"@,
            ErrorView::VersionNotFound(v) => "Version '"@ + v + "' not found in metadata"@,
            ErrorView::NoEligibleVersions => "No eligible versions available after delay check"@,
            ErrorView::InvalidDelayDays(v) => "Invalid DELAY_DAYS value: "@ + v,
        }
    }
}

impl DelayCheckError {
    /// The message for the error.
    pub fn to_string(&self) -> (s: String)
        ensures
            s@ == self@.message(),
    {
        match self {
            DelayCheckError::InvalidTimeFormat(m) => "Invalid time field format: ".to_owned()
                .concat(m.as_str()),
            DelayCheckError::MissingTimeField => "Missing time field in metadata".to_owned(),
            DelayCheckError::VersionNotFound { version } => "Version '".to_owned().concat(
                version.as_str(),
            ).concat("' not found in metadata"),
            DelayCheckError::NoEligibleVersions =>
                "No eligible versions available after delay check".to_owned(),
            DelayCheckError::InvalidDelayDays(v) => "Invalid DELAY_DAYS value: ".to_owned().concat(
                v.as_str(),
            ),
        }
    }
}

/// The numbers among some pieces, in order.
pub open spec fn numbers(parts: Seq<Seq<char>>) -> Seq<u64>
    decreases parts.len(),
{
    if parts.len() == 0 {
        Seq::empty()
    } else {
        match text::as_u64(parts.last()) {
            Some(n) => numbers(parts.drop_last()).push(n),
            None => numbers(parts.drop_last()),
        }
    }
}

/// What a version says of its rank: the text without a leading `v` and without
/// the name of a build, which a plus sign begins.
pub open spec fn ranked_text(version: Seq<char>) -> Seq<char> {
    let plain = text::before_first(version, '+');
    if plain.len() > 0 && plain[0] == 'v' {
        plain.skip(1)
    } else {
        plain
    }
}

/// The numbers of a version: what stands between the dots before its first
/// hyphen, as far as it is a number.
pub open spec fn version_numbers(version: Seq<char>) -> Seq<u64> {
    numbers(text::split(text::before_first(ranked_text(version), '-'), '.'))
}

/// What the name of a pre-release is made of: numbers and words.
#[verifier::ext_equal]
pub enum Identifier {
    Number(u64),
    Word(Seq<char>),
}

/// A piece of the name of a pre-release.
pub open spec fn identifier(piece: Seq<char>) -> Identifier {
    match text::as_u64(piece) {
        Some(n) => Identifier::Number(n),
        None => Identifier::Word(piece),
    }
}

/// What a name of a pre-release is made of.
pub open spec fn identifiers(pieces: Seq<Seq<char>>) -> Seq<Identifier> {
    pieces.map_values(|p: Seq<char>| identifier(p))
}

/// The name of the pre-release that a version is: what stands between the dots
/// behind its first hyphen. A release has none.
pub open spec fn prerelease(version: Seq<char>) -> Option<Seq<Identifier>> {
    match text::cut(ranked_text(version), '-') {
        Some((_, name)) => Some(identifiers(text::split(name, '.'))),
        None => None,
    }
}

/// The order of number lists: by the first number in which they differ, a list
/// before the longer ones that begin with it.
pub open spec fn numbers_less(a: Seq<u64>, b: Seq<u64>) -> bool
    decreases a.len(),
{
    if b.len() == 0 {
        false
    } else if a.len() == 0 {
        true
    } else if a[0] != b[0] {
        a[0] < b[0]
    } else {
        numbers_less(a.skip(1), b.skip(1))
    }
}

/// The order of identifiers: numbers by their size, words as texts, and numbers
/// before words.
pub open spec fn identifier_less(a: Identifier, b: Identifier) -> bool {
    match (a, b) {
        (Identifier::Number(x), Identifier::Number(y)) => x < y,
        (Identifier::Number(_), Identifier::Word(_)) => true,
        (Identifier::Word(_), Identifier::Number(_)) => false,
        (Identifier::Word(x), Identifier::Word(y)) => text::less(x, y),
    }
}

/// The order of names of pre-releases: by the first identifier in which they
/// differ, a name before the longer ones that begin with it.
pub open spec fn names_less(a: Seq<Identifier>, b: Seq<Identifier>) -> bool
    decreases a.len(),
{
    if b.len() == 0 {
        false
    } else if a.len() == 0 {
        true
    } else if a[0] != b[0] {
        identifier_less(a[0], b[0])
    } else {
        names_less(a.skip(1), b.skip(1))
    }
}

/// The order of versions with the same numbers: pre-releases by their names, and
/// all of them before the release.
pub open spec fn prerelease_less(
    a: Option<Seq<Identifier>>,
    b: Option<Seq<Identifier>>,
) -> bool {
    match (a, b) {
        (Some(x), Some(y)) => names_less(x, y),
        (Some(_), None) => true,
        (None, _) => false,
    }
}

/// Whether version `a` is older than version `b`: by their numbers, and where
/// those are the same by their pre-releases.
pub open spec fn version_less(a: Seq<char>, b: Seq<char>) -> bool {
    let (x, y) = (version_numbers(a), version_numbers(b));
    numbers_less(x, y) || (x == y && prerelease_less(prerelease(a), prerelease(b)))
}

fn ranked<'a>(version: &'a str) -> (r: &'a str)
    ensures
        r@ == ranked_text(version@),
{
    let plain = text::first_piece(version, '+');
    if !plain.is_empty() && plain.get_char(0) == 'v' {
        let n: usize = plain.unicode_len();
        proof {
            assert(plain@.subrange(1, n as int) =~= plain@.skip(1));
        }
        plain.substring_char(1, n)
    } else {
        plain
    }
}

fn numbers_of(version: &str) -> (r: Vec<u64>)
    ensures
        r@ == version_numbers(version@),
{
    let parts = text::split_text(text::first_piece(ranked(version), '-'), '.');
    let mut r: Vec<u64> = Vec::new();
    let mut i: usize = 0;
    proof {
        assert(text::views(parts@).take(0) =~= Seq::empty());
    }
    while i < parts.len()
        invariant
            i <= parts@.len(),
            r@ == numbers(text::views(parts@).take(i as int)),
        decreases parts@.len() - i,
    {
        proof {
            let longer = text::views(parts@).take(i + 1);
            assert(longer.drop_last() =~= text::views(parts@).take(i as int));
            assert(longer.last() == parts@[i as int]@);
        }
        match text::parse_u64(parts[i].as_str()) {
            Some(n) => {
                r.push(n);
            },
            None => {},
        }
        i += 1;
    }
    proof {
        assert(text::views(parts@).take(parts@.len() as int) =~= text::views(parts@));
    }
    r
}

/// Whether one list of numbers comes before another, and whether it is the same.
fn order_numbers(x: &Vec<u64>, y: &Vec<u64>) -> (r: (bool, bool))
    ensures
        r.0 == numbers_less(x@, y@),
        r.1 == (x@ == y@),
{
    let mut i: usize = 0;
    proof {
        assert(x@.skip(0) =~= x@);
        assert(y@.skip(0) =~= y@);
    }
    while i < x.len() && i < y.len() && x[i] == y[i]
        invariant
            i <= x@.len(),
            i <= y@.len(),
            forall|j: int| 0 <= j < i ==> x@[j] == y@[j],
            numbers_less(x@, y@) == numbers_less(x@.skip(i as int), y@.skip(i as int)),
        decreases x@.len() - i,
    {
        proof {
            assert(x@.skip(i as int).skip(1) =~= x@.skip(i + 1));
            assert(y@.skip(i as int).skip(1) =~= y@.skip(i + 1));
        }
        i += 1;
    }
    let same = i == x.len() && i == y.len();
    proof {
        if same {
            assert(x@ =~= y@);
        }
    }
    if i == y.len() {
        (false, same)
    } else if i == x.len() {
        (true, same)
    } else {
        (x[i] < y[i], same)
    }
}

/// Whether a piece of one name of a pre-release comes before a piece of another,
/// and whether it says the same.
fn order_pieces(a: &str, b: &str) -> (r: (bool, bool))
    ensures
        r.0 == identifier_less(identifier(a@), identifier(b@)),
        r.1 == (identifier(a@) == identifier(b@)),
{
    match (text::parse_u64(a), text::parse_u64(b)) {
        (Some(x), Some(y)) => (x < y, x == y),
        (Some(_), None) => (true, false),
        (None, Some(_)) => (false, false),
        (None, None) => (text::is_less(a, b), text::same(a, b)),
    }
}

fn name_before(a: &str, b: &str) -> (r: bool)
    ensures
        r == names_less(identifiers(text::split(a@, '.')), identifiers(text::split(b@, '.'))),
{
    let x = text::split_text(a, '.');
    let y = text::split_text(b, '.');
    let ghost p = identifiers(text::views(x@));
    let ghost q = identifiers(text::views(y@));
    let mut i: usize = 0;
    proof {
        assert(p.skip(0) =~= p);
        assert(q.skip(0) =~= q);
    }
    while i < x.len() && i < y.len()
        invariant
            i <= x@.len(),
            i <= y@.len(),
            p == identifiers(text::views(x@)),
            q == identifiers(text::views(y@)),
            p == identifiers(text::split(a@, '.')),
            q == identifiers(text::split(b@, '.')),
            names_less(p, q) == names_less(p.skip(i as int), q.skip(i as int)),
        decreases x@.len() - i,
    {
        let (before, same) = order_pieces(x[i].as_str(), y[i].as_str());
        proof {
            assert(p.skip(i as int)[0] == identifier(x@[i as int]@));
            assert(q.skip(i as int)[0] == identifier(y@[i as int]@));
            assert(p.skip(i as int).skip(1) =~= p.skip(i + 1));
            assert(q.skip(i as int).skip(1) =~= q.skip(i + 1));
        }
        if !same {
            return before;
        }
        i += 1;
    }
    proof {
        assert(p.skip(i as int).len() == x@.len() - i);
        assert(q.skip(i as int).len() == y@.len() - i);
    }
    i < y.len()
}

/// Whether version `a` is older than version `b`.
pub fn is_older(a: &str, b: &str) -> (r: bool)
    ensures
        r == version_less(a@, b@),
{
    let (before, same) = order_numbers(&numbers_of(a), &numbers_of(b));
    if before {
        return true;
    }
    if !same {
        return false;
    }
    match (text::split_once(ranked(a), '-'), text::split_once(ranked(b), '-')) {
        (Some((_, x)), Some((_, y))) => name_before(x, y),
        (Some(_), None) => true,
        (None, _) => false,
    }
}

/// Compares two versions.
pub fn compare_versions(a: &str, b: &str) -> (r: std::cmp::Ordering)
    ensures
        r == (if version_less(a@, b@) {
            std::cmp::Ordering::Less
        } else if version_less(b@, a@) {
            std::cmp::Ordering::Greater
        } else {
            std::cmp::Ordering::Equal
        }),
{
    if is_older(a, b) {
        std::cmp::Ordering::Less
    } else if is_older(b, a) {
        std::cmp::Ordering::Greater
    } else {
        std::cmp::Ordering::Equal
    }
}

/// Comparing numbers first to last is a strict order.
proof fn lemma_numbers_order(a: Seq<u64>, b: Seq<u64>, c: Seq<u64>)
    ensures
        !numbers_less(a, a),
        numbers_less(a, b) && numbers_less(b, c) ==> numbers_less(a, c),
        numbers_less(a, c) ==> numbers_less(a, b) || numbers_less(b, c),
        numbers_less(a, b) || numbers_less(b, a) || a == b,
    decreases a.len() + b.len() + c.len(),
{
    if a.len() > 0 {
        lemma_numbers_order(
            a.skip(1),
            if b.len() > 0 {
                b.skip(1)
            } else {
                b
            },
            if c.len() > 0 {
                c.skip(1)
            } else {
                c
            },
        );
    }
    if a.len() > 0 && b.len() > 0 && a[0] == b[0] && a.skip(1) == b.skip(1) {
        assert(a =~= seq![a[0]] + a.skip(1));
        assert(b =~= seq![b[0]] + b.skip(1));
    }
    if a.len() == 0 && b.len() == 0 {
        assert(a =~= b);
    }
}

/// Comparing identifiers is a strict order.
proof fn lemma_identifier_order(a: Identifier, b: Identifier, c: Identifier)
    ensures
        !identifier_less(a, a),
        identifier_less(a, b) && identifier_less(b, c) ==> identifier_less(a, c),
        identifier_less(a, b) || identifier_less(b, a) || a == b,
{
    if let Identifier::Word(x) = a {
        text::lemma_less_irreflexive(x);
        if let Identifier::Word(y) = b {
            text::lemma_less_total(x, y);
            if let Identifier::Word(z) = c {
                if text::less(x, y) && text::less(y, z) {
                    text::lemma_less_transitive(x, y, z);
                }
            }
        }
    }
}

/// Comparing names of pre-releases first to last is a strict order.
proof fn lemma_names_order(a: Seq<Identifier>, b: Seq<Identifier>, c: Seq<Identifier>)
    ensures
        !names_less(a, a),
        names_less(a, b) && names_less(b, c) ==> names_less(a, c),
        names_less(a, b) || names_less(b, a) || a == b,
    decreases a.len() + b.len() + c.len(),
{
    if a.len() > 0 {
        lemma_names_order(
            a.skip(1),
            if b.len() > 0 {
                b.skip(1)
            } else {
                b
            },
            if c.len() > 0 {
                c.skip(1)
            } else {
                c
            },
        );
        if b.len() > 0 {
            lemma_identifier_order(a[0], b[0], a[0]);
            lemma_identifier_order(b[0], a[0], b[0]);
            if c.len() > 0 {
                lemma_identifier_order(a[0], b[0], c[0]);
                lemma_identifier_order(a[0], b[0], a[0]);
            }
        }
    }
    if a.len() > 0 && b.len() > 0 && a[0] == b[0] && a.skip(1) == b.skip(1) {
        assert(a =~= seq![a[0]] + a.skip(1));
        assert(b =~= seq![b[0]] + b.skip(1));
    }
    if a.len() == 0 && b.len() == 0 {
        assert(a =~= b);
    }
}

/// Comparing versions is transitive, and two of which neither is older are alike.
proof fn lemma_versions_order(a: Seq<char>, b: Seq<char>, c: Seq<char>)
    ensures
        !version_less(a, a),
        version_less(a, b) && version_less(b, c) ==> version_less(a, c),
        version_less(a, b) || version_less(b, a) || (version_numbers(a) == version_numbers(b)
            && prerelease(a) == prerelease(b)),
{
    let (x, y, z) = (version_numbers(a), version_numbers(b), version_numbers(c));
    lemma_numbers_order(x, y, z);
    lemma_numbers_order(y, x, z);
    if let Some(p) = prerelease(a) {
        lemma_names_order(p, p, p);
        if let Some(q) = prerelease(b) {
            lemma_names_order(p, q, p);
            if let Some(s) = prerelease(c) {
                lemma_names_order(p, q, s);
            }
        }
    }
}

/// Versions are weakly ordered: none is older than itself, age is transitive,
/// and if `a` is older than `c` then any `b` is younger than `a` or older than
/// `c`. Two versions of which neither is older have the same numbers and are the
/// same pre-release, or both none.
pub proof fn law_version_order(a: Seq<char>, b: Seq<char>, c: Seq<char>)
    ensures
        !version_less(a, a),
        version_less(a, b) && version_less(b, c) ==> version_less(a, c),
        version_less(a, c) ==> version_less(a, b) || version_less(b, c),
        !version_less(a, b) && !version_less(b, a) <==> (version_numbers(a) == version_numbers(b)
            && prerelease(a) == prerelease(b)),
{
    lemma_versions_order(a, b, c);
    lemma_versions_order(a, a, a);
    lemma_versions_order(b, a, c);
    lemma_versions_order(b, c, a);
    lemma_versions_order(c, b, a);
    lemma_versions_order(a, c, b);
}

/// A pre-release is older than the release that it leads up to, and the name of a
/// build makes a version neither older nor newer.
pub proof fn law_release_order(version: Seq<char>, name: Seq<char>)
    requires
        !version.contains('-'),
        !version.contains('+'),
        !name.contains('+'),
    ensures
        version_less(version + seq!['-'] + name, version),
        !version_less(version + seq!['+'] + name, version),
        !version_less(version, version + seq!['+'] + name),
{
    let pre = version + seq!['-'] + name;
    let built = version + seq!['+'] + name;
    lemma_first_index(version, '+');
    lemma_first_index(pre, '+');
    assert(!pre.contains('+')) by {
        assert forall|i: int| 0 <= i < pre.len() implies pre[i] != '+' by {
            if i < version.len() {
                assert(pre[i] == version[i]);
            } else if i > version.len() {
                assert(pre[i] == name[i - version.len() - 1]);
            }
        }
    }
    assert(pre.take(pre.len() as int) =~= pre);
    assert(version.take(version.len() as int) =~= version);
    lemma_first_at(version, name, '+');
    assert(built.take(version.len() as int) =~= version);
    assert(ranked_text(built) == ranked_text(version));
    let plain = ranked_text(version);
    let rest = ranked_text(pre);
    assert(!plain.contains('-')) by {
        assert forall|i: int| 0 <= i < plain.len() implies plain[i] != '-' by {
            let k = i + version.len() - plain.len();
            assert(plain[i] == version[k]);
        }
    }
    if version.len() > 0 {
        assert(pre[0] == version[0]);
    }
    assert(rest =~= plain + seq!['-'] + name);
    lemma_first_at(plain, name, '-');
    lemma_first_index(plain, '-');
    assert(rest.take(plain.len() as int) =~= plain);
    assert(plain.take(plain.len() as int) =~= plain);
    lemma_numbers_order(version_numbers(version), version_numbers(version), Seq::empty());
    law_version_order(built, version, built);
}

proof fn lemma_first_index(s: Seq<char>, c: char)
    ensures
        !s.contains(c) ==> text::first_index(s, c) == s.len(),
    decreases s.len(),
{
    if s.len() > 0 && !s.contains(c) {
        assert(s[0] != c);
        assert forall|i: int| 0 <= i < s.skip(1).len() implies s.skip(1)[i] != c by {
            assert(s.skip(1)[i] == s[i + 1]);
        }
        lemma_first_index(s.skip(1), c);
    }
}

proof fn lemma_first_at(s: Seq<char>, rest: Seq<char>, c: char)
    requires
        !s.contains(c),
    ensures
        text::first_index(s + seq![c] + rest, c) == s.len(),
    decreases s.len(),
{
    let t = s + seq![c] + rest;
    if s.len() == 0 {
        assert(t[0] == c);
    } else {
        assert(t[0] == s[0]);
        assert forall|i: int| 0 <= i < s.skip(1).len() implies s.skip(1)[i] != c by {
            assert(s.skip(1)[i] == s[i + 1]);
        }
        lemma_first_at(s.skip(1), rest, c);
        assert(t.skip(1) =~= s.skip(1) + seq![c] + rest);
    }
}

/// The newest of some versions; of equally new ones the last.
pub open spec fn newest(versions: Seq<Seq<char>>) -> Option<Seq<char>>
    decreases versions.len(),
{
    if versions.len() == 0 {
        None
    } else {
        match newest(versions.drop_last()) {
            Some(best) => if version_less(versions.last(), best) {
                Some(best)
            } else {
                Some(versions.last())
            },
            None => Some(versions.last()),
        }
    }
}

/// The newest version is one of the given ones, none of which is newer, and none
/// that stands behind it is as new. There is one unless none was given.
pub proof fn law_newest(versions: Seq<Seq<char>>)
    ensures
        newest(versions) is None <==> versions.len() == 0,
        newest(versions) matches Some(best) ==> {
            &&& versions.contains(best)
            &&& forall|i: int|
                0 <= i < versions.len() ==> !version_less(best, #[trigger] versions[i])
            &&& exists|k: int|
                0 <= k < versions.len() && versions[k] == best && forall|i: int|
                    k < i < versions.len() ==> version_less(#[trigger] versions[i], best)
        },
    decreases versions.len(),
{
    if versions.len() > 0 {
        let front = versions.drop_last();
        let last = versions.last();
        law_newest(front);
        let best = newest(versions)->0;
        match newest(front) {
            Some(old) => {
                let k = choose|k: int|
                    0 <= k < front.len() && front[k] == old && forall|i: int|
                        k < i < front.len() ==> version_less(#[trigger] front[i], old);
                law_version_order(old, last, old);
                law_version_order(last, old, last);
                assert forall|i: int| 0 <= i < versions.len() implies !version_less(
                    best,
                    #[trigger] versions[i],
                ) by {
                    if i < front.len() {
                        assert(front[i] == versions[i]);
                        law_version_order(last, old, versions[i]);
                    }
                }
                if version_less(last, old) {
                    assert(versions[k] == best);
                    assert forall|i: int| k < i < versions.len() implies version_less(
                        #[trigger] versions[i],
                        best,
                    ) by {
                        if i < front.len() {
                            assert(front[i] == versions[i]);
                        }
                    }
                } else {
                    assert(versions[versions.len() - 1] == best);
                }
            },
            None => {
                assert(versions[versions.len() - 1] == best);
                law_version_order(last, last, last);
            },
        }
    }
}

/// The newest of some versions.
pub fn newest_of(versions: &Vec<String>) -> (r: Option<String>)
    ensures
        match r {
            Some(v) => newest(text::views(versions@)) == Some(v@),
            None => newest(text::views(versions@)) is None,
        },
{
    let ghost all = text::views(versions@);
    if versions.len() == 0 {
        return None;
    }
    let mut best: usize = 0;
    let mut i: usize = 1;
    proof {
        assert(all.take(1).drop_last() =~= Seq::empty());
        assert(newest(all.take(1).drop_last()) is None);
        assert(all.take(1).last() == all[0]);
    }
    while i < versions.len()
        invariant
            1 <= i <= versions@.len(),
            best < i,
            all == text::views(versions@),
            newest(all.take(i as int)) == Some(all[best as int]),
        decreases versions@.len() - i,
    {
        proof {
            assert(all.take(i + 1).drop_last() =~= all.take(i as int));
            assert(all.take(i + 1).last() == all[i as int]);
        }
        if !is_older(versions[i].as_str(), versions[best].as_str()) {
            best = i;
        }
        i += 1;
    }
    proof {
        assert(all.take(all.len() as int) =~= all);
    }
    Some(versions[best].clone())
}

/// The versions published by `cutoff`, in order.
pub open spec fn eligible(times: Seq<(Seq<char>, Timestamp)>, cutoff: Timestamp) -> Seq<Seq<char>>
    decreases times.len(),
{
    if times.len() == 0 {
        Seq::empty()
    } else if times.last().1.le(cutoff) {
        eligible(times.drop_last(), cutoff).push(times.last().0)
    } else {
        eligible(times.drop_last(), cutoff)
    }
}

/// A version is eligible exactly if it is listed with a time that is not after
/// the cutoff.
pub proof fn law_eligible(
    times: Seq<(Seq<char>, Timestamp)>,
    cutoff: Timestamp,
    version: Seq<char>,
)
    requires
        names::in_order(times),
    ensures
        eligible(times, cutoff).contains(version) <==> (names::lookup(times, version) matches Some(
            t,
        ) && t.le(cutoff)),
    decreases times.len(),
{
    if times.len() > 0 {
        let front = times.drop_last();
        assert forall|i: int, j: int| 0 <= i < j < front.len() implies text::less(
            #[trigger] front[i].0,
            #[trigger] front[j].0,
        ) by {
            assert(front[i] == times[i] && front[j] == times[j]);
        }
        law_eligible(front, cutoff, version);
        let shorter = eligible(front, cutoff);
        let list = eligible(times, cutoff);
        let last = times.last();
        if last.1.le(cutoff) {
            assert(list.last() == last.0);
            if shorter.contains(version) {
                let k = choose|k: int| 0 <= k < shorter.len() && shorter[k] == version;
                assert(list[k] == version);
            }
            if last.0 == version {
                assert(list[list.len() - 1] == version);
            }
            if list.contains(version) && version != last.0 {
                let k = choose|k: int| 0 <= k < list.len() && list[k] == version;
                assert(shorter[k] == version);
            }
        }
        if last.0 == version {
            names::lemma_lookup_found(front, version);
            if names::lookup(front, version) is Some {
                let v = names::lookup(front, version)->0;
                let k = choose|k: int| 0 <= k < front.len() && front[k] == (version, v);
                assert(text::less(times[k].0, times[times.len() - 1].0));
                text::lemma_less_irreflexive(version);
            }
        }
    }
}

/// The outcome of a check.
#[derive(Debug, Clone, PartialEq)]
pub enum VersionCheckResult {
    Allowed,
    Denied { publish_time: Timestamp },
    Downgraded {
        original_version: String,
        suggested_version: String,
        original_time: Timestamp,
        suggested_time: Timestamp,
    },
}

/// What an outcome says.
#[verifier::ext_equal]
pub enum CheckView {
    Allowed,
    Denied { publish_time: Timestamp },
    Downgraded {
        original_version: Seq<char>,
        suggested_version: Seq<char>,
        original_time: Timestamp,
        suggested_time: Timestamp,
    },
}

impl View for VersionCheckResult {
    type V = CheckView;

    open spec fn view(&self) -> CheckView {
        match self {
            VersionCheckResult::Allowed => CheckView::Allowed,
            VersionCheckResult::Denied { publish_time } => CheckView::Denied {
                publish_time: *publish_time,
            },
            VersionCheckResult::Downgraded {
                original_version,
                suggested_version,
                original_time,
                suggested_time,
            } => CheckView::Downgraded {
                original_version: original_version@,
                suggested_version: suggested_version@,
                original_time: *original_time,
                suggested_time: *suggested_time,
            },
        }
    }
}

/// Whether every listed time has a date.
pub open spec fn all_dates(times: Seq<(Seq<char>, Timestamp)>) -> bool {
    forall|i: int| 0 <= i < times.len() ==> (#[trigger] times[i]).1.is_date()
}

/// When each version was published.
#[derive(Debug)]
pub struct VersionTimeInfo {
    inner: NameMap<Timestamp>,
}

impl View for VersionTimeInfo {
    type V = Seq<(Seq<char>, Timestamp)>;

    closed spec fn view(&self) -> Seq<(Seq<char>, Timestamp)> {
        self.inner@
    }
}

/// Some times listed under their versions, each version once: the last time
/// given for it.
pub open spec fn listed(entries: Seq<(Seq<char>, Timestamp)>) -> Seq<(Seq<char>, Timestamp)>
    decreases entries.len(),
{
    if entries.len() == 0 {
        Seq::empty()
    } else {
        names::put(listed(entries.drop_last()), entries.last().0, entries.last().1)
    }
}

proof fn lemma_put_dates(times: Seq<(Seq<char>, Timestamp)>, name: Seq<char>, t: Timestamp)
    requires
        all_dates(times),
        t.is_date(),
    ensures
        all_dates(names::put(times, name, t)),
    decreases times.len(),
{
    if times.len() > 0 {
        let front = times.drop_last();
        assert forall|i: int| 0 <= i < front.len() implies (#[trigger] front[i]).1.is_date() by {
            assert(front[i] == times[i]);
        }
        lemma_put_dates(front, name, t);
        let r = names::put(times, name, t);
        assert forall|i: int| 0 <= i < r.len() implies (#[trigger] r[i]).1.is_date() by {
            if times.last().0 == name {
                if i < front.len() {
                    assert(r[i] == times[i]);
                }
            } else if text::less(times.last().0, name) {
                if i < times.len() {
                    assert(r[i] == times[i]);
                }
            } else {
                let shorter = names::put(front, name, t);
                if i < shorter.len() {
                    assert(r[i] == shorter[i]);
                } else {
                    assert(r[i] == times[times.len() - 1]);
                }
            }
        }
    }
}

impl VersionTimeInfo {
    #[verifier::type_invariant]
    spec fn dated(self) -> bool {
        all_dates(self.inner@)
    }

    /// Lists the given times under their versions.
    pub fn from_times(entries: &Vec<(String, Timestamp)>) -> (r: Self)
        requires
            forall|i: int| 0 <= i < entries@.len() ==> (#[trigger] entries@[i]).1.is_date(),
        ensures
            r@ == listed(names::entries_view(entries@)),
    {
        let ghost all = names::entries_view(entries@);
        let mut inner: NameMap<Timestamp> = NameMap::new();
        let mut i: usize = 0;
        proof {
            assert(all.take(0) =~= Seq::empty());
        }
        while i < entries.len()
            invariant
                i <= entries@.len(),
                all == names::entries_view(entries@),
                inner@ == listed(all.take(i as int)),
                all_dates(inner@),
                forall|i: int| 0 <= i < entries@.len() ==> (#[trigger] entries@[i]).1.is_date(),
            decreases entries@.len() - i,
        {
            proof {
                assert(all.take(i + 1).drop_last() =~= all.take(i as int));
                assert(all.take(i + 1).last() == all[i as int]);
                assert(entries@[i as int].1.is_date());
                lemma_put_dates(inner@, all[i as int].0, all[i as int].1);
            }
            inner.insert(entries[i].0.as_str(), entries[i].1);
            i += 1;
        }
        proof {
            assert(all.take(all.len() as int) =~= all);
        }
        VersionTimeInfo { inner }
    }

    /// When `version` was published.
    pub fn get_publish_time(&self, version: &str) -> (r: Option<&Timestamp>)
        ensures
            match r {
                Some(t) => names::lookup(self@, version@) == Some(*t) && t.is_date(),
                None => names::lookup(self@, version@) is None,
            },
            names::in_order(self@),
    {
        proof {
            use_type_invariant(self);
            names::lemma_lookup_found(self@, version@);
        }
        let r = self.inner.get(version);
        proof {
            if let Some(t) = r {
                let k = choose|k: int| 0 <= k < self@.len() && self@[k] == (version@, *t);
                assert(self@[k].1.is_date());
            }
        }
        r
    }

    /// The versions, in order.
    pub fn versions(&self) -> (r: Vec<String>)
        ensures
            text::views(r@) == self@.map_values(|e: (Seq<char>, Timestamp)| e.0),
            names::in_order(self@),
    {
        self.inner.names()
    }

    /// How many versions there are.
    pub fn len(&self) -> (n: usize)
        ensures
            n == self@.len(),
    {
        self.inner.len()
    }

    /// Whether there are no versions.
    pub fn is_empty(&self) -> (b: bool)
        ensures
            b == (self@.len() == 0),
    {
        self.inner.len() == 0
    }
}


/// The first of four readings that succeeded.
pub open spec fn first_time(
    a: Option<(i64, u32)>,
    b: Option<(i64, u32)>,
    c: Option<(i64, u32)>,
    d: Option<(i64, u32)>,
) -> Option<Timestamp> {
    if let Some((secs, nanos)) = a {
        Some(Timestamp { secs, nanos })
    } else if let Some((secs, nanos)) = b {
        Some(Timestamp { secs, nanos })
    } else if let Some((secs, nanos)) = c {
        Some(Timestamp { secs, nanos })
    } else if let Some((secs, nanos)) = d {
        Some(Timestamp { secs, nanos })
    } else {
        None
    }
}

/// The moment that a text names: with an offset, else in UTC with a `T` or a
/// space between date and time.
pub open spec fn flexible_time(s: Seq<char>) -> Option<Timestamp> {
    first_time(
        timestamp::rfc3339_time(s),
        timestamp::formatted_time(s, "%Y-%m-%dT%H:%M:%S"@),
        timestamp::formatted_time(s, "%Y-%m-%dT%H:%M:%S%.f"@),
        timestamp::formatted_time(s, "%Y-%m-%d %H:%M:%S"@),
    )
}

/// What reading a moment comes to, given whether the text names one.
pub open spec fn time_or_error(s: Seq<char>, time: Option<Timestamp>) -> Result<
    Timestamp,
    ErrorView,
> {
    match time {
        Some(t) => Ok(t),
        None => Err(ErrorView::InvalidTimeFormat("unable to parse datetime: "@ + s)),
    }
}

/// What an exec result says.
pub open spec fn time_result(r: Result<Timestamp, DelayCheckError>) -> Result<
    Timestamp,
    ErrorView,
> {
    match r {
        Ok(t) => Ok(t),
        Err(e) => Err(e@),
    }
}

/// The moment read from a text, or the error for a text that names none.
pub fn require_time(time_str: &str, time: Option<Timestamp>) -> (r: Result<
    Timestamp,
    DelayCheckError,
>)
    ensures
        time_result(r) == time_or_error(time_str@, time),
{
    match time {
        Some(t) => Ok(t),
        None => Err(
            DelayCheckError::InvalidTimeFormat(
                "unable to parse datetime: ".to_owned().concat(time_str),
            ),
        ),
    }
}

/// Reads a moment in any of the accepted forms.
pub fn parse_datetime_flexible(time_str: &str) -> (r: Result<Timestamp, DelayCheckError>)
    ensures
        time_result(r) == time_or_error(time_str@, flexible_time(time_str@)),
        r matches Ok(t) ==> t.is_date(),
{
    let mut time = timestamp::parse_rfc3339(time_str);
    if time.is_none() {
        time = timestamp::parse_formatted(time_str, "%Y-%m-%dT%H:%M:%S");
    }
    if time.is_none() {
        time = timestamp::parse_formatted(time_str, "%Y-%m-%dT%H:%M:%S%.f");
    }
    if time.is_none() {
        time = timestamp::parse_formatted(time_str, "%Y-%m-%d %H:%M:%S");
    }
    require_time(time_str, time)
}

/// Whether a member of the time field names no version.
pub open spec fn is_bookkeeping(key: Seq<char>) -> bool {
    key == "created"@ || key == "modified"@
}

/// What a member of the time field says of its version, given the moment that
/// its text names: nothing, a time, or an error.
pub open spec fn entry_time(key: Seq<char>, value: JsonView, named: Option<Timestamp>) -> Result<
    Option<Timestamp>,
    ErrorView,
> {
    if is_bookkeeping(key) {
        Ok(None)
    } else {
        match value.text() {
            None => Err(
                ErrorView::InvalidTimeFormat(
                    "value for version '"@ + key + "' is not a string"@,
                ),
            ),
            Some(s) => match named {
                Some(t) => Ok(Some(t)),
                None => Err(
                    ErrorView::InvalidTimeFormat(
                        "invalid ISO 8601 timestamp for version '"@ + key + "': "@ + s,
                    ),
                ),
            },
        }
    }
}

/// The moment that the text of a JSON string names.
pub open spec fn named_time(value: JsonView) -> Option<Timestamp> {
    match value.text() {
        Some(s) => flexible_time(s),
        None => None,
    }
}

/// The times that the members of a time field list, or the error of the first
/// member that has one.
pub open spec fn member_times(members: Seq<(Seq<char>, JsonView)>) -> Result<
    Seq<(Seq<char>, Timestamp)>,
    ErrorView,
>
    decreases members.len(),
{
    if members.len() == 0 {
        Ok(Seq::empty())
    } else {
        let (key, value) = members.last();
        match member_times(members.drop_last()) {
            Err(e) => Err(e),
            Ok(times) => match entry_time(key, value, named_time(value)) {
                Err(e) => Err(e),
                Ok(None) => Ok(times),
                Ok(Some(t)) => Ok(names::put(times, key, t)),
            },
        }
    }
}

/// The times that a time field lists.
pub open spec fn field_times(value: JsonView) -> Result<Seq<(Seq<char>, Timestamp)>, ErrorView> {
    match value {
        JsonView::Object(members) => match member_times(members) {
            Err(e) => Err(e),
            Ok(times) => if times.len() == 0 {
                Err(ErrorView::MissingTimeField)
            } else {
                Ok(times)
            },
        },
        _ => Err(ErrorView::InvalidTimeFormat("time field is not a JSON object"@)),
    }
}

/// What a parsed time field says.
pub open spec fn info_result(r: Result<VersionTimeInfo, DelayCheckError>) -> Result<
    Seq<(Seq<char>, Timestamp)>,
    ErrorView,
> {
    match r {
        Ok(info) => Ok(info@),
        Err(e) => Err(e@),
    }
}

proof fn lemma_error_lasts(members: Seq<(Seq<char>, JsonView)>, n: int)
    requires
        0 <= n <= members.len(),
        member_times(members.take(n)) is Err,
    ensures
        member_times(members) == member_times(members.take(n)),
    decreases members.len(),
{
    if n < members.len() {
        assert(members.drop_last().take(n) =~= members.take(n));
        lemma_error_lasts(members.drop_last(), n);
    } else {
        assert(members.take(n) =~= members);
    }
}

/// Reads a member of a time field, given the moment that its text names.
pub fn read_entry(key: &str, value: &Json, named: Option<Timestamp>) -> (r: Result<
    Option<Timestamp>,
    DelayCheckError,
>)
    ensures
        match r {
            Ok(t) => entry_time(key@, value@, named) == Ok::<Option<Timestamp>, ErrorView>(t),
            Err(e) => entry_time(key@, value@, named) == Err::<Option<Timestamp>, ErrorView>(e@),
        },
{
    if text::same(key, "created") || text::same(key, "modified") {
        return Ok(None);
    }
    match value.as_str() {
        None => Err(
            DelayCheckError::InvalidTimeFormat(
                "value for version '".to_owned().concat(key).concat("' is not a string"),
            ),
        ),
        Some(s) => match named {
            Some(t) => Ok(Some(t)),
            None => Err(
                DelayCheckError::InvalidTimeFormat(
                    "invalid ISO 8601 timestamp for version '".to_owned().concat(key).concat(
                        "': ",
                    ).concat(s),
                ),
            ),
        },
    }
}

fn named_time_of(value: &Json) -> (r: Option<Timestamp>)
    ensures
        r == named_time(value@),
        r matches Some(t) ==> t.is_date(),
{
    match value.as_str() {
        Some(s) => match parse_datetime_flexible(s) {
            Ok(t) => Some(t),
            Err(_) => None,
        },
        None => None,
    }
}

/// What the rule says of a version: allowed, denied or replaced by the newest
/// eligible one.
pub open spec fn resolution(
    times: Seq<(Seq<char>, Timestamp)>,
    cutoff: Timestamp,
    version: Seq<char>,
) -> Result<CheckView, ErrorView> {
    match names::lookup(times, version) {
        None => Err(ErrorView::VersionNotFound(version)),
        Some(t) => if t.le(cutoff) {
            Ok(CheckView::Allowed)
        } else {
            match newest(eligible(times, cutoff)) {
                None => Ok(CheckView::Denied { publish_time: t }),
                Some(best) => Ok(
                    CheckView::Downgraded {
                        original_version: version,
                        suggested_version: best,
                        original_time: t,
                        suggested_time: names::lookup(times, best)->0,
                    },
                ),
            }
        },
    }
}

/// What the rule says of a version taken by itself: allowed or denied.
pub open spec fn check(
    times: Seq<(Seq<char>, Timestamp)>,
    cutoff: Timestamp,
    version: Seq<char>,
) -> Result<CheckView, ErrorView> {
    match names::lookup(times, version) {
        None => Err(ErrorView::VersionNotFound(version)),
        Some(t) => if t.le(cutoff) {
            Ok(CheckView::Allowed)
        } else {
            Ok(CheckView::Denied { publish_time: t })
        },
    }
}

/// The version to serve in place of a listed one: itself where it is eligible,
/// else the newest eligible version.
pub open spec fn substitute(
    times: Seq<(Seq<char>, Timestamp)>,
    cutoff: Timestamp,
    version: Seq<char>,
) -> Result<Option<Seq<char>>, ErrorView> {
    match names::lookup(times, version) {
        None => Err(ErrorView::VersionNotFound(version)),
        Some(t) => if t.le(cutoff) {
            Ok(Some(version))
        } else {
            Ok(newest(eligible(times, cutoff)))
        },
    }
}

/// What an exec check says.
pub open spec fn check_result(r: Result<VersionCheckResult, DelayCheckError>) -> Result<
    CheckView,
    ErrorView,
> {
    match r {
        Ok(c) => Ok(c@),
        Err(e) => Err(e@),
    }
}

/// Applies the delay rule.
#[derive(Debug, Clone)]
pub struct DelayChecker {
    delay_days: i64,
    threshold: Timestamp,
}

impl Default for DelayChecker {
    fn default() -> (r: Self)
        ensures
            r.days() == DEFAULT_DELAY_DAYS,
            timestamp::MIN_SECS - 86400 * DEFAULT_DELAY_DAYS <= r.cutoff().secs
                <= timestamp::MAX_SECS - 86400 * DEFAULT_DELAY_DAYS,
            r.cutoff().nanos < 1_000_000_000,
    {
        DelayChecker::new(DEFAULT_DELAY_DAYS)
    }
}

impl DelayChecker {
    /// The days of delay.
    pub closed spec fn days(self) -> i64 {
        self.delay_days
    }

    /// The last moment of publication that is old enough.
    pub closed spec fn cutoff(self) -> Timestamp {
        self.threshold
    }

    /// A checker that counts `delay_days` back from `now`.
    pub fn at(now: Timestamp, delay_days: i64) -> (r: Self)
        requires
            timestamp::MIN_SECS <= now.secs <= timestamp::MAX_SECS,
            -MAX_DELAY_DAYS <= delay_days <= MAX_DELAY_DAYS,
        ensures
            r.days() == delay_days,
            r.cutoff() == (Timestamp {
                secs: (now.secs - 86400 * delay_days) as i64,
                nanos: now.nanos,
            }),
            r.cutoff().secs == now.secs - 86400 * delay_days,
    {
        let threshold = Timestamp { secs: now.secs - 86400 * delay_days, nanos: now.nanos };
        DelayChecker { delay_days, threshold }
    }

    /// A checker that counts `delay_days` back from the present.
    pub fn new(delay_days: i64) -> (r: Self)
        requires
            -MAX_ADVANCE_DAYS <= delay_days <= MAX_DELAY_DAYS,
        ensures
            r.days() == delay_days,
            timestamp::MIN_SECS - 86400 * delay_days <= r.cutoff().secs <= timestamp::MAX_SECS
                - 86400 * delay_days,
            r.cutoff().nanos < 1_000_000_000,
    {
        DelayChecker::at(timestamp::utc_now(), delay_days)
    }

    /// A checker for a positive number of days.
    pub fn with_delay_days(delay_days: i64) -> (r: Result<Self, DelayCheckError>)
        requires
            delay_days <= MAX_DELAY_DAYS,
        ensures
            match r {
                Ok(c) => {
                    &&& delay_days > 0
                    &&& c.days() == delay_days
                    &&& timestamp::MIN_SECS - 86400 * delay_days <= c.cutoff().secs
                        <= timestamp::MAX_SECS - 86400 * delay_days
                    &&& c.cutoff().nanos < 1_000_000_000
                },
                Err(e) => delay_days <= 0 && e@ == ErrorView::InvalidDelayDays(
                    text::decimal(delay_days as int),
                ),
            },
    {
        if delay_days <= 0 {
            return Err(DelayCheckError::InvalidDelayDays(text::decimal_text(delay_days)));
        }
        Ok(DelayChecker::new(delay_days))
    }

    /// The days of delay.
    pub fn delay_days(&self) -> (r: i64)
        ensures
            r == self.days(),
    {
        self.delay_days
    }

    /// The last moment of publication that is old enough.
    pub fn threshold(&self) -> (r: &Timestamp)
        ensures
            *r == self.cutoff(),
    {
        &self.threshold
    }

    /// Reads the times of versions from a JSON object of timestamps.
    pub fn parse_time_field(&self, time_value: &Json) -> (r: Result<
        VersionTimeInfo,
        DelayCheckError,
    >)
        ensures
            info_result(r) == field_times(time_value@),
            r matches Ok(info) ==> names::in_order(info@) && info@.len() > 0,
    {
        let members = match time_value {
            Json::Object(m) => m,
            _ => {
                return Err(
                    DelayCheckError::InvalidTimeFormat(
                        "time field is not a JSON object".to_owned(),
                    ),
                );
            },
        };
        let ghost all = crate::json::members_view(members@);
        proof {
            crate::json::lemma_object_view(*members);
            assert(all.take(0) =~= Seq::empty());
        }
        let mut inner: NameMap<Timestamp> = NameMap::new();
        let mut i: usize = 0;
        while i < members.len()
            invariant
                i <= members@.len(),
                all == crate::json::members_view(members@),
                time_value@ == JsonView::Object(all),
                member_times(all.take(i as int)) == Ok::<_, ErrorView>(inner@),
                all_dates(inner@),
                names::in_order(inner@),
            decreases members@.len() - i,
        {
            let key = &members[i].0;
            let value = &members[i].1;
            proof {
                assert(all.take(i + 1).drop_last() =~= all.take(i as int));
                assert(all.take(i + 1).last() == all[i as int]);
            }
            match read_entry(key.as_str(), value, named_time_of(value)) {
                Err(e) => {
                    proof {
                        lemma_error_lasts(all, i + 1);
                    }
                    return Err(e);
                },
                Ok(None) => {},
                Ok(Some(t)) => {
                    proof {
                        lemma_put_dates(inner@, key@, t);
                    }
                    inner.insert(key.as_str(), t);
                },
            }
            i += 1;
        }
        proof {
            assert(all.take(all.len() as int) =~= all);
        }
        if inner.len() == 0 {
            return Err(DelayCheckError::MissingTimeField);
        }
        Ok(VersionTimeInfo { inner })
    }

    /// Whether a version published at `publish_time` may be served.
    pub fn is_version_allowed(&self, publish_time: &Timestamp) -> (r: bool)
        ensures
            r == publish_time.le(self.cutoff()),
    {
        publish_time.at_most(&self.threshold)
    }

    /// Whether `version` may be served.
    pub fn check_version(&self, version: &str, time_info: &VersionTimeInfo) -> (r: Result<
        VersionCheckResult,
        DelayCheckError,
    >)
        ensures
            check_result(r) == check(time_info@, self.cutoff(), version@),
            r matches Ok(VersionCheckResult::Denied { publish_time }) ==> publish_time.is_date(),
    {
        match time_info.get_publish_time(version) {
            None => Err(DelayCheckError::VersionNotFound { version: version.to_owned() }),
            Some(t) => if self.is_version_allowed(t) {
                Ok(VersionCheckResult::Allowed)
            } else {
                Ok(VersionCheckResult::Denied { publish_time: *t })
            },
        }
    }

    /// The versions that may be served, in order.
    pub fn eligible_versions(&self, time_info: &VersionTimeInfo) -> (r: Vec<String>)
        ensures
            text::views(r@) == eligible(time_info@, self.cutoff()),
    {
        let ghost all = time_info@;
        let mut r: Vec<String> = Vec::new();
        let mut i: usize = 0;
        proof {
            assert(all.take(0) =~= Seq::empty());
            assert(text::views(r@) =~= eligible(all.take(0), self.cutoff()));
        }
        while i < time_info.inner.len()
            invariant
                i <= all.len(),
                all == time_info@,
                all == time_info.inner@,
                text::views(r@) == eligible(all.take(i as int), self.cutoff()),
            decreases all.len() - i,
        {
            proof {
                assert(all.take(i + 1).drop_last() =~= all.take(i as int));
                assert(all.take(i + 1).last() == all[i as int]);
            }
            let (name, time) = time_info.inner.entry(i);
            if self.is_version_allowed(time) {
                let ghost before = text::views(r@);
                r.push(name.clone());
                proof {
                    assert(text::views(r@) =~= before.push(all[i as int].0));
                }
            }
            i += 1;
        }
        proof {
            assert(all.take(all.len() as int) =~= all);
        }
        r
    }

    /// The version to serve in place of `requested_version`.
    pub fn find_eligible_version(
        &self,
        requested_version: &str,
        time_info: &VersionTimeInfo,
    ) -> (r: Result<Option<String>, DelayCheckError>)
        ensures
            match r {
                Ok(Some(v)) => substitute(time_info@, self.cutoff(), requested_version@)
                    == Ok::<_, ErrorView>(Some(v@)),
                Ok(None) => substitute(time_info@, self.cutoff(), requested_version@) == Ok::<
                    Option<Seq<char>>,
                    ErrorView,
                >(None),
                Err(e) => substitute(time_info@, self.cutoff(), requested_version@) == Err::<
                    Option<Seq<char>>,
                    ErrorView,
                >(e@),
            },
    {
        match time_info.get_publish_time(requested_version) {
            None => Err(
                DelayCheckError::VersionNotFound { version: requested_version.to_owned() },
            ),
            Some(t) => if self.is_version_allowed(t) {
                Ok(Some(requested_version.to_owned()))
            } else {
                Ok(newest_of(&self.eligible_versions(time_info)))
            },
        }
    }

    /// Decides what to serve for `requested_version`.
    pub fn resolve_version(
        &self,
        requested_version: &str,
        time_info: &VersionTimeInfo,
    ) -> (r: Result<VersionCheckResult, DelayCheckError>)
        ensures
            check_result(r) == resolution(time_info@, self.cutoff(), requested_version@),
    {
        let original_time = match time_info.get_publish_time(requested_version) {
            None => {
                return Err(
                    DelayCheckError::VersionNotFound { version: requested_version.to_owned() },
                );
            },
            Some(t) => *t,
        };
        if self.is_version_allowed(&original_time) {
            return Ok(VersionCheckResult::Allowed);
        }
        let list = self.eligible_versions(time_info);
        match newest_of(&list) {
            None => Ok(VersionCheckResult::Denied { publish_time: original_time }),
            Some(suggested_version) => {
                proof {
                    law_newest(text::views(list@));
                    law_eligible(time_info@, self.cutoff(), suggested_version@);
                }
                let suggested_time = match time_info.get_publish_time(suggested_version.as_str()) {
                    Some(t) => *t,
                    None => original_time,
                };
                Ok(
                    VersionCheckResult::Downgraded {
                        original_version: requested_version.to_owned(),
                        suggested_version,
                        original_time,
                        suggested_time,
                    },
                )
            },
        }
    }
}

/// A version is allowed exactly if it is listed with a time that is not after
/// the cutoff, whether it is checked or resolved.
pub proof fn law_allowed(
    times: Seq<(Seq<char>, Timestamp)>,
    cutoff: Timestamp,
    version: Seq<char>,
)
    ensures
        resolution(times, cutoff, version) == Ok::<CheckView, ErrorView>(CheckView::Allowed) <==> (
        names::lookup(times, version) matches Some(t) && t.le(cutoff)),
        check(times, cutoff, version) == Ok::<CheckView, ErrorView>(CheckView::Allowed)
            <==> resolution(times, cutoff, version) == Ok::<CheckView, ErrorView>(
            CheckView::Allowed,
        ),
{
}

/// A replacement is another version, old enough and the newest of those that
/// are; the version asked for is too young.
pub proof fn law_downgraded(
    times: Seq<(Seq<char>, Timestamp)>,
    cutoff: Timestamp,
    version: Seq<char>,
)
    requires
        names::in_order(times),
        resolution(times, cutoff, version) matches Ok(CheckView::Downgraded { .. }),
    ensures
        resolution(times, cutoff, version) matches Ok(
            CheckView::Downgraded {
                original_version,
                suggested_version,
                original_time,
                suggested_time,
            },
        ) && {
            &&& original_version == version
            &&& suggested_version != version
            &&& names::lookup(times, version) == Some(original_time)
            &&& names::lookup(times, suggested_version) == Some(suggested_time)
            &&& suggested_time.le(cutoff)
            &&& !original_time.le(cutoff)
            &&& resolution(times, cutoff, suggested_version) == Ok::<CheckView, ErrorView>(
                CheckView::Allowed,
            )
            &&& forall|other: Seq<char>|
                (#[trigger] names::lookup(times, other) matches Some(t) && t.le(cutoff))
                    ==> !version_less(suggested_version, other)
        },
{
    let list = eligible(times, cutoff);
    law_newest(list);
    let best = newest(list)->0;
    law_eligible(times, cutoff, best);
    assert forall|other: Seq<char>|
        (#[trigger] names::lookup(times, other) matches Some(t) && t.le(cutoff)) implies !version_less(
        best,
        other,
    ) by {
        law_eligible(times, cutoff, other);
        let k = choose|k: int| 0 <= k < list.len() && list[k] == other;
        assert(list[k] == other);
    }
}

/// A listed version is denied exactly if no version at all is old enough.
pub proof fn law_denied(
    times: Seq<(Seq<char>, Timestamp)>,
    cutoff: Timestamp,
    version: Seq<char>,
)
    requires
        names::in_order(times),
        names::lookup(times, version) is Some,
    ensures
        resolution(times, cutoff, version) matches Ok(CheckView::Denied { .. }) <==> (forall|
            other: Seq<char>,
        |
            #[trigger] names::lookup(times, other) matches Some(t) ==> !t.le(cutoff)),
{
    let list = eligible(times, cutoff);
    law_newest(list);
    if list.len() == 0 {
        assert forall|other: Seq<char>|
            #[trigger] names::lookup(times, other) matches Some(t) ==> !t.le(cutoff) by {
            law_eligible(times, cutoff, other);
        }
    } else {
        law_eligible(times, cutoff, list[0]);
        assert(list.contains(list[0]));
    }
}

/// A resolved version is the substitute for it: what is served is what is
/// allowed or put in its place, and nothing is served where it is denied.
pub proof fn law_resolution_substitute(
    times: Seq<(Seq<char>, Timestamp)>,
    cutoff: Timestamp,
    version: Seq<char>,
)
    ensures
        substitute(times, cutoff, version) == (match resolution(times, cutoff, version) {
            Err(e) => Err(e),
            Ok(CheckView::Allowed) => Ok(Some(version)),
            Ok(CheckView::Denied { .. }) => Ok(None),
            Ok(CheckView::Downgraded { suggested_version, .. }) => Ok(Some(suggested_version)),
        }),
{
}

proof fn lemma_member_times(members: Seq<(Seq<char>, JsonView)>, version: Seq<char>)
    ensures
        member_times(members) matches Ok(times) ==> {
            &&& names::in_order(times)
            &&& names::lookup(times, version) == (match names::lookup(members, version) {
                Some(value) if !is_bookkeeping(version) => named_time(value),
                _ => None,
            })
        },
    decreases members.len(),
{
    if members.len() > 0 {
        let front = members.drop_last();
        let (key, value) = members.last();
        lemma_member_times(front, version);
        if let Ok(times) = member_times(front) {
            if let Ok(Some(t)) = entry_time(key, value, named_time(value)) {
                names::lemma_put_order(times, key, t);
                names::lemma_put_lookup(times, key, t, version);
            }
        }
    }
}

/// The times that are read from a field are listed in the order of the versions,
/// each once and at least one; the time of a version is the one that the field
/// gives for it, and what the field says of the package as a whole is no version.
pub proof fn law_field_times(members: Seq<(Seq<char>, JsonView)>, version: Seq<char>)
    ensures
        field_times(JsonView::Object(members)) matches Ok(times) ==> {
            &&& names::in_order(times)
            &&& times.len() > 0
            &&& names::lookup(times, version) == (match names::lookup(members, version) {
                Some(value) if !is_bookkeeping(version) => named_time(value),
                _ => None,
            })
        },
{
    lemma_member_times(members, version);
}

/// A longer delay allows no version that a shorter one withholds.
pub proof fn law_longer_delay(
    now: Timestamp,
    days: int,
    more: int,
    cutoff: Timestamp,
    earlier: Timestamp,
    t: Timestamp,
)
    requires
        days <= more,
        cutoff.secs == now.secs - 86400 * days,
        cutoff.nanos == now.nanos,
        earlier.secs == now.secs - 86400 * more,
        earlier.nanos == now.nanos,
    ensures
        t.le(earlier) ==> t.le(cutoff),
{
}

/// A text that is joined of pieces holds no character that neither the pieces nor the
/// separator hold.
proof fn lemma_join_lacks(parts: Seq<Seq<char>>, sep: Seq<char>, c: char)
    requires
        forall|i: int| 0 <= i < parts.len() ==> !(#[trigger] parts[i]).contains(c),
        !sep.contains(c),
    ensures
        !text::join(parts, sep).contains(c),
    decreases parts.len(),
{
    let whole = text::join(parts, sep);
    if parts.len() > 1 {
        let front = parts.drop_last();
        assert forall|i: int| 0 <= i < front.len() implies !(#[trigger] front[i]).contains(c) by {
            assert(front[i] == parts[i]);
        }
        lemma_join_lacks(front, sep, c);
        let head = text::join(front, sep);
        let last = parts[parts.len() - 1];
        assert(!last.contains(c));
        assert forall|i: int| 0 <= i < whole.len() implies whole[i] != c by {
            if i < head.len() {
                assert(head.contains(head[i]));
                assert(whole[i] == head[i]);
            } else if i < head.len() + sep.len() {
                assert(sep.contains(sep[i - head.len()]));
                assert(whole[i] == sep[i - head.len()]);
            } else {
                assert(last.contains(last[i - head.len() - sep.len()]));
                assert(whole[i] == last[i - head.len() - sep.len()]);
            }
        }
    } else if parts.len() == 1 {
        assert(!parts[0].contains(c));
    }
}

/// Whether pieces are written with digits alone and stand for numbers that can be
/// held.
pub open spec fn are_numbers(parts: Seq<Seq<char>>) -> bool {
    &&& parts.len() > 0
    &&& forall|i: int|
        0 <= i < parts.len() ==> {
            &&& (#[trigger] parts[i]).len() > 0
            &&& forall|j: int| 0 <= j < parts[i].len() ==> '0' <= #[trigger] parts[i][j] <= '9'
            &&& text::value(parts[i]) <= u64::MAX
        }
}

/// A version of numbers with dots between them: with a `v` before them or without,
/// and with the name of a pre-release or of a build behind them or without.
pub open spec fn dotted_version(lead: bool, parts: Seq<Seq<char>>, tail: Seq<char>) -> Seq<char> {
    (if lead {
        seq!['v']
    } else {
        Seq::empty()
    }) + text::join(parts, seq!['.']) + tail
}

proof fn lemma_numbers_of(parts: Seq<Seq<char>>)
    requires
        are_numbers(parts) || parts.len() == 0,
    ensures
        numbers(parts).len() == parts.len(),
        forall|i: int|
            0 <= i < parts.len() ==> numbers(parts)[i] == text::value(#[trigger] parts[i]),
    decreases parts.len(),
{
    if parts.len() > 0 {
        let front = parts.drop_last();
        assert forall|i: int| 0 <= i < front.len() implies {
            &&& (#[trigger] front[i]).len() > 0
            &&& forall|j: int| 0 <= j < front[i].len() ==> '0' <= #[trigger] front[i][j] <= '9'
            &&& text::value(front[i]) <= u64::MAX
        } by {
            assert(front[i] == parts[i]);
        }
        lemma_numbers_of(front);
        let last = parts[parts.len() - 1];
        assert(last.len() > 0 && '0' <= last[0]);
        assert forall|j: int| 0 <= j < last.len() implies text::is_digit(#[trigger] last[j]) by {
            assert('0' <= last[j] <= '9');
        }
        lemma_value_positive(last);
        assert(text::as_u64(last) == Some(text::value(last) as u64));
        assert forall|i: int| 0 <= i < parts.len() implies numbers(parts)[i] == text::value(
            #[trigger] parts[i],
        ) by {
            if i < front.len() {
                assert(front[i] == parts[i]);
            }
        }
    }
}

proof fn lemma_value_positive(s: Seq<char>)
    requires
        forall|i: int| 0 <= i < s.len() ==> '0' <= #[trigger] s[i] <= '9',
    ensures
        text::value(s) >= 0,
    decreases s.len(),
{
    if s.len() > 0 {
        let front = s.drop_last();
        assert forall|i: int| 0 <= i < front.len() implies '0' <= #[trigger] front[i] <= '9' by {
            assert(front[i] == s[i]);
        }
        lemma_value_positive(front);
        assert('0' <= s[s.len() - 1]);
    }
}

/// The numbers of a version are those that it is written with, each in full and in
/// their order, whatever stands before and behind them.
pub proof fn law_version_numbers(lead: bool, parts: Seq<Seq<char>>, tail: Seq<char>)
    requires
        are_numbers(parts),
        tail.len() == 0 || tail[0] == '-' || tail[0] == '+',
    ensures
        version_numbers(dotted_version(lead, parts, tail)).len() == parts.len(),
        forall|i: int|
            0 <= i < parts.len() ==> version_numbers(dotted_version(lead, parts, tail))[i]
                == text::value(#[trigger] parts[i]),
{
    let plain = text::join(parts, seq!['.']);
    assert forall|i: int, c: char|
        0 <= i < parts.len() && (c == '-' || c == '+' || c == '.' || c
            == 'v') implies !#[trigger] parts[i].contains(c) by {
        assert forall|j: int| 0 <= j < parts[i].len() implies parts[i][j] != c by {
            assert('0' <= parts[i][j] <= '9');
        }
    }
    lemma_join_lacks(parts, seq!['.'], '-');
    lemma_join_lacks(parts, seq!['.'], '+');
    text::law_join_split(parts, '.');
    lemma_numbers_of(parts);
    assert(plain.len() > 0 && plain[0] != 'v') by {
        text::lemma_split_cut(plain, '.');
        let first = parts[0];
        assert('0' <= first[0] <= '9');
        if parts.len() > 1 {
            assert(plain[0] == first[0]);
        }
    }
    let head = (if lead {
        seq!['v']
    } else {
        Seq::empty()
    }) + plain;
    let version = head + tail;
    assert(dotted_version(lead, parts, tail) =~= version);
    assert forall|i: int| 0 <= i < head.len() implies head[i] != '+' by {
        let k = i - (head.len() - plain.len());
        if k >= 0 {
            assert(head[i] == plain[k]);
            assert(plain.contains(plain[k]));
        }
    }
    let at = text::first_index(tail, '+');
    text::lemma_index_bound(tail, '+');
    let kept = tail.take(at);
    let before = head + kept;
    assert forall|i: int| 0 <= i < before.len() implies before[i] != '+' by {
        if i >= head.len() {
            let k = i - head.len();
            text::lemma_index_bound(kept, '+');
            if tail[k] == '+' {
                lemma_first_index_least(tail, '+', k);
            }
            assert(before[i] == tail[k]);
        } else {
            assert(before[i] == head[i]);
        }
    }
    if at < tail.len() {
        text::law_cut(before, tail.skip(at + 1), '+');
        assert(version =~= before + seq!['+'] + tail.skip(at + 1));
    } else {
        text::law_cut(before, Seq::empty(), '+');
        assert(version =~= before);
    }
    assert(text::before_first(version, '+') == before);
    assert(before[0] == head[0]);
    let ranked = ranked_text(version);
    assert(ranked =~= plain + kept);
    if kept.len() > 0 {
        assert(kept[0] == tail[0]);
        if tail[0] == '+' {
            lemma_first_index_least(tail, '+', 0);
        }
        text::law_cut(plain, kept.skip(1), '-');
        assert(ranked =~= plain + seq!['-'] + kept.skip(1));
    } else {
        text::law_cut(plain, Seq::empty(), '-');
        assert(ranked =~= plain);
    }
}

proof fn lemma_first_index_least(s: Seq<char>, c: char, k: int)
    requires
        0 <= k < s.len(),
        s[k] == c,
    ensures
        text::first_index(s, c) <= k,
    decreases s.len(),
{
    if s[0] != c {
        lemma_first_index_least(s.skip(1), c, k - 1);
    }
}

proof fn lemma_numbers_differ(a: Seq<u64>, b: Seq<u64>, k: int)
    requires
        0 <= k <= a.len(),
        k < b.len(),
        forall|i: int| 0 <= i < k ==> a[i] == b[i],
        k < a.len() ==> a[k] < b[k],
    ensures
        numbers_less(a, b),
        !numbers_less(b, a),
        a != b,
    decreases k,
{
    if k > 0 {
        let x = a.skip(1);
        let y = b.skip(1);
        assert forall|i: int| 0 <= i < k - 1 implies x[i] == y[i] by {
            assert(x[i] == a[i + 1] && y[i] == b[i + 1]);
        }
        assert(a[0] == b[0]);
        lemma_numbers_differ(x, y, k - 1);
        if a == b {
            assert(x == y);
        }
    }
}

/// Versions are ordered by the first number in which they differ, by its size; where
/// all numbers of the one begin the other, the longer one is newer.
pub proof fn law_number_order(
    a_lead: bool,
    a: Seq<Seq<char>>,
    a_tail: Seq<char>,
    b_lead: bool,
    b: Seq<Seq<char>>,
    b_tail: Seq<char>,
    k: int,
)
    requires
        are_numbers(a),
        are_numbers(b),
        a_tail.len() == 0 || a_tail[0] == '-' || a_tail[0] == '+',
        b_tail.len() == 0 || b_tail[0] == '-' || b_tail[0] == '+',
        0 <= k <= a.len(),
        k < b.len(),
        forall|i: int| 0 <= i < k ==> text::value(#[trigger] a[i]) == text::value(b[i]),
        k < a.len() ==> text::value(a[k]) < text::value(b[k]),
    ensures
        version_less(dotted_version(a_lead, a, a_tail), dotted_version(b_lead, b, b_tail)),
        !version_less(dotted_version(b_lead, b, b_tail), dotted_version(a_lead, a, a_tail)),
{
    law_version_numbers(a_lead, a, a_tail);
    law_version_numbers(b_lead, b, b_tail);
    let x = version_numbers(dotted_version(a_lead, a, a_tail));
    let y = version_numbers(dotted_version(b_lead, b, b_tail));
    assert forall|i: int| 0 <= i < k implies x[i] == y[i] by {
        assert(x[i] == text::value(a[i]));
        assert(y[i] == text::value(b[i]));
    }
    assert(y[k] == text::value(b[k]));
    if k < a.len() {
        assert(x[k] == text::value(a[k]));
    }
    lemma_numbers_differ(x, y, k);
}

/// The decimal texts of some numbers.
pub open spec fn decimals(list: Seq<u64>) -> Seq<Seq<char>> {
    Seq::new(list.len(), |i: int| text::decimal(list[i] as int))
}

/// The numbers of a version that is written in decimals are those numbers.
pub proof fn law_decimal_version(list: Seq<u64>)
    requires
        list.len() > 0,
    ensures
        are_numbers(decimals(list)),
        version_numbers(text::join(decimals(list), seq!['.'])) == list,
{
    let parts = decimals(list);
    assert forall|i: int| 0 <= i < parts.len() implies {
        &&& (#[trigger] parts[i]).len() > 0
        &&& forall|j: int| 0 <= j < parts[i].len() ==> '0' <= #[trigger] parts[i][j] <= '9'
        &&& text::value(parts[i]) <= u64::MAX
    } by {
        text::law_numeral_round_trip(list[i]);
        assert forall|j: int| 0 <= j < parts[i].len() implies '0' <= #[trigger] parts[i][j]
            <= '9' by {
            assert(text::is_digit(parts[i][j]));
        }
    }
    law_version_numbers(false, parts, Seq::empty());
    assert(dotted_version(false, parts, Seq::empty()) =~= text::join(parts, seq!['.']));
    assert forall|i: int| 0 <= i < list.len() implies version_numbers(
        text::join(parts, seq!['.']),
    )[i] == list[i] by {
        text::law_numeral_round_trip(list[i]);
        assert(parts[i] == text::decimal(list[i] as int));
    }
    assert(version_numbers(text::join(parts, seq!['.'])) =~= list);
}

proof fn lemma_prerelease(base: Seq<char>, name: Seq<char>)
    requires
        !base.contains('-'),
        !base.contains('+'),
        !name.contains('+'),
    ensures
        version_numbers(base + seq!['-'] + name) == version_numbers(base),
        prerelease(base + seq!['-'] + name) == Some(identifiers(text::split(name, '.'))),
        prerelease(base) is None,
{
    let pre = base + seq!['-'] + name;
    assert forall|i: int| 0 <= i < pre.len() implies pre[i] != '+' by {
        if i < base.len() {
            assert(base.contains(base[i]));
            assert(pre[i] == base[i]);
        } else if i > base.len() {
            assert(name.contains(name[i - base.len() - 1]));
            assert(pre[i] == name[i - base.len() - 1]);
        }
    }
    text::law_cut(pre, Seq::empty(), '+');
    text::law_cut(base, Seq::empty(), '+');
    let plain = ranked_text(base);
    if base.len() > 0 {
        assert(pre[0] == base[0]);
    }
    assert(ranked_text(pre) =~= plain + seq!['-'] + name);
    assert forall|i: int| 0 <= i < plain.len() implies plain[i] != '-' by {
        let k = i + base.len() - plain.len();
        assert(plain[i] == base[k]);
        assert(base.contains(base[k]));
    }
    text::law_cut(plain, name, '-');
}

proof fn lemma_names_differ(a: Seq<Identifier>, b: Seq<Identifier>, k: int)
    requires
        0 <= k <= a.len(),
        k < b.len(),
        forall|i: int| 0 <= i < k ==> a[i] == b[i],
        k < a.len() ==> a[k] != b[k],
    ensures
        names_less(a, b) == (k == a.len() || identifier_less(a[k], b[k])),
        k == a.len() ==> !names_less(b, a),
    decreases k,
{
    if k > 0 {
        let x = a.skip(1);
        let y = b.skip(1);
        assert forall|i: int| 0 <= i < k - 1 implies x[i] == y[i] by {
            assert(x[i] == a[i + 1] && y[i] == b[i + 1]);
        }
        assert(a[0] == b[0]);
        lemma_names_differ(x, y, k - 1);
    }
}

/// Pre-releases of one version are ordered by the first piece of their names in which
/// they differ: numbers by their size, words as texts, and a number before a word;
/// where all pieces of the one begin the other, the longer one is newer.
pub proof fn law_prerelease_order(
    base: Seq<char>,
    a: Seq<Seq<char>>,
    b: Seq<Seq<char>>,
    k: int,
)
    requires
        !base.contains('-'),
        !base.contains('+'),
        a.len() > 0,
        forall|i: int|
            0 <= i < a.len() ==> !(#[trigger] a[i]).contains('.') && !a[i].contains('+'),
        forall|i: int|
            0 <= i < b.len() ==> !(#[trigger] b[i]).contains('.') && !b[i].contains('+'),
        0 <= k <= a.len(),
        k < b.len(),
        forall|i: int| 0 <= i < k ==> #[trigger] a[i] == b[i],
        k < a.len() ==> a[k] != b[k],
    ensures
        ({
            let x = base + seq!['-'] + text::join(a, seq!['.']);
            let y = base + seq!['-'] + text::join(b, seq!['.']);
            &&& k == a.len() ==> version_less(x, y) && !version_less(y, x)
            &&& k < a.len() ==> match (text::as_u64(a[k]), text::as_u64(b[k])) {
                (Some(m), Some(n)) => m != n ==> (version_less(x, y) <==> m < n),
                (Some(_), None) => version_less(x, y),
                (None, Some(_)) => !version_less(x, y),
                (None, None) => version_less(x, y) <==> text::less(a[k], b[k]),
            }
        }),
{
    let m = text::join(a, seq!['.']);
    let n = text::join(b, seq!['.']);
    lemma_join_lacks(a, seq!['.'], '+');
    lemma_join_lacks(b, seq!['.'], '+');
    text::law_join_split(a, '.');
    text::law_join_split(b, '.');
    lemma_prerelease(base, m);
    lemma_prerelease(base, n);
    let p = identifiers(a);
    let q = identifiers(b);
    assert forall|i: int| 0 <= i < k implies p[i] == q[i] by {
        assert(a[i] == b[i]);
    }
    let both = version_numbers(base);
    lemma_numbers_order(both, both, both);
    if k == a.len() {
        lemma_names_differ(p, q, k);
    } else {
        assert(p[k] == identifier(a[k]) && q[k] == identifier(b[k]));
        if p[k] != q[k] {
            lemma_names_differ(p, q, k);
        }
    }
}

/// A `v` before a version makes it neither older nor newer.
pub proof fn law_leading_v(version: Seq<char>)
    requires
        version.len() > 0,
        version[0] != 'v',
        version[0] != '+',
    ensures
        !version_less(seq!['v'] + version, version),
        !version_less(version, seq!['v'] + version),
{
    let led = seq!['v'] + version;
    assert(led.skip(1) =~= version);
    let i = text::first_index(version, '+');
    text::lemma_index_bound(version, '+');
    assert(text::first_index(led, '+') == 1 + i);
    assert(led.take(1 + i).skip(1) =~= version.take(i));
    assert(i > 0);
    assert(ranked_text(led) =~= ranked_text(version));
    law_version_order(led, version, led);
}

/// A version that is not listed cannot be checked, and a version that is too young is
/// reported with the time at which it was published.
pub proof fn law_unlisted(
    times: Seq<(Seq<char>, Timestamp)>,
    cutoff: Timestamp,
    version: Seq<char>,
)
    ensures
        names::lookup(times, version) is None ==> {
            &&& resolution(times, cutoff, version) == Err::<CheckView, ErrorView>(
                ErrorView::VersionNotFound(version),
            )
            &&& check(times, cutoff, version) == Err::<CheckView, ErrorView>(
                ErrorView::VersionNotFound(version),
            )
            &&& substitute(times, cutoff, version) == Err::<Option<Seq<char>>, ErrorView>(
                ErrorView::VersionNotFound(version),
            )
        },
        names::lookup(times, version) matches Some(t) ==> {
            &&& resolution(times, cutoff, version) is Ok
            &&& !t.le(cutoff) ==> check(times, cutoff, version) == Ok::<CheckView, ErrorView>(
                CheckView::Denied { publish_time: t },
            )
            &&& resolution(times, cutoff, version) matches Ok(CheckView::Denied { publish_time })
                ==> publish_time == t
        },
{
}

/// A version that stands in for one that is too young is the newest of those that are
/// old enough: a listed version with greater numbers is never passed over for it.
pub proof fn law_substitute_numbers(
    times: Seq<(Seq<char>, Timestamp)>,
    cutoff: Timestamp,
    version: Seq<char>,
    greater: Seq<Seq<char>>,
    chosen: Seq<Seq<char>>,
    k: int,
)
    requires
        names::in_order(times),
        names::lookup(times, version) matches Some(t) && !t.le(cutoff),
        are_numbers(greater),
        are_numbers(chosen),
        names::lookup(times, text::join(greater, seq!['.'])) matches Some(t) && t.le(cutoff),
        0 <= k < greater.len(),
        k <= chosen.len(),
        forall|i: int|
            0 <= i < k ==> text::value(#[trigger] chosen[i]) == text::value(greater[i]),
        k < chosen.len() ==> text::value(chosen[k]) < text::value(greater[k]),
    ensures
        resolution(times, cutoff, version) matches Ok(CheckView::Downgraded { suggested_version, .. })
            && suggested_version != text::join(chosen, seq!['.']),
{
    let best = text::join(greater, seq!['.']);
    let less = text::join(chosen, seq!['.']);
    let empty = Seq::<char>::empty();
    law_number_order(false, chosen, empty, false, greater, empty, k);
    assert(dotted_version(false, chosen, empty) =~= less);
    assert(dotted_version(false, greater, empty) =~= best);
    law_eligible(times, cutoff, best);
    law_newest(eligible(times, cutoff));
    law_denied(times, cutoff, version);
    law_downgraded(times, cutoff, version);
    assert(names::lookup(times, best) is Some);
}

/// A time field can be read exactly if it lists a version and everything in it but
/// the moments of creation and of the last change is a text that names a moment.
pub proof fn law_field_readable(members: Seq<(Seq<char>, JsonView)>)
    ensures
        field_times(JsonView::Object(members)) is Ok <==> {
            &&& forall|i: int|
                0 <= i < members.len() ==> (#[trigger] members[i]).0 == "created"@ || members[i].0
                    == "modified"@ || (members[i].1 matches JsonView::Str(s) && flexible_time(
                    s,
                ) is Some)
            &&& exists|i: int|
                0 <= i < members.len() && (#[trigger] members[i]).0 != "created"@ && members[i].0
                    != "modified"@
        },
{
    lemma_readable(members);
}

proof fn lemma_readable(members: Seq<(Seq<char>, JsonView)>)
    ensures
        member_times(members) is Ok <==> (forall|i: int|
            0 <= i < members.len() ==> (#[trigger] members[i]).0 == "created"@ || members[i].0
                == "modified"@ || (members[i].1 matches JsonView::Str(s) && flexible_time(
                s,
            ) is Some)),
        member_times(members) matches Ok(times) ==> (times.len() > 0 <==> exists|i: int|
            0 <= i < members.len() && (#[trigger] members[i]).0 != "created"@ && members[i].0
                != "modified"@),
    decreases members.len(),
{
    if members.len() > 0 {
        let front = members.drop_last();
        lemma_readable(front);
        let n = members.len() - 1;
        assert(members[n] == members.last());
        assert forall|i: int| 0 <= i < front.len() implies #[trigger] front[i] == members[i] by {}
        if member_times(members) is Ok {
            assert forall|i: int| 0 <= i < members.len() implies (#[trigger] members[i]).0
                == "created"@ || members[i].0 == "modified"@ || (members[i].1 matches JsonView::Str(
                s,
            ) && flexible_time(s) is Some) by {
                if i < n {
                    assert(front[i] == members[i]);
                }
            }
            let before = member_times(front)->Ok_0;
            let (key, value) = members.last();
            if key != "created"@ && key != "modified"@ {
                assert(members[n].0 != "created"@);
                let t = named_time(value)->0;
                lemma_put_more(before, key, t);
            } else if before.len() > 0 {
                let i = choose|i: int|
                    0 <= i < front.len() && (#[trigger] front[i]).0 != "created"@ && front[i].0
                        != "modified"@;
                assert(members[i].0 != "created"@);
            } else {
                assert forall|i: int| 0 <= i < members.len() implies (#[trigger] members[i]).0
                    == "created"@ || members[i].0 == "modified"@ by {
                    if i < n {
                        assert(front[i] == members[i]);
                    }
                }
            }
        } else if member_times(front) is Ok {
            assert(!(members[n].0 == "created"@));
        } else {
            let i = choose|i: int|
                0 <= i < front.len() && !((#[trigger] front[i]).0 == "created"@ || front[i].0
                    == "modified"@ || (front[i].1 matches JsonView::Str(s) && flexible_time(
                    s,
                ) is Some));
            assert(members[i] == front[i]);
        }
    }
}

proof fn lemma_put_more(times: Seq<(Seq<char>, Timestamp)>, key: Seq<char>, t: Timestamp)
    ensures
        names::put(times, key, t).len() > 0,
    decreases times.len(),
{
    if times.len() > 0 {
        lemma_put_more(times.drop_last(), key, t);
    }
}

/// The times of a time field are the moments that its texts name, for every version
/// but the words for the moments of creation and of the last change.
pub proof fn law_listed_times(members: Seq<(Seq<char>, JsonView)>, version: Seq<char>)
    requires
        field_times(JsonView::Object(members)) is Ok,
    ensures
        names::lookup(field_times(JsonView::Object(members))->Ok_0, version) == (if version
            == "created"@ || version == "modified"@ {
            None
        } else {
            match names::lookup(members, version) {
                Some(JsonView::Str(s)) => flexible_time(s),
                _ => None,
            }
        }),
{
    law_field_times(members, version);
}

/// A text with a date and an offset is read as it says; failing that, in UTC by the
/// first of three forms that fits.
pub proof fn law_flexible_time(s: Seq<char>)
    ensures
        timestamp::rfc3339_time(s) matches Some((secs, nanos)) ==> flexible_time(s) == Some(
            Timestamp { secs, nanos },
        ),
        timestamp::rfc3339_time(s) is None ==> {
            &&& timestamp::formatted_time(s, "%Y-%m-%dT%H:%M:%S"@) matches Some((secs, nanos))
                ==> flexible_time(s) == Some(Timestamp { secs, nanos })
            &&& timestamp::formatted_time(s, "%Y-%m-%dT%H:%M:%S"@) is None ==> {
                &&& timestamp::formatted_time(s, "%Y-%m-%dT%H:%M:%S%.f"@) matches Some(
                    (secs, nanos),
                ) ==> flexible_time(s) == Some(Timestamp { secs, nanos })
                &&& timestamp::formatted_time(s, "%Y-%m-%dT%H:%M:%S%.f"@) is None ==> {
                    &&& timestamp::formatted_time(s, "%Y-%m-%d %H:%M:%S"@) matches Some(
                        (secs, nanos),
                    ) ==> flexible_time(s) == Some(Timestamp { secs, nanos })
                    &&& timestamp::formatted_time(s, "%Y-%m-%d %H:%M:%S"@) is None
                        ==> flexible_time(s) is None
                }
            }
        },
{
}

/// The eligible versions of two lists of times, one behind the other, are those of the
/// one and behind them those of the other.
pub proof fn law_eligible_order(
    a: Seq<(Seq<char>, Timestamp)>,
    b: Seq<(Seq<char>, Timestamp)>,
    cutoff: Timestamp,
)
    ensures
        eligible(a + b, cutoff) == eligible(a, cutoff) + eligible(b, cutoff),
        a.len() == 1 ==> eligible(a, cutoff) == (if a[0].1.le(cutoff) {
            seq![a[0].0]
        } else {
            Seq::empty()
        }),
    decreases b.len(),
{
    if a.len() == 1 {
        assert(eligible(a.drop_last(), cutoff) =~= Seq::empty());
        assert(eligible(a, cutoff) =~= (if a[0].1.le(cutoff) {
            seq![a[0].0]
        } else {
            Seq::empty()
        }));
    }
    if b.len() == 0 {
        assert(a + b =~= a);
        assert(eligible(a, cutoff) + eligible(b, cutoff) =~= eligible(a, cutoff));
    } else {
        law_eligible_order(a, b.drop_last(), cutoff);
        assert((a + b).drop_last() =~= a + b.drop_last());
        assert((a + b).last() == b.last());
        assert(eligible(a + b, cutoff) =~= eligible(a, cutoff) + eligible(b, cutoff));
    }
}

/// The numbers of a version are those of its pieces, in order, whatever their number; a
/// piece that is no number is passed over.
pub proof fn law_numbers_order(a: Seq<Seq<char>>, b: Seq<Seq<char>>)
    ensures
        numbers(a + b) == numbers(a) + numbers(b),
        a.len() == 1 ==> numbers(a) == (match text::as_u64(a[0]) {
            Some(n) => seq![n],
            None => Seq::empty(),
        }),
    decreases b.len(),
{
    if a.len() == 1 {
        assert(numbers(a.drop_last()) =~= Seq::empty());
        assert(numbers(a) =~= (match text::as_u64(a[0]) {
            Some(n) => seq![n],
            None => Seq::empty(),
        }));
    }
    if b.len() == 0 {
        assert(a + b =~= a);
        assert(numbers(a) + numbers(b) =~= numbers(a));
    } else {
        law_numbers_order(a, b.drop_last());
        assert((a + b).drop_last() =~= a + b.drop_last());
        assert((a + b).last() == b.last());
        assert(numbers(a + b) =~= numbers(a) + numbers(b));
    }
}

/// The pieces of a version are what stands between its full stops, before the name of a
/// pre-release or a build.
pub proof fn law_version_pieces(parts: Seq<Seq<char>>, tail: Seq<char>)
    requires
        parts.len() > 0,
        forall|i: int| 0 <= i < parts.len() ==> !(#[trigger] parts[i]).contains('.'),
        !text::join(parts, seq!['.']).contains('-'),
        !text::join(parts, seq!['.']).contains('+'),
        parts[0].len() > 0,
        parts[0][0] != 'v',
        !tail.contains('+'),
    ensures
        version_numbers(text::join(parts, seq!['.'])) == numbers(parts),
        version_numbers(text::join(parts, seq!['.']) + seq!['-'] + tail) == numbers(parts),
{
    let base = text::join(parts, seq!['.']);
    text::law_join_split(parts, '.');
    text::law_cut(base, tail, '-');
    text::law_cut(base, tail, '+');
    lemma_first_sign(parts);
    let named = base + seq!['-'] + tail;
    assert forall|i: int| 0 <= i < named.len() implies named[i] != '+' by {
        if i < base.len() {
            assert(base.contains(base[i]));
        } else if i > base.len() {
            assert(tail.contains(tail[i - base.len() - 1]));
        }
    }
    text::law_cut(named, tail, '+');
    assert(named[0] == base[0]);
    assert(ranked_text(base) == base);
    assert(ranked_text(named) == named);
}

proof fn lemma_first_sign(parts: Seq<Seq<char>>)
    requires
        parts.len() > 0,
        parts[0].len() > 0,
    ensures
        ({
            let base = text::join(parts, seq!['.']);
            base.len() > 0 && base[0] == parts[0][0]
        }),
{
    if parts.len() > 1 {
        let rest = parts.skip(1);
        assert(seq![parts[0]] + rest =~= parts);
        text::lemma_join_add(seq![parts[0]], rest, seq!['.']);
        assert(text::join(seq![parts[0]], seq!['.']) == parts[0]);
    }
}

/// A version is allowed, or denied with its own time, or not found, by its own time and
/// nothing else.
pub proof fn law_check(times: Seq<(Seq<char>, Timestamp)>, cutoff: Timestamp, version: Seq<char>)
    ensures
        names::lookup(times, version) is None ==> check(times, cutoff, version) == Err::<
            CheckView,
            ErrorView,
        >(ErrorView::VersionNotFound(version)),
        names::lookup(times, version) matches Some(t) ==> check(times, cutoff, version) == (
        if t.secs < cutoff.secs || (t.secs == cutoff.secs && t.nanos <= cutoff.nanos) {
            Ok::<CheckView, ErrorView>(CheckView::Allowed)
        } else {
            Ok::<CheckView, ErrorView>(CheckView::Denied { publish_time: t })
        }),
{
}

/// A time that is listed is found under its version, and the last one of a version
/// counts.
pub proof fn law_listed(
    entries: Seq<(Seq<char>, Timestamp)>,
    version: Seq<char>,
    t: Timestamp,
    other: Seq<char>,
)
    ensures
        names::in_order(listed(entries)),
        names::lookup(listed(entries.push((version, t))), version) == Some(t),
        other != version ==> names::lookup(listed(entries.push((version, t))), other)
            == names::lookup(listed(entries), other),
        entries.len() == 0 ==> names::lookup(listed(entries), other) is None,
    decreases entries.len(),
{
    if entries.len() > 0 {
        law_listed(
            entries.drop_last(),
            entries.last().0,
            entries.last().1,
            entries.last().0,
        );
        names::lemma_put_order(
            listed(entries.drop_last()),
            entries.last().0,
            entries.last().1,
        );
    }
    assert(entries.push((version, t)).drop_last() =~= entries);
    names::lemma_put_lookup(listed(entries), version, t, version);
    names::lemma_put_lookup(listed(entries), version, t, other);
}

/// The messages name what they are about.
pub proof fn law_messages(s: Seq<char>)
    ensures
        ErrorView::InvalidTimeFormat(s).message() == "Invalid time field format: "@ + s,
        ErrorView::VersionNotFound(s).message() == "Version '"@ + s + "' not found in metadata"@,
        ErrorView::InvalidDelayDays(s).message() == "Invalid DELAY_DAYS value: "@ + s,
{
}

/// A text that names a moment is that moment, and else the error names the text.
pub proof fn law_time_or_error(s: Seq<char>, t: Timestamp)
    ensures
        time_or_error(s, Some(t)) == Ok::<Timestamp, ErrorView>(t),
        time_or_error(s, None) == Err::<Timestamp, ErrorView>(
            ErrorView::InvalidTimeFormat("unable to parse datetime: "@ + s),
        ),
{
}

/// A time field that is no object, or that lists no version, is an error of its kind; in
/// an object the first member that is no text, or no moment, is named.
pub proof fn law_field_errors(
    members: Seq<(Seq<char>, JsonView)>,
    key: Seq<char>,
    value: JsonView,
    other: JsonView,
)
    ensures
        !(other is Object) ==> field_times(other) == Err::<Seq<(Seq<char>, Timestamp)>, ErrorView>(
            ErrorView::InvalidTimeFormat("time field is not a JSON object"@),
        ),
        member_times(members) matches Ok(times) && times.len() == 0 ==> field_times(
            JsonView::Object(members),
        ) == Err::<Seq<(Seq<char>, Timestamp)>, ErrorView>(ErrorView::MissingTimeField),
        member_times(members) matches Err(e) ==> field_times(JsonView::Object(members)) == Err::<
            Seq<(Seq<char>, Timestamp)>,
            ErrorView,
        >(e),
        member_times(members) matches Err(e) ==> member_times(members.push((key, value))) == Err::<
            Seq<(Seq<char>, Timestamp)>,
            ErrorView,
        >(e),
        member_times(members) is Ok && key != "created"@ && key != "modified"@ ==> match value {
            JsonView::Str(s) => flexible_time(s) is None ==> member_times(
                members.push((key, value)),
            ) == Err::<Seq<(Seq<char>, Timestamp)>, ErrorView>(
                ErrorView::InvalidTimeFormat(
                    "invalid ISO 8601 timestamp for version '"@ + key + "': "@ + s,
                ),
            ),
            _ => member_times(members.push((key, value))) == Err::<
                Seq<(Seq<char>, Timestamp)>,
                ErrorView,
            >(
                ErrorView::InvalidTimeFormat(
                    "value for version '"@ + key + "' is not a string"@,
                ),
            ),
        },
        member_times(Seq::empty()) == Ok::<Seq<(Seq<char>, Timestamp)>, ErrorView>(Seq::empty()),
{
    assert(members.push((key, value)).drop_last() =~= members);
}

} // verus!
