//! Operations on text, stated over the sequence of characters that a string
//! holds.

use vstd::prelude::*;
use vstd::string::{StrSliceExecFns, StringExecFns};

verus! {

/// `String::push` appends one character to the end of the string.
pub assume_specification[ String::push ](s: &mut String, c: char)
    ensures
        final(s)@ == old(s)@.push(c),
;

/// The characters of each string of a list.
pub open spec fn views(list: Seq<String>) -> Seq<Seq<char>> {
    Seq::new(list.len(), |i: int| list[i]@)
}

/// The text of an optional string.
pub open spec fn opt_view(s: Option<String>) -> Option<Seq<char>> {
    match s {
        Some(t) => Some(t@),
        None => None,
    }
}

/// The text of an optional string slice.
pub open spec fn slice_view(s: Option<&str>) -> Option<Seq<char>> {
    match s {
        Some(t) => Some(t@),
        None => None,
    }
}

/// Whether `a` and `b` hold the same text.
pub fn same(a: &str, b: &str) -> (r: bool)
    ensures
        r == (a@ == b@),
{
    a.to_owned() == b.to_owned()
}

/// The characters of `s`, one by one.
pub fn chars_of(s: &str) -> (v: Vec<char>)
    ensures
        v@ == s@,
{
    let mut v: Vec<char> = Vec::new();
    for c in it: s.chars()
        invariant
            it.seq() == s@,
            v@ == s@.take(it.index() as int),
    {
        proof {
            assert(s@.take(it.index() + 1) =~= s@.take(it.index() as int).push(c));
        }
        v.push(c);
    }
    proof {
        assert(s@.take(s@.len() as int) =~= s@);
    }
    v
}

/// The text that the characters from `from` up to `to` spell.
pub fn text_of(v: &Vec<char>, from: usize, to: usize) -> (s: String)
    requires
        from <= to <= v@.len(),
    ensures
        s@ == v@.subrange(from as int, to as int),
{
    let mut s = String::new();
    let mut i: usize = from;
    while i < to
        invariant
            from <= i <= to <= v@.len(),
            s@ == v@.subrange(from as int, i as int),
        decreases to - i,
    {
        proof {
            assert(v@.subrange(from as int, i + 1) =~= v@.subrange(from as int, i as int).push(
                v@[i as int],
            ));
        }
        s.push(v[i]);
        i += 1;
    }
    s
}

/// The pieces of `s` between the occurrences of `sep`: at least one, and one
/// more than there are separators.
pub open spec fn split(s: Seq<char>, sep: char) -> Seq<Seq<char>>
    decreases s.len(),
{
    if s.len() == 0 {
        seq![Seq::<char>::empty()]
    } else {
        let front = split(s.drop_last(), sep);
        if s.last() == sep {
            front.push(Seq::<char>::empty())
        } else {
            front.update(front.len() - 1, front.last().push(s.last()))
        }
    }
}

pub proof fn lemma_split_nonempty(s: Seq<char>, sep: char)
    ensures
        split(s, sep).len() >= 1,
    decreases s.len(),
{
    if s.len() > 0 {
        lemma_split_nonempty(s.drop_last(), sep);
    }
}

/// Splits `s` at each `sep`.
pub fn split_text(s: &str, sep: char) -> (parts: Vec<String>)
    ensures
        views(parts@) == split(s@, sep),
{
    let mut parts: Vec<String> = Vec::new();
    let mut current = String::new();
    proof {
        assert(s@.take(0) =~= Seq::<char>::empty());
        assert(views(parts@).push(current@) =~= split(s@.take(0), sep));
    }
    for c in it: s.chars()
        invariant
            it.seq() == s@,
            views(parts@).push(current@) == split(s@.take(it.index() as int), sep),
    {
        let ghost before = views(parts@).push(current@);
        let ghost longer = s@.take(it.index() + 1);
        proof {
            assert(longer.drop_last() =~= s@.take(it.index() as int));
            assert(longer.last() == c);
        }
        if c == sep {
            parts.push(current);
            current = String::new();
            proof {
                assert(views(parts@) =~= before);
                assert(views(parts@).push(current@) =~= split(longer, sep));
            }
        } else {
            current.push(c);
            proof {
                assert(views(parts@).push(current@) =~= before.update(
                    before.len() - 1,
                    before.last().push(c),
                ));
            }
        }
    }
    let ghost before = views(parts@).push(current@);
    parts.push(current);
    proof {
        assert(views(parts@) =~= before);
        assert(s@.take(s@.len() as int) =~= s@);
    }
    parts
}


/// The pieces that are not empty, in order.
pub open spec fn nonempty(parts: Seq<Seq<char>>) -> Seq<Seq<char>>
    decreases parts.len(),
{
    if parts.len() == 0 {
        parts
    } else if parts.last().len() > 0 {
        nonempty(parts.drop_last()).push(parts.last())
    } else {
        nonempty(parts.drop_last())
    }
}

/// The segments of a path: what stands between its slashes, without the empty
/// pieces.
pub open spec fn segments(path: Seq<char>) -> Seq<Seq<char>> {
    nonempty(split(path, '/'))
}

/// Splits a path at its slashes and leaves the empty pieces out.
pub fn path_segments(path: &str) -> (parts: Vec<String>)
    ensures
        views(parts@) == segments(path@),
{
    let all = split_text(path, '/');
    let mut parts: Vec<String> = Vec::new();
    let mut i: usize = 0;
    proof {
        assert(views(parts@) =~= nonempty(views(all@).take(0)));
    }
    while i < all.len()
        invariant
            i <= all@.len(),
            views(parts@) == nonempty(views(all@).take(i as int)),
        decreases all@.len() - i,
    {
        let ghost longer = views(all@).take(i + 1);
        proof {
            assert(longer.drop_last() =~= views(all@).take(i as int));
            assert(longer.last() == all@[i as int]@);
        }
        if !all[i].as_str().is_empty() {
            let ghost before = views(parts@);
            parts.push(all[i].clone());
            proof {
                assert(views(parts@) =~= before.push(all@[i as int]@));
            }
        }
        i += 1;
    }
    proof {
        assert(views(all@).take(all@.len() as int) =~= views(all@));
    }
    parts
}

/// The pieces one after the other, with `sep` between each two.
pub open spec fn join(parts: Seq<Seq<char>>, sep: Seq<char>) -> Seq<char>
    decreases parts.len(),
{
    if parts.len() == 0 {
        Seq::<char>::empty()
    } else if parts.len() == 1 {
        parts[0]
    } else {
        join(parts.drop_last(), sep) + sep + parts.last()
    }
}

/// Joins the texts from index `from` up to `to` with `sep`.
pub fn join_range(parts: &Vec<String>, from: usize, to: usize, sep: &str) -> (s: String)
    requires
        from <= to <= parts@.len(),
    ensures
        s@ == join(views(parts@).subrange(from as int, to as int), sep@),
{
    let mut s = String::new();
    let mut i: usize = from;
    while i < to
        invariant
            from <= i <= to <= parts@.len(),
            s@ == join(views(parts@).subrange(from as int, i as int), sep@),
        decreases to - i,
    {
        let ghost shorter = views(parts@).subrange(from as int, i as int);
        let ghost longer = views(parts@).subrange(from as int, i + 1);
        proof {
            assert(longer.drop_last() =~= shorter);
            assert(longer.last() == parts@[i as int]@);
        }
        if i > from {
            s.append(sep);
            s.append(parts[i].as_str());
        } else {
            s = parts[i].clone();
        }
        i += 1;
    }
    s
}

/// Joins all the texts with `sep`.
pub fn join_all(parts: &Vec<String>, sep: &str) -> (s: String)
    ensures
        s@ == join(views(parts@), sep@),
{
    let s = join_range(parts, 0, parts.len(), sep);
    proof {
        assert(views(parts@).subrange(0, parts@.len() as int) =~= views(parts@));
    }
    s
}

/// `s` without the `c`s that it ends with.
pub open spec fn trim_end(s: Seq<char>, c: char) -> Seq<char>
    decreases s.len(),
{
    if s.len() > 0 && s.last() == c {
        trim_end(s.drop_last(), c)
    } else {
        s
    }
}

/// `s` without the `c`s that it starts with.
pub open spec fn trim_start(s: Seq<char>, c: char) -> Seq<char>
    decreases s.len(),
{
    if s.len() > 0 && s[0] == c {
        trim_start(s.skip(1), c)
    } else {
        s
    }
}

/// `s` without the repetitions of `suffix` that it ends with.
pub open spec fn trim_end_text(s: Seq<char>, suffix: Seq<char>) -> Seq<char>
    decreases s.len(),
{
    if suffix.len() > 0 && suffix.is_suffix_of(s) {
        trim_end_text(s.take(s.len() - suffix.len()), suffix)
    } else {
        s
    }
}

/// Leaves out every `c` at the end of `s`.
pub fn trim_end_char<'a>(s: &'a str, c: char) -> (r: &'a str)
    ensures
        r@ == trim_end(s@, c),
{
    let chars = chars_of(s);
    let mut end: usize = chars.len();
    proof {
        assert(s@.take(s@.len() as int) =~= s@);
    }
    while end > 0 && chars[end - 1] == c
        invariant
            chars@ == s@,
            end <= s@.len(),
            trim_end(s@, c) == trim_end(s@.take(end as int), c),
        decreases end,
    {
        proof {
            assert(s@.take(end as int).drop_last() =~= s@.take(end - 1));
        }
        end -= 1;
    }
    proof {
        assert(s@.subrange(0, end as int) =~= s@.take(end as int));
    }
    s.substring_char(0, end)
}

/// Leaves out every `c` at the start of `s`.
pub fn trim_start_char<'a>(s: &'a str, c: char) -> (r: &'a str)
    ensures
        r@ == trim_start(s@, c),
{
    let chars = chars_of(s);
    let mut start: usize = 0;
    proof {
        assert(s@.skip(0) =~= s@);
    }
    while start < chars.len() && chars[start] == c
        invariant
            chars@ == s@,
            start <= s@.len(),
            trim_start(s@, c) == trim_start(s@.skip(start as int), c),
        decreases s@.len() - start,
    {
        proof {
            assert(s@.skip(start as int).skip(1) =~= s@.skip(start + 1));
        }
        start += 1;
    }
    proof {
        assert(s@.subrange(start as int, s@.len() as int) =~= s@.skip(start as int));
    }
    s.substring_char(start, chars.len())
}

/// Whether the characters of `chars` from index `at` on begin with `t`.
pub fn occurs_at(chars: &Vec<char>, t: &Vec<char>, at: usize) -> (r: bool)
    requires
        at <= chars@.len(),
    ensures
        r == t@.is_prefix_of(chars@.skip(at as int)),
{
    let n: usize = chars.len();
    if t.len() > n - at {
        return false;
    }
    let mut i: usize = 0;
    while i < t.len()
        invariant
            n == chars@.len(),
            at <= chars@.len(),
            t@.len() <= chars@.len() - at,
            i <= t@.len(),
            t@.take(i as int) == chars@.skip(at as int).take(i as int),
        decreases t@.len() - i,
    {
        if chars[at + i] != t[i] {
            proof {
                let rest = chars@.skip(at as int);
                assert(rest[i as int] != t@[i as int]);
                if t@ =~= rest.subrange(0, t@.len() as int) {
                    assert(rest.subrange(0, t@.len() as int)[i as int] == rest[i as int]);
                }
            }
            return false;
        }
        proof {
            let rest = chars@.skip(at as int);
            assert(t@.take(i + 1) =~= t@.take(i as int).push(t@[i as int]));
            assert(rest.take(i + 1) =~= rest.take(i as int).push(rest[i as int]));
        }
        i += 1;
    }
    proof {
        let rest = chars@.skip(at as int);
        assert(t@.take(t@.len() as int) =~= t@);
        assert(rest.take(t@.len() as int) =~= rest.subrange(0, t@.len() as int));
    }
    true
}

/// Whether `s` begins with `t`.
pub fn starts_with(s: &str, t: &str) -> (r: bool)
    ensures
        r == t@.is_prefix_of(s@),
{
    proof {
        assert(s@.skip(0) =~= s@);
    }
    occurs_at(&chars_of(s), &chars_of(t), 0)
}

/// Whether `s` ends with `t`.
pub fn ends_with(s: &str, t: &str) -> (r: bool)
    ensures
        r == t@.is_suffix_of(s@),
{
    let a = chars_of(s);
    let b = chars_of(t);
    if b.len() > a.len() {
        return false;
    }
    let at: usize = a.len() - b.len();
    proof {
        assert(s@.skip(at as int).subrange(0, t@.len() as int) =~= s@.subrange(
            at as int,
            s@.len() as int,
        ));
    }
    occurs_at(&a, &b, at)
}

/// Leaves out every repetition of `suffix` at the end of `s`.
pub fn trim_end_str<'a>(s: &'a str, suffix: &str) -> (r: &'a str)
    requires
        suffix@.len() > 0,
    ensures
        r@ == trim_end_text(s@, suffix@),
{
    let mut rest = s;
    while ends_with(rest, suffix)
        invariant
            suffix@.len() > 0,
            trim_end_text(s@, suffix@) == trim_end_text(rest@, suffix@),
        decreases rest@.len(),
    {
        let end: usize = rest.unicode_len() - suffix.unicode_len();
        proof {
            assert(rest@.subrange(0, end as int) =~= rest@.take(end as int));
        }
        rest = rest.substring_char(0, end);
    }
    rest
}


/// Whether `t` occurs in `s`.
pub open spec fn has_text(s: Seq<char>, t: Seq<char>) -> bool {
    exists|i: int| 0 <= i <= s.len() && t.is_prefix_of(#[trigger] s.skip(i))
}

/// Whether `s` contains `t`.
pub fn contains(s: &str, t: &str) -> (r: bool)
    ensures
        r == has_text(s@, t@),
{
    let a = chars_of(s);
    let b = chars_of(t);
    let mut i: usize = 0;
    while i <= a.len()
        invariant
            a@ == s@,
            b@ == t@,
            i <= a@.len() + 1,
            forall|j: int| 0 <= j < i ==> !t@.is_prefix_of(#[trigger] s@.skip(j)),
        decreases a@.len() + 1 - i,
    {
        if occurs_at(&a, &b, i) {
            return true;
        }
        if i == a.len() {
            return false;
        }
        i += 1;
    }
    false
}

/// `s` with each occurrence of `from`, taken from the left and without
/// overlap, replaced by `to`.
pub open spec fn replace(s: Seq<char>, from: Seq<char>, to: Seq<char>) -> Seq<char>
    decreases s.len(),
{
    if from.len() == 0 || s.len() < from.len() {
        s
    } else if from.is_prefix_of(s) {
        to + replace(s.skip(from.len() as int), from, to)
    } else {
        seq![s[0]] + replace(s.skip(1), from, to)
    }
}

/// Replaces the occurrences of a nonempty `from` in `s` by `to`.
pub fn replace_text(s: &str, from: &str, to: &str) -> (r: String)
    requires
        from@.len() > 0,
    ensures
        r@ == replace(s@, from@, to@),
{
    let a = chars_of(s);
    let b = chars_of(from);
    let mut r = String::new();
    let mut i: usize = 0;
    proof {
        assert(s@.skip(0) =~= s@);
        assert(r@ + replace(s@.skip(0), from@, to@) =~= replace(s@, from@, to@));
    }
    while b.len() <= a.len() - i
        invariant
            a@ == s@,
            b@ == from@,
            from@.len() > 0,
            i <= a@.len(),
            r@ + replace(s@.skip(i as int), from@, to@) == replace(s@, from@, to@),
        decreases a@.len() - i,
    {
        let ghost rest = s@.skip(i as int);
        let ghost before = r@;
        if occurs_at(&a, &b, i) {
            r.append(to);
            proof {
                assert(rest.skip(from@.len() as int) =~= s@.skip(i + from@.len()));
                assert(before + (to@ + replace(s@.skip(i + from@.len()), from@, to@)) =~= before
                    + to@ + replace(s@.skip(i + from@.len()), from@, to@));
            }
            i += b.len();
        } else {
            r.push(a[i]);
            proof {
                assert(rest.skip(1) =~= s@.skip(i + 1));
                assert(before + (seq![rest[0]] + replace(s@.skip(i + 1), from@, to@))
                    =~= before.push(rest[0]) + replace(s@.skip(i + 1), from@, to@));
            }
            i += 1;
        }
    }
    let ghost before = r@;
    let tail = text_of(&a, i, a.len());
    r.append(tail.as_str());
    proof {
        assert(s@.subrange(i as int, s@.len() as int) =~= s@.skip(i as int));
    }
    r
}

/// A line without the carriage return that it may end with.
pub open spec fn without_return(line: Seq<char>) -> Seq<char> {
    if line.len() > 0 && line.last() == '\r' {
        line.drop_last()
    } else {
        line
    }
}

/// The lines of a text. A line ends at a line feed, with or without a carriage
/// return before it; a last line may do without.
pub open spec fn lines(s: Seq<char>) -> Seq<Seq<char>> {
    let pieces = split(s, '\n');
    let ended = pieces.drop_last().map_values(|p: Seq<char>| without_return(p));
    if pieces.last().len() == 0 {
        ended
    } else {
        ended.push(pieces.last())
    }
}

/// Splits a text into its lines.
pub fn lines_of(s: &str) -> (r: Vec<String>)
    ensures
        views(r@) == lines(s@),
{
    let mut pieces = split_text(s, '\n');
    proof {
        lemma_split_nonempty(s@, '\n');
        assert(views(pieces@).len() == pieces@.len());
    }
    let ghost all = views(pieces@);
    let last = match pieces.pop() {
        Some(l) => l,
        None => String::new(),
    };
    proof {
        assert(views(pieces@) =~= all.drop_last());
        assert(last@ == all.last());
    }
    let ghost ended = all.drop_last().map_values(|p: Seq<char>| without_return(p));
    let mut r: Vec<String> = Vec::new();
    let mut i: usize = 0;
    while i < pieces.len()
        invariant
            i <= pieces@.len(),
            views(pieces@) == all.drop_last(),
            ended == all.drop_last().map_values(|p: Seq<char>| without_return(p)),
            views(r@) == ended.take(i as int),
        decreases pieces@.len() - i,
    {
        let piece = pieces[i].as_str();
        let n: usize = piece.unicode_len();
        let ghost before = views(r@);
        proof {
            assert(piece@ == views(pieces@)[i as int]);
            assert(ended[i as int] == without_return(piece@));
            assert(ended.take(i + 1) =~= before.push(ended[i as int]));
        }
        if n > 0 && piece.get_char(n - 1) == '\r' {
            r.push(piece.substring_char(0, n - 1).to_owned());
        } else {
            r.push(pieces[i].clone());
        }
        proof {
            assert(piece@.subrange(0, piece@.len() - 1) =~= piece@.drop_last());
            assert(views(r@) =~= before.push(without_return(piece@)));
        }
        i += 1;
    }
    proof {
        assert(ended.take(ended.len() as int) =~= ended);
    }
    if !last.as_str().is_empty() {
        let ghost before = views(r@);
        r.push(last);
        proof {
            assert(views(r@) =~= before.push(all.last()));
        }
    }
    r
}

/// Where `c` first occurs in `s`; the length of `s` where it does not.
pub open spec fn first_index(s: Seq<char>, c: char) -> int
    decreases s.len(),
{
    if s.len() == 0 || s[0] == c {
        0
    } else {
        1 + first_index(s.skip(1), c)
    }
}

/// The index of the first `c` in `s`, or the number of characters of `s`.
pub fn find_char(s: &str, c: char) -> (r: usize)
    ensures
        r == first_index(s@, c),
        r <= s@.len(),
        r < s@.len() ==> s@[r as int] == c,
        forall|j: int| 0 <= j < r ==> s@[j] != c,
{
    let chars = chars_of(s);
    let mut i: usize = 0;
    proof {
        assert(s@.skip(0) =~= s@);
    }
    while i < chars.len() && chars[i] != c
        invariant
            chars@ == s@,
            i <= s@.len(),
            first_index(s@, c) == i + first_index(s@.skip(i as int), c),
            forall|j: int| 0 <= j < i ==> s@[j] != c,
        decreases s@.len() - i,
    {
        proof {
            assert(s@.skip(i as int).skip(1) =~= s@.skip(i + 1));
        }
        i += 1;
    }
    i
}

/// What stands before and after the first `c` of `s`.
pub open spec fn cut(s: Seq<char>, c: char) -> Option<(Seq<char>, Seq<char>)> {
    let i = first_index(s, c);
    if i < s.len() {
        Some((s.take(i), s.skip(i + 1)))
    } else {
        None
    }
}

/// Cuts `s` in two at its first `c`.
pub fn split_once<'a>(s: &'a str, c: char) -> (r: Option<(&'a str, &'a str)>)
    ensures
        match r {
            Some((a, b)) => cut(s@, c) == Some((a@, b@)),
            None => cut(s@, c) is None,
        },
{
    let i = find_char(s, c);
    let n: usize = s.unicode_len();
    if i < n {
        proof {
            assert(s@.subrange(0, i as int) =~= s@.take(i as int));
            assert(s@.subrange(i + 1, n as int) =~= s@.skip(i + 1));
        }
        Some((s.substring_char(0, i), s.substring_char(i + 1, n)))
    } else {
        None
    }
}


/// The order of texts: by the first character in which they differ, a text
/// before the longer ones that begin with it.
pub open spec fn less(a: Seq<char>, b: Seq<char>) -> bool
    decreases a.len(),
{
    if b.len() == 0 {
        false
    } else if a.len() == 0 {
        true
    } else if a[0] != b[0] {
        a[0] < b[0]
    } else {
        less(a.skip(1), b.skip(1))
    }
}

/// No text comes before itself.
pub proof fn lemma_less_irreflexive(a: Seq<char>)
    ensures
        !less(a, a),
    decreases a.len(),
{
    if a.len() > 0 {
        lemma_less_irreflexive(a.skip(1));
    }
}

/// The order of texts is transitive.
pub proof fn lemma_less_transitive(a: Seq<char>, b: Seq<char>, c: Seq<char>)
    requires
        less(a, b),
        less(b, c),
    ensures
        less(a, c),
    decreases a.len(),
{
    if a.len() > 0 && b.len() > 0 && c.len() > 0 && a[0] == b[0] && b[0] == c[0] {
        lemma_less_transitive(a.skip(1), b.skip(1), c.skip(1));
    }
}

/// Of two different texts one comes first.
pub proof fn lemma_less_total(a: Seq<char>, b: Seq<char>)
    ensures
        a == b || less(a, b) || less(b, a),
    decreases a.len(),
{
    if a.len() > 0 && b.len() > 0 && a[0] == b[0] {
        lemma_less_total(a.skip(1), b.skip(1));
        if a.skip(1) == b.skip(1) {
            assert(a =~= seq![a[0]] + a.skip(1));
            assert(b =~= seq![b[0]] + b.skip(1));
        }
    } else if a.len() == 0 && b.len() == 0 {
        assert(a =~= b);
    }
}

/// Whether `a` comes before `b`.
pub fn is_less(a: &str, b: &str) -> (r: bool)
    ensures
        r == less(a@, b@),
{
    let x = chars_of(a);
    let y = chars_of(b);
    let mut i: usize = 0;
    proof {
        assert(a@.skip(0) =~= a@);
        assert(b@.skip(0) =~= b@);
    }
    while i < x.len() && i < y.len() && x[i] == y[i]
        invariant
            x@ == a@,
            y@ == b@,
            i <= x@.len(),
            i <= y@.len(),
            less(a@, b@) == less(a@.skip(i as int), b@.skip(i as int)),
        decreases x@.len() - i,
    {
        proof {
            assert(a@.skip(i as int).skip(1) =~= a@.skip(i + 1));
            assert(b@.skip(i as int).skip(1) =~= b@.skip(i + 1));
        }
        i += 1;
    }
    if i == y.len() {
        false
    } else if i == x.len() {
        true
    } else {
        x[i] < y[i]
    }
}

/// The digit for `d`, from `0` to `9` and on from `a`.
pub open spec fn digit(d: int) -> char {
    if d < 10 {
        (d + '0' as int) as char
    } else {
        (d - 10 + 'a' as int) as char
    }
}

/// `n` written in base `base`, without leading zeros.
pub open spec fn numeral(n: nat, base: nat) -> Seq<char>
    decreases n,
{
    if base < 2 || n < base {
        seq![digit(n as int)]
    } else {
        proof {
            assert(n / base < n) by (nonlinear_arith)
                requires
                    n >= base,
                    base >= 2,
            ;
        }
        numeral(n / base, base).push(digit((n % base) as int))
    }
}

/// `n` in decimal digits.
pub open spec fn decimal(n: int) -> Seq<char> {
    if n < 0 {
        seq!['-'] + numeral((-n) as nat, 10)
    } else {
        numeral(n as nat, 10)
    }
}

/// The digit for a number below sixteen.
pub fn digit_char(d: u8) -> (c: char)
    requires
        d < 16,
    ensures
        c == digit(d as int),
{
    if d < 10 {
        (48 + d) as char
    } else {
        (97 + (d - 10)) as char
    }
}

/// Writes `n` in base ten or sixteen.
pub fn numeral_text(n: u64, base: u64) -> (s: String)
    requires
        2 <= base <= 16,
    ensures
        s@ == numeral(n as nat, base as nat),
    decreases n,
{
    if n < base {
        let mut s = String::new();
        s.push(digit_char(n as u8));
        proof {
            assert(s@ =~= seq![digit(n as int)]);
        }
        s
    } else {
        proof {
            assert(n / base < n) by (nonlinear_arith)
                requires
                    n >= base,
                    base >= 2,
            ;
            assert(n % base < 16) by (nonlinear_arith)
                requires
                    2 <= base <= 16,
            ;
        }
        let mut s = numeral_text(n / base, base);
        s.push(digit_char((n % base) as u8));
        s
    }
}

/// Writes a signed number in decimal digits.
pub fn decimal_text(n: i64) -> (s: String)
    ensures
        s@ == decimal(n as int),
{
    if n < 0 {
        let mut s = String::new();
        s.push('-');
        let magnitude: u64 = (-(n as i128)) as u64;
        let digits = numeral_text(magnitude, 10);
        s.append(digits.as_str());
        proof {
            assert(s@ =~= seq!['-'] + digits@);
        }
        s
    } else {
        numeral_text(n as u64, 10)
    }
}

/// Whether `c` is one of the ten ASCII digits.
pub open spec fn is_digit(c: char) -> bool {
    '0' <= c <= '9'
}

/// Whether a text is one or more ASCII digits.
pub open spec fn all_digits(s: Seq<char>) -> bool {
    s.len() > 0 && forall|i: int| 0 <= i < s.len() ==> is_digit(#[trigger] s[i])
}

/// The number that decimal digits denote.
pub open spec fn value(s: Seq<char>) -> int
    decreases s.len(),
{
    if s.len() == 0 {
        0
    } else {
        value(s.drop_last()) * 10 + (s.last() as int - '0' as int)
    }
}

/// The digits of an unsigned number, behind the plus sign that it may have.
pub open spec fn unsigned_digits(s: Seq<char>) -> Seq<char> {
    if s.len() > 0 && s[0] == '+' {
        s.skip(1)
    } else {
        s
    }
}

/// The `u64` that a text denotes: digits, with or without a plus sign.
pub open spec fn as_u64(s: Seq<char>) -> Option<u64> {
    let digits = unsigned_digits(s);
    if all_digits(digits) && value(digits) <= u64::MAX {
        Some(value(digits) as u64)
    } else {
        None
    }
}

/// The `i64` that a text denotes: digits, with or without a sign.
pub open spec fn as_i64(s: Seq<char>) -> Option<i64> {
    if s.len() > 0 && s[0] == '-' {
        let digits = s.skip(1);
        if all_digits(digits) && -value(digits) >= i64::MIN {
            Some((-value(digits)) as i64)
        } else {
            None
        }
    } else {
        let digits = unsigned_digits(s);
        if all_digits(digits) && value(digits) <= i64::MAX {
            Some(value(digits) as i64)
        } else {
            None
        }
    }
}

proof fn lemma_value_grows(s: Seq<char>, n: int)
    requires
        0 <= n <= s.len(),
        forall|i: int| 0 <= i < s.len() ==> is_digit(#[trigger] s[i]),
    ensures
        0 <= value(s.take(n)) <= value(s),
    decreases s.len(),
{
    if n == s.len() {
        assert(s.take(n) =~= s);
        if n > 0 {
            lemma_value_grows(s.drop_last(), n - 1);
            assert(s.drop_last().take(n - 1) =~= s.drop_last());
        }
    } else {
        lemma_value_grows(s.drop_last(), n);
        assert(s.drop_last().take(n) =~= s.take(n));
    }
}

/// The number that the characters from index `from` on denote, where they are
/// digits and the number fits in a `u64`.
fn digits_value(chars: &Vec<char>, from: usize) -> (r: Option<u64>)
    requires
        from <= chars@.len(),
    ensures
        match r {
            Some(n) => all_digits(chars@.skip(from as int)) && n == value(chars@.skip(from as int)),
            None => !all_digits(chars@.skip(from as int)) || value(chars@.skip(from as int))
                > u64::MAX,
        },
{
    let ghost digits = chars@.skip(from as int);
    if from == chars.len() {
        return None;
    }
    let mut n: u64 = 0;
    let mut i: usize = from;
    while i < chars.len()
        invariant
            from <= i <= chars@.len(),
            from < chars@.len(),
            digits == chars@.skip(from as int),
            n == value(digits.take(i - from)),
            forall|j: int| 0 <= j < i - from ==> is_digit(#[trigger] digits[j]),
        decreases chars@.len() - i,
    {
        let c = chars[i];
        proof {
            assert(digits[i - from] == c);
            assert(digits.take(i + 1 - from).drop_last() =~= digits.take(i - from));
            if all_digits(digits) {
                lemma_value_grows(digits, i + 1 - from);
            }
        }
        if c < '0' || c > '9' {
            return None;
        }
        let d: u64 = (c as u32 - '0' as u32) as u64;
        let tens: u64 = match n.checked_mul(10) {
            Some(t) => t,
            None => {
                return None;
            },
        };
        n = match tens.checked_add(d) {
            Some(t) => t,
            None => {
                return None;
            },
        };
        i += 1;
    }
    proof {
        assert(digits.take(digits.len() as int) =~= digits);
    }
    Some(n)
}

/// Reads an unsigned number.
pub fn parse_u64(s: &str) -> (r: Option<u64>)
    ensures
        r == as_u64(s@),
{
    let chars = chars_of(s);
    let from: usize = if chars.len() > 0 && chars[0] == '+' {
        1
    } else {
        0
    };
    proof {
        assert(s@.skip(0) =~= s@);
    }
    digits_value(&chars, from)
}

/// Reads a signed number.
pub fn parse_i64(s: &str) -> (r: Option<i64>)
    ensures
        r == as_i64(s@),
{
    let chars = chars_of(s);
    let negative = chars.len() > 0 && chars[0] == '-';
    let from: usize = if chars.len() > 0 && (chars[0] == '+' || chars[0] == '-') {
        1
    } else {
        0
    };
    proof {
        assert(s@.skip(0) =~= s@);
    }
    match digits_value(&chars, from) {
        Some(n) => {
            if negative {
                if n <= 9223372036854775808 {
                    Some((-(n as i128)) as i64)
                } else {
                    None
                }
            } else if n <= 9223372036854775807 {
                Some(n as i64)
            } else {
                None
            }
        },
        None => None,
    }
}

/// The lowercase form of a text, as Unicode defines it.
pub uninterp spec fn lowercase(s: Seq<char>) -> Seq<char>;

/// The lowercase letter for an ASCII capital; any other character as it is.
pub open spec fn ascii_lower(c: char) -> char {
    if 'A' <= c <= 'Z' {
        (c as int + 32) as char
    } else {
        c
    }
}

/// Whether all characters of a text are ASCII.
pub open spec fn is_ascii(s: Seq<char>) -> bool {
    forall|i: int| 0 <= i < s.len() ==> (#[trigger] s[i] as int) < 128
}

/// A text with its ASCII capitals made small.
pub open spec fn ascii_lowered(s: Seq<char>) -> Seq<char> {
    Seq::new(s.len(), |i: int| ascii_lower(s[i]))
}

/// `str::to_lowercase` gives the lowercase form of the text; in an ASCII text
/// that makes the capitals small and leaves the rest.
#[verifier::external_body]
pub(crate) fn to_lowercase(s: &str) -> (r: String)
    ensures
        r@ == lowercase(s@),
        is_ascii(s@) ==> r@ == ascii_lowered(s@),
{
    s.to_lowercase()
}

/// Makes an ASCII capital small.
pub fn lower_char(c: char) -> (r: char)
    ensures
        r == ascii_lower(c),
{
    if 'A' <= c && c <= 'Z' {
        (c as u8 + 32) as char
    } else {
        c
    }
}

/// Whether `c` is a letter or a number, as Unicode defines it.
pub uninterp spec fn alphanumeric(c: char) -> bool;

/// `char::is_alphanumeric` tells letters and numbers from other characters;
/// among the ASCII characters those are the letters and the digits.
pub assume_specification[ char::is_alphanumeric ](c: char) -> (r: bool)
    ensures
        r == alphanumeric(c),
        (c as int) < 128 ==> r == ('a' <= c <= 'z' || 'A' <= c <= 'Z' || is_digit(c)),
;

/// Whether `c` is a capital letter, as Unicode defines it.
pub uninterp spec fn uppercase(c: char) -> bool;

/// `char::is_uppercase` tells capital letters from other characters; among the
/// ASCII characters those are the letters from `A` to `Z`.
pub assume_specification[ char::is_uppercase ](c: char) -> (r: bool)
    ensures
        r == uppercase(c),
        (c as int) < 128 ==> r == ('A' <= c <= 'Z'),
;

/// What stands behind the last `c` of a text; all of it where there is none.
pub open spec fn after_last(s: Seq<char>, c: char) -> Seq<char> {
    split(s, c).last()
}

/// What stands before the first `c` of a text; all of it where there is none.
pub open spec fn before_first(s: Seq<char>, c: char) -> Seq<char> {
    s.take(first_index(s, c))
}

/// What stands behind the last `c` is the end of the text, has no `c`, and has a
/// `c` before it unless it is all of the text.
pub proof fn lemma_after_last(s: Seq<char>, c: char)
    ensures
        after_last(s, c).len() <= s.len(),
        after_last(s, c) == s.skip(s.len() - after_last(s, c).len()),
        !after_last(s, c).contains(c),
        after_last(s, c).len() < s.len() ==> s[s.len() - after_last(s, c).len() - 1] == c,
    decreases s.len(),
{
    lemma_split_nonempty(s, c);
    if s.len() > 0 {
        let front = s.drop_last();
        lemma_after_last(front, c);
        lemma_split_nonempty(front, c);
        let p = after_last(front, c);
        let q = after_last(s, c);
        if s.last() == c {
            assert(q =~= Seq::empty());
            assert(s.skip(s.len() as int) =~= Seq::empty());
        } else {
            assert(q =~= p.push(s.last()));
            assert(q =~= s.skip(s.len() - q.len()));
            assert forall|i: int| 0 <= i < q.len() implies q[i] != c by {
                if i < p.len() {
                    assert(q[i] == p[i]);
                    assert(p.contains(p[i]));
                }
            }
        }
    } else {
        assert(after_last(s, c) =~= Seq::empty());
        assert(s.skip(0) =~= Seq::empty());
    }
}

/// What stands behind the last `c`.
pub fn last_piece<'a>(s: &'a str, c: char) -> (r: &'a str)
    ensures
        r@ == after_last(s@, c),
{
    let chars = chars_of(s);
    let mut from: usize = chars.len();
    while from > 0 && chars[from - 1] != c
        invariant
            chars@ == s@,
            from <= s@.len(),
            forall|j: int| from <= j < s@.len() ==> s@[j] != c,
        decreases from,
    {
        from -= 1;
    }
    proof {
        lemma_after_last(s@, c);
        let q = after_last(s@, c);
        let at = s@.len() - q.len();
        if at < from {
            assert(q[from - 1 - at] == s@[from - 1]);
            assert(q.contains(s@[from - 1]));
        }
        if at > from {
            assert(s@[at - 1] == c);
        }
        assert(s@.subrange(from as int, s@.len() as int) =~= s@.skip(from as int));
    }
    s.substring_char(from, chars.len())
}

/// What stands before the first `c`.
pub fn first_piece<'a>(s: &'a str, c: char) -> (r: &'a str)
    ensures
        r@ == before_first(s@, c),
{
    let i = find_char(s, c);
    proof {
        assert(s@.subrange(0, i as int) =~= s@.take(i as int));
    }
    s.substring_char(0, i)
}

/// Whether `c` is white space, as Unicode defines it.
pub uninterp spec fn whitespace(c: char) -> bool;

/// `char::is_whitespace` tells white space from other characters; among the
/// ASCII characters those are the space and the ones from tab to carriage return.
pub assume_specification[ char::is_whitespace ](c: char) -> (r: bool)
    ensures
        r == whitespace(c),
        (c as int) < 128 ==> r == (c == ' ' || '\t' <= c <= '\r'),
;

/// A text without the white space at its start and end.
pub open spec fn trimmed(s: Seq<char>) -> Seq<char>
    decreases s.len(),
{
    if s.len() > 0 && whitespace(s[0]) {
        trimmed(s.skip(1))
    } else if s.len() > 0 && whitespace(s.last()) {
        trimmed(s.drop_last())
    } else {
        s
    }
}

/// Leaves out the white space at the start and end of `s`.
pub fn trim<'a>(s: &'a str) -> (r: &'a str)
    ensures
        r@ == trimmed(s@),
{
    let chars = chars_of(s);
    let mut from: usize = 0;
    let mut to: usize = chars.len();
    proof {
        assert(s@.subrange(0, s@.len() as int) =~= s@);
    }
    while from < to && chars[from].is_whitespace()
        invariant
            chars@ == s@,
            to == s@.len(),
            from <= to,
            trimmed(s@) == trimmed(s@.subrange(from as int, to as int)),
        decreases to - from,
    {
        proof {
            assert(s@.subrange(from as int, to as int).skip(1) =~= s@.subrange(
                from + 1,
                to as int,
            ));
        }
        from += 1;
    }
    while from < to && chars[to - 1].is_whitespace()
        invariant
            chars@ == s@,
            from <= to <= s@.len(),
            from == to || !whitespace(s@[from as int]),
            trimmed(s@) == trimmed(s@.subrange(from as int, to as int)),
        decreases to - from,
    {
        proof {
            assert(s@.subrange(from as int, to as int)[0] == s@[from as int]);
            assert(s@.subrange(from as int, to as int).drop_last() =~= s@.subrange(
                from as int,
                to - 1,
            ));
        }
        to -= 1;
    }
    s.substring_char(from, to)
}

/// Whether `s` is one of the texts of a list.
pub fn list_has(list: &Vec<String>, s: &str) -> (r: bool)
    ensures
        r == views(list@).contains(s@),
{
    let mut i: usize = 0;
    while i < list.len()
        invariant
            i <= list@.len(),
            forall|j: int| 0 <= j < i ==> (#[trigger] list@[j])@ != s@,
        decreases list@.len() - i,
    {
        if same(list[i].as_str(), s) {
            proof {
                assert(views(list@)[i as int] == s@);
            }
            return true;
        }
        i += 1;
    }
    proof {
        assert forall|j: int| 0 <= j < views(list@).len() implies views(list@)[j] != s@ by {
            assert(list@[j]@ != s@);
        }
    }
    false
}

/// Splitting a text with one more character at its start.
pub proof fn lemma_split_first(c: char, s: Seq<char>, sep: char)
    ensures
        split(seq![c] + s, sep) == (if c == sep {
            seq![Seq::<char>::empty()] + split(s, sep)
        } else {
            split(s, sep).update(0, seq![c] + split(s, sep)[0])
        }),
    decreases s.len(),
{
    let whole = seq![c] + s;
    lemma_split_nonempty(s, sep);
    let empty = Seq::<char>::empty();
    if s.len() == 0 {
        assert(whole.drop_last() =~= empty);
        assert(split(empty, sep) =~= seq![empty]);
        assert(s =~= empty);
        if c == sep {
            assert(split(whole, sep) =~= seq![empty] + split(s, sep));
        } else {
            assert(split(whole, sep) =~= split(s, sep).update(0, seq![c] + split(s, sep)[0])) by {
                assert(seq![empty].last().push(c) =~= seq![c] + empty);
            }
        }
    } else {
        let front = s.drop_last();
        lemma_split_first(c, front, sep);
        lemma_split_nonempty(front, sep);
        assert(whole.drop_last() =~= seq![c] + front);
        assert(whole.last() == s.last());
        let before = split(front, sep);
        let after = split(seq![c] + front, sep);
        if s.last() == sep {
            if c == sep {
                assert(after.push(empty) =~= seq![empty] + before.push(empty));
            } else {
                assert(after.push(empty) =~= before.push(empty).update(
                    0,
                    seq![c] + before.push(empty)[0],
                ));
            }
        } else {
            let last = before.last().push(s.last());
            if c == sep {
                assert(after.update(after.len() - 1, after.last().push(s.last())) =~= seq![empty]
                    + before.update(before.len() - 1, last));
            } else {
                let grown = before.update(before.len() - 1, last);
                if before.len() == 1 {
                    assert((seq![c] + before[0]).push(s.last()) =~= seq![c] + last);
                }
                assert(after.update(after.len() - 1, after.last().push(s.last()))
                    =~= grown.update(0, seq![c] + grown[0]));
            }
        }
    }
}

/// Splitting a text that starts with a separator behind a piece.
pub proof fn lemma_split_head(head: Seq<char>, rest: Seq<char>, sep: char)
    requires
        !head.contains(sep),
    ensures
        split(head + seq![sep] + rest, sep) == seq![head] + split(rest, sep),
    decreases head.len(),
{
    let whole = head + seq![sep] + rest;
    if head.len() == 0 {
        assert(whole =~= seq![sep] + rest);
        lemma_split_first(sep, rest, sep);
        assert(head =~= Seq::empty());
    } else {
        let tail = head.skip(1);
        assert(head.contains(head[0]));
        assert forall|i: int| 0 <= i < tail.len() implies tail[i] != sep by {
            assert(head[i + 1] == tail[i]);
            assert(head.contains(head[i + 1]));
        }
        lemma_split_head(tail, rest, sep);
        let shorter = tail + seq![sep] + rest;
        assert(whole =~= seq![head[0]] + shorter);
        lemma_split_first(head[0], shorter, sep);
        assert(seq![head[0]] + tail =~= head);
        assert(split(whole, sep) =~= seq![head] + split(rest, sep));
    }
}

/// A text with a separator is its first piece, the separator and a rest that
/// holds the other pieces; without one it is its only piece.
pub proof fn lemma_split_cut(s: Seq<char>, sep: char) -> (rest: Seq<char>)
    ensures
        !split(s, sep)[0].contains(sep),
        split(s, sep).len() == 1 ==> split(s, sep)[0] == s,
        split(s, sep).len() > 1 ==> {
            &&& s == split(s, sep)[0] + seq![sep] + rest
            &&& split(rest, sep) == split(s, sep).skip(1)
        },
    decreases s.len(),
{
    if s.len() == 0 {
        assert(s =~= Seq::empty());
        s
    } else {
        let c = s[0];
        let t = s.skip(1);
        assert(s =~= seq![c] + t);
        lemma_split_first(c, t, sep);
        lemma_split_nonempty(t, sep);
        if c == sep {
            assert(split(s, sep)[0] =~= Seq::empty());
            assert(split(s, sep).skip(1) =~= split(t, sep));
            assert(s =~= Seq::<char>::empty() + seq![sep] + t);
            t
        } else {
            let rest = lemma_split_cut(t, sep);
            let head = split(t, sep)[0];
            assert(split(s, sep)[0] =~= seq![c] + head);
            assert forall|i: int| 0 <= i < split(s, sep)[0].len() implies split(s, sep)[0][i]
                != sep by {
                if i > 0 {
                    assert(head[i - 1] == split(s, sep)[0][i]);
                    assert(head.contains(head[i - 1]));
                }
            }
            if split(t, sep).len() > 1 {
                assert(s =~= split(s, sep)[0] + seq![sep] + rest);
                assert(split(s, sep).skip(1) =~= split(t, sep).skip(1));
            }
            rest
        }
    }
}

/// Adding characters that are no separators extends the last piece.
pub proof fn lemma_split_extend(s: Seq<char>, more: Seq<char>, sep: char)
    requires
        !more.contains(sep),
    ensures
        split(s + more, sep) == split(s, sep).update(
            split(s, sep).len() - 1,
            split(s, sep).last() + more,
        ),
    decreases more.len(),
{
    lemma_split_nonempty(s, sep);
    let before = split(s, sep);
    if more.len() == 0 {
        assert(s + more =~= s);
        assert(before.last() + more =~= before.last());
        assert(before.update(before.len() - 1, before.last()) =~= before);
    } else {
        let front = more.drop_last();
        assert(more.contains(more[more.len() - 1]));
        assert forall|i: int| 0 <= i < front.len() implies front[i] != sep by {
            assert(more[i] == front[i]);
            assert(more.contains(more[i]));
        }
        lemma_split_extend(s, front, sep);
        assert((s + more).drop_last() =~= s + front);
        assert((s + more).last() == more.last());
        assert((before.last() + front).push(more.last()) =~= before.last() + more);
        let grown = before.update(before.len() - 1, before.last() + front);
        assert(grown.update(grown.len() - 1, grown.last().push(more.last())) =~= before.update(
            before.len() - 1,
            before.last() + more,
        ));
    }
}

/// Joining the pieces of a text with the separator gives the text back.
pub proof fn law_split_join(s: Seq<char>, sep: char)
    ensures
        join(split(s, sep), seq![sep]) == s,
        forall|i: int| 0 <= i < split(s, sep).len() ==> !(#[trigger] split(s, sep)[i]).contains(sep),
    decreases s.len(),
{
    lemma_split_nonempty(s, sep);
    if s.len() == 0 {
        assert(join(split(s, sep), seq![sep]) =~= s);
    } else {
        let front = s.drop_last();
        law_split_join(front, sep);
        lemma_split_nonempty(front, sep);
        let before = split(front, sep);
        let after = split(s, sep);
        if s.last() == sep {
            assert(after.drop_last() =~= before);
            assert(after.last() =~= Seq::empty());
            assert(front + seq![sep] + Seq::<char>::empty() =~= s);
            assert forall|i: int| 0 <= i < after.len() implies !(#[trigger] after[i]).contains(
                sep,
            ) by {
                if i < before.len() {
                    assert(after[i] == before[i]);
                }
            }
        } else {
            let n = before.len() - 1;
            let last = before.last().push(s.last());
            assert(after.last() == last);
            assert(after.drop_last() =~= before.drop_last());
            assert(join(after, seq![sep]) =~= s) by {
                if n == 0 {
                    assert(join(before, seq![sep]) == before[0]);
                    assert(front.push(s.last()) =~= s);
                } else {
                    let head = join(before.drop_last(), seq![sep]) + seq![sep];
                    assert(front =~= head + before.last());
                    assert(head + last =~= front.push(s.last()));
                    assert(front.push(s.last()) =~= s);
                }
            }
            assert forall|i: int| 0 <= i < after.len() implies !(#[trigger] after[i]).contains(
                sep,
            ) by {
                if i < n {
                    assert(after[i] == before[i]);
                } else {
                    assert forall|j: int| 0 <= j < last.len() implies last[j] != sep by {
                        if j < before.last().len() {
                            assert(before[n].contains(before[n][j]));
                        }
                    }
                }
            }
        }
    }
}

/// Trimming a suffix that has no separator in it trims the last piece.
pub proof fn lemma_split_trim(s: Seq<char>, suffix: Seq<char>, sep: char)
    requires
        !suffix.contains(sep),
        suffix.len() > 0,
    ensures
        suffix.is_suffix_of(s) <==> suffix.is_suffix_of(split(s, sep).last()),
        split(trim_end_text(s, suffix), sep) == split(s, sep).update(
            split(s, sep).len() - 1,
            trim_end_text(split(s, sep).last(), suffix),
        ),
    decreases s.len(),
{
    lemma_split_nonempty(s, sep);
    lemma_after_last(s, sep);
    let last = split(s, sep).last();
    let at = s.len() - last.len();
    let n = s.len() as int;
    let m = suffix.len() as int;
    if suffix.is_suffix_of(s) {
        if last.len() < m {
            assert(s[at - 1] == sep);
            assert(s.subrange(n - m, n)[at - 1 - (n - m)] == s[at - 1]);
            assert(suffix.contains(sep));
        }
        assert(last.subrange(last.len() - m, last.len() as int) =~= s.subrange(n - m, n));
        let front = s.take(n - m);
        assert(s =~= front + suffix);
        lemma_split_extend(front, suffix, sep);
        lemma_split_nonempty(front, sep);
        lemma_split_trim(front, suffix, sep);
        let before = split(front, sep);
        assert(last =~= before.last() + suffix);
        assert(last.take(last.len() - m) =~= before.last());
        assert(split(trim_end_text(s, suffix), sep) =~= split(s, sep).update(
            split(s, sep).len() - 1,
            trim_end_text(last, suffix),
        ));
    } else {
        if suffix.is_suffix_of(last) {
            assert(last.subrange(last.len() - m, last.len() as int) =~= s.subrange(n - m, n));
        }
        assert(split(s, sep).update(split(s, sep).len() - 1, last) =~= split(s, sep));
    }
}

/// The decimal digits of a number are read back as that number.
pub proof fn law_decimal_round_trip(n: i64)
    ensures
        as_i64(decimal(n as int)) == Some(n),
        n >= 0 ==> as_u64(decimal(n as int)) == Some(n as u64),
{
    let s = decimal(n as int);
    if n < 0 {
        let digits = numeral((-n) as nat, 10);
        lemma_numeral_value((-n) as nat);
        assert(s.skip(1) =~= digits);
    } else {
        lemma_numeral_value(n as nat);
        assert(is_digit(s[0]));
    }
}

proof fn lemma_numeral_value(n: nat)
    ensures
        all_digits(numeral(n, 10)),
        value(numeral(n, 10)) == n,
    decreases n,
{
    let s = numeral(n, 10);
    if n < 10 {
        assert(s.drop_last() =~= Seq::empty());
        assert(value(s.drop_last()) == 0);
    } else {
        let front = numeral(n / 10, 10);
        lemma_numeral_value(n / 10);
        assert(s.drop_last() =~= front);
        assert forall|i: int| 0 <= i < s.len() implies is_digit(#[trigger] s[i]) by {
            if i < front.len() {
                assert(s[i] == front[i]);
            }
        }
    }
}

/// The decimal digits of an unsigned number are read back as that number, and there
/// is no point and no hyphen among them.
pub proof fn law_numeral_round_trip(n: u64)
    ensures
        as_u64(decimal(n as int)) == Some(n),
        all_digits(decimal(n as int)),
        value(decimal(n as int)) == n,
{
    lemma_numeral_value(n as nat);
    assert(is_digit(decimal(n as int)[0]));
}

/// Zeros before a number do not change it, and a digit behind it counts as one and
/// the rest ten times as much.
pub proof fn law_value(s: Seq<char>, d: char)
    requires
        forall|i: int| 0 <= i < s.len() ==> '0' <= #[trigger] s[i] <= '9',
        '0' <= d <= '9',
    ensures
        value(seq!['0'] + s) == value(s),
        value(s.push(d)) == 10 * value(s) + (d as int - '0' as int),
        as_u64(s.push(d)) == (if value(s.push(d)) <= u64::MAX {
            Some(value(s.push(d)) as u64)
        } else {
            None
        }),
    decreases s.len(),
{
    let grown = s.push(d);
    assert(grown.drop_last() =~= s);
    assert forall|i: int| 0 <= i < grown.len() implies is_digit(#[trigger] grown[i]) by {
        if i < s.len() {
            assert(grown[i] == s[i]);
        }
    }
    assert(grown[0] != '+');
    let zero = seq!['0'] + s;
    if s.len() == 0 {
        assert(zero.drop_last() =~= Seq::empty());
        assert(value(zero.drop_last()) == 0);
    } else {
        let front = s.drop_last();
        assert forall|i: int| 0 <= i < front.len() implies '0' <= #[trigger] front[i] <= '9' by {
            assert(front[i] == s[i]);
        }
        law_value(front, d);
        assert(zero.drop_last() =~= seq!['0'] + front);
    }
}

/// Splitting joined pieces gives the pieces back, as long as there are any and none
/// of them holds the separator.
pub proof fn law_join_split(parts: Seq<Seq<char>>, sep: char)
    requires
        parts.len() > 0,
        forall|i: int| 0 <= i < parts.len() ==> !(#[trigger] parts[i]).contains(sep),
    ensures
        split(join(parts, seq![sep]), sep) == parts,
    decreases parts.len(),
{
    let empty = Seq::<char>::empty();
    if parts.len() == 1 {
        lemma_split_extend(empty, parts[0], sep);
        assert(empty + parts[0] =~= parts[0]);
        assert(split(parts[0], sep) =~= parts);
    } else {
        let front = parts.drop_last();
        let last = parts.last();
        assert forall|i: int| 0 <= i < front.len() implies !(#[trigger] front[i]).contains(sep) by {
            assert(front[i] == parts[i]);
        }
        assert(!parts[parts.len() - 1].contains(sep));
        law_join_split(front, sep);
        let head = join(front, seq![sep]);
        let ended = head.push(sep);
        assert(ended.drop_last() =~= head);
        assert(split(ended, sep) =~= front.push(empty));
        lemma_split_extend(ended, last, sep);
        assert(head + seq![sep] + last =~= ended + last);
        assert(empty + last =~= last);
        assert(front.push(empty).update(front.len() as int, last) =~= parts);
    }
}

/// Joining pieces in two groups and joining the results is joining them all.
pub proof fn lemma_join_add(a: Seq<Seq<char>>, b: Seq<Seq<char>>, sep: Seq<char>)
    requires
        a.len() > 0,
        b.len() > 0,
    ensures
        join(a + b, sep) == join(a, sep) + sep + join(b, sep),
    decreases b.len(),
{
    let whole = a + b;
    assert(whole.last() == b.last());
    if b.len() == 1 {
        assert(whole.drop_last() =~= a);
    } else {
        assert(whole.drop_last() =~= a + b.drop_last());
        lemma_join_add(a, b.drop_last(), sep);
        assert(join(whole, sep) =~= join(a, sep) + sep + join(b, sep));
    }
}

/// Pieces that are not empty are all kept.
pub proof fn lemma_nonempty_all(parts: Seq<Seq<char>>)
    requires
        forall|i: int| 0 <= i < parts.len() ==> (#[trigger] parts[i]).len() > 0,
    ensures
        nonempty(parts) == parts,
    decreases parts.len(),
{
    if parts.len() > 0 {
        let front = parts.drop_last();
        assert forall|i: int| 0 <= i < front.len() implies (#[trigger] front[i]).len() > 0 by {
            assert(front[i] == parts[i]);
        }
        lemma_nonempty_all(front);
        assert(parts[parts.len() - 1].len() > 0);
        assert(front.push(parts.last()) =~= parts);
    }
}

/// The segments of a path are the pieces that it was made of, with or without a
/// slash before them.
pub proof fn law_segments(parts: Seq<Seq<char>>)
    requires
        parts.len() > 0,
        forall|i: int|
            0 <= i < parts.len() ==> !(#[trigger] parts[i]).contains('/') && parts[i].len() > 0,
    ensures
        segments(join(parts, seq!['/'])) == parts,
        segments(seq!['/'] + join(parts, seq!['/'])) == parts,
{
    law_join_split(parts, '/');
    lemma_nonempty_all(parts);
    let empty = Seq::<char>::empty();
    let path = join(parts, seq!['/']);
    lemma_split_head(empty, path, '/');
    assert(empty + seq!['/'] + path =~= seq!['/'] + path);
    lemma_nonempty_head(parts);
}

proof fn lemma_nonempty_head(parts: Seq<Seq<char>>)
    ensures
        nonempty(seq![Seq::<char>::empty()] + parts) == nonempty(parts),
    decreases parts.len(),
{
    let whole = seq![Seq::<char>::empty()] + parts;
    if parts.len() == 0 {
        assert(whole.drop_last() =~= parts);
    } else {
        lemma_nonempty_head(parts.drop_last());
        assert(whole.drop_last() =~= seq![Seq::<char>::empty()] + parts.drop_last());
        assert(whole.last() == parts.last());
    }
}

/// Texts are ordered by the first character in which they differ, and a text comes
/// before the longer ones that begin with it.
pub proof fn law_text_order(start: Seq<char>, c: char, x: Seq<char>, d: char, y: Seq<char>)
    ensures
        c != d ==> less(start + seq![c] + x, start + seq![d] + y) == (c < d),
        less(start, start + seq![c] + x),
        !less(start + seq![c] + x, start),
    decreases start.len(),
{
    let a = start + seq![c] + x;
    let b = start + seq![d] + y;
    if start.len() == 0 {
        assert(a[0] == c && b[0] == d);
    } else {
        let rest = start.skip(1);
        law_text_order(rest, c, x, d, y);
        assert(a[0] == start[0] && b[0] == start[0]);
        assert(a.skip(1) =~= rest + seq![c] + x);
        assert(b.skip(1) =~= rest + seq![d] + y);
    }
}

/// The first occurrence of a character cuts a text in two.
pub proof fn law_cut(before: Seq<char>, behind: Seq<char>, c: char)
    requires
        !before.contains(c),
    ensures
        cut(before + seq![c] + behind, c) == Some((before, behind)),
        before_first(before + seq![c] + behind, c) == before,
        cut(before, c) is None,
        before_first(before, c) == before,
    decreases before.len(),
{
    let s = before + seq![c] + behind;
    if before.len() > 0 {
        let rest = before.skip(1);
        assert(before.contains(before[0]));
        assert forall|i: int| 0 <= i < rest.len() implies rest[i] != c by {
            assert(rest[i] == before[i + 1]);
            assert(before.contains(before[i + 1]));
        }
        law_cut(rest, behind, c);
        assert(s[0] == before[0]);
        assert(s.skip(1) =~= rest + seq![c] + behind);
        assert(first_index(rest, c) == rest.len()) by {
            lemma_index_bound(rest, c);
        }
        lemma_index_bound(s.skip(1), c);
        let t = s.skip(1);
        let i = first_index(t, c);
        assert(t.take(i).len() == rest.len());
        assert(i == rest.len());
    } else {
        assert(s[0] == c);
    }
    assert(first_index(s, c) == before.len());
    assert(first_index(before, c) == before.len());
    assert(s.take(before.len() as int) =~= before);
    assert(s.skip(before.len() as int + 1) =~= behind);
    assert(before.take(before.len() as int) =~= before);
}

pub proof fn lemma_index_bound(s: Seq<char>, c: char)
    ensures
        0 <= first_index(s, c) <= s.len(),
        first_index(s, c) < s.len() ==> s[first_index(s, c)] == c,
        first_index(s, c) == s.len() <==> !s.contains(c),
    decreases s.len(),
{
    if s.len() > 0 && s[0] != c {
        let rest = s.skip(1);
        lemma_index_bound(rest, c);
        if rest.contains(c) {
            let i = choose|i: int| 0 <= i < rest.len() && rest[i] == c;
            assert(s[i + 1] == c);
        }
        if s.contains(c) {
            let i = choose|i: int| 0 <= i < s.len() && s[i] == c;
            assert(rest[i - 1] == c);
        }
        if first_index(s, c) < s.len() {
            assert(s[first_index(s, c)] == rest[first_index(rest, c)]);
        }
    }
}

/// What stands behind the last occurrence of a character.
pub proof fn law_after_last(before: Seq<char>, behind: Seq<char>, c: char)
    requires
        !behind.contains(c),
    ensures
        after_last(before + seq![c] + behind, c) == behind,
        after_last(behind, c) == behind,
{
    let s = before + seq![c] + behind;
    lemma_after_last(s, c);
    let found = after_last(s, c);
    let start = s.len() - found.len();
    let at = before.len() as int;
    assert(s[at] == c);
    if start <= at {
        assert(found[at - start] == c);
        assert(found.contains(c));
    } else if start > at + 1 {
        assert(s[start - 1] == behind[start - at - 2]);
        assert(behind.contains(c));
    }
    assert(found =~= behind);
    lemma_after_last(behind, c);
    let all = after_last(behind, c);
    if all.len() < behind.len() {
        assert(behind.contains(behind[behind.len() - all.len() - 1]));
    }
    assert(all =~= behind);
}

/// Trimming a character at the start leaves a text that does not start with it, and
/// takes away nothing else.
pub proof fn law_trim_start(s: Seq<char>, c: char)
    ensures
        ({
            let r = trim_start(s, c);
            &&& r.len() > 0 ==> r[0] != c
            &&& r.len() <= s.len()
            &&& r == s.skip(s.len() - r.len())
            &&& forall|i: int| 0 <= i < s.len() - r.len() ==> s[i] == c
        }),
    decreases s.len(),
{
    if s.len() > 0 && s[0] == c {
        law_trim_start(s.skip(1), c);
        let r = trim_start(s, c);
        let n = s.len() - r.len();
        assert(r =~= s.skip(n));
        assert forall|i: int| 0 <= i < n implies s[i] == c by {
            if i > 0 {
                assert(s.skip(1)[i - 1] == s[i]);
            }
        }
    } else {
        assert(s =~= s.skip(0));
    }
}

/// Trimming an ending leaves a text that does not end with it, and takes away nothing
/// but that ending.
pub proof fn law_trim_ending(s: Seq<char>, ending: Seq<char>)
    requires
        ending.len() > 0,
        !ending.is_suffix_of(s),
    ensures
        trim_end_text(s, ending) == s,
        trim_end_text(s + ending, ending) == s,
{
    let whole = s + ending;
    assert(whole.subrange(whole.len() - ending.len(), whole.len() as int) =~= ending);
    assert(whole.take(whole.len() - ending.len()) =~= s);
}

/// Whether a text occurs in another at an index.
pub open spec fn occurs(s: Seq<char>, t: Seq<char>, i: int) -> bool {
    0 <= i && i + t.len() <= s.len() && s.subrange(i, i + t.len()) == t
}

/// Replacing puts the new text in the place of the first occurrence of the old one
/// and goes on behind it; a text in which the old one does not occur stays as it is.
pub proof fn law_replace(before: Seq<char>, from: Seq<char>, behind: Seq<char>, to: Seq<char>)
    requires
        from.len() > 0,
        forall|i: int|
            0 <= i < before.len() ==> !#[trigger] occurs(before + from + behind, from, i),
    ensures
        replace(before + from + behind, from, to) == before + to + replace(behind, from, to),
{
    let s = before + from + behind;
    let k = before.len() as int;
    assert(s.subrange(k, k + from.len()) =~= from);
    lemma_replace_at(s, from, to, k);
    assert(s.take(k) =~= before);
    assert(s.skip(k + from.len()) =~= behind);
}

#[verifier::spinoff_prover]
#[verifier::rlimit(60)]
proof fn lemma_replace_at(s: Seq<char>, from: Seq<char>, to: Seq<char>, k: int)
    requires
        from.len() > 0,
        occurs(s, from, k),
        forall|i: int| 0 <= i < k ==> !#[trigger] occurs(s, from, i),
    ensures
        replace(s, from, to) == s.take(k) + to + replace(s.skip(k + from.len()), from, to),
    decreases k,
{
    let left = replace(s.skip(k + from.len()), from, to);
    if k == 0 {
        assert(from =~= s.subrange(0, from.len() as int));
        assert(from.is_prefix_of(s));
        assert(to + left =~= s.take(0) + to + left);
    } else {
        assert(!occurs(s, from, 0));
        assert(!from.is_prefix_of(s));
        let rest = s.skip(1);
        assert(rest.subrange(k - 1, k - 1 + from.len()) =~= s.subrange(k, k + from.len()));
        assert forall|i: int| 0 <= i < k - 1 implies !#[trigger] occurs(rest, from, i) by {
            assert(!occurs(s, from, i + 1));
            assert(rest.subrange(i, i + from.len()) =~= s.subrange(i + 1, i + 1 + from.len()));
        }
        lemma_replace_at(rest, from, to, k - 1);
        assert(rest.skip(k - 1 + from.len()) =~= s.skip(k + from.len()));
        assert(replace(s, from, to) == seq![s[0]] + replace(rest, from, to));
        assert(seq![s[0]] + rest.take(k - 1) =~= s.take(k));
        assert(seq![s[0]] + (rest.take(k - 1) + to + left) =~= seq![s[0]] + rest.take(k - 1) + to
            + left);
    }
}

/// A text in which another does not occur is left as it is when that is replaced.
pub proof fn law_replace_absent(s: Seq<char>, from: Seq<char>, to: Seq<char>)
    requires
        from.len() > 0,
        forall|i: int| 0 <= i < s.len() ==> !#[trigger] occurs(s, from, i),
    ensures
        replace(s, from, to) == s,
    decreases s.len(),
{
    if s.len() >= from.len() {
        assert(!occurs(s, from, 0));
        let rest = s.skip(1);
        assert forall|i: int| 0 <= i < rest.len() implies !#[trigger] occurs(rest, from, i) by {
            assert(!occurs(s, from, i + 1));
            if occurs(rest, from, i) {
                assert(s.subrange(i + 1, i + 1 + from.len()) =~= rest.subrange(i, i + from.len()));
            }
        }
        law_replace_absent(rest, from, to);
        assert(!from.is_prefix_of(s));
        assert(seq![s[0]] + rest =~= s);
    }
}

/// The lines of a text are those that it was made of, where each was ended.
#[verifier::rlimit(40)]
pub proof fn law_lines(list: Seq<Seq<char>>)
    requires
        forall|i: int|
            0 <= i < list.len() ==> !(#[trigger] list[i]).contains('\n') && !list[i].contains('\r'),
    ensures
        list.len() > 0 ==> lines(join(list, seq!['\n']) + seq!['\n']) == list,
        list.len() > 0 && list.last().len() > 0 ==> lines(join(list, seq!['\n'])) == list,
        lines(Seq::empty()) == Seq::<Seq<char>>::empty(),
{
    let empty = Seq::<char>::empty();
    assert(split(empty, '\n').drop_last() =~= Seq::empty());
    assert(lines(empty) =~= Seq::empty());
    if list.len() > 0 {
        law_join_split(list, '\n');
        let body = join(list, seq!['\n']);
        let ended = body.push('\n');
        assert(body + seq!['\n'] =~= ended);
        assert(ended.drop_last() =~= body);
        assert(split(ended, '\n') =~= list.push(empty));
        assert(split(ended, '\n').drop_last() =~= list);
        assert forall|i: int| 0 <= i < list.len() implies without_return(#[trigger] list[i])
            == list[i] by {
            if list[i].len() > 0 {
                assert(list[i].contains(list[i].last()));
            }
        }
        assert(lines(ended) =~= list);
        assert(lines(body) =~= (if list.last().len() > 0 {
            list
        } else {
            list.drop_last()
        }));
    }
}

/// Trimming leaves a part of the text that neither starts nor ends with white space,
/// and what is left out is white space.
pub proof fn law_trimmed(s: Seq<char>) -> (r: (int, int))
    ensures
        0 <= r.0 <= r.1 <= s.len(),
        trimmed(s) == s.subrange(r.0, r.1),
        forall|i: int| 0 <= i < s.len() && !(r.0 <= i < r.1) ==> whitespace(#[trigger] s[i]),
        r.0 < r.1 ==> !whitespace(s[r.0]) && !whitespace(s[r.1 - 1]),
    decreases s.len(),
{
    let n = s.len() as int;
    if n > 0 && whitespace(s[0]) {
        let t = s.skip(1);
        let (from, to) = law_trimmed(t);
        assert(s.subrange(from + 1, to + 1) =~= t.subrange(from, to));
        assert forall|i: int| 0 <= i < n && !(from + 1 <= i < to + 1) implies whitespace(
            #[trigger] s[i],
        ) by {
            if i > 0 {
                assert(t[i - 1] == s[i]);
            }
        }
        if from < to {
            assert(s[from + 1] == t[from] && s[to] == t[to - 1]);
        }
        (from + 1, to + 1)
    } else if n > 0 && whitespace(s.last()) {
        let t = s.drop_last();
        let (from, to) = law_trimmed(t);
        assert(s.subrange(from, to) =~= t.subrange(from, to));
        assert forall|i: int| 0 <= i < n && !(from <= i < to) implies whitespace(
            #[trigger] s[i],
        ) by {
            if i < n - 1 {
                assert(t[i] == s[i]);
            }
        }
        if from < to {
            assert(s[from] == t[from] && s[to - 1] == t[to - 1]);
        }
        (from, to)
    } else {
        assert(s.subrange(0, n) =~= s);
        (0, n)
    }
}

/// Small letters stand for the capital ones, in their order, and every other
/// character for itself.
pub proof fn law_ascii_lower(c: char, k: int)
    requires
        0 <= k < 26,
    ensures
        c as int == 'A' as int + k ==> ascii_lower(c) as int == 'a' as int + k,
        !('A' <= c <= 'Z') ==> ascii_lower(c) == c,
{
}

/// A text of two parts with the separator between them has the pieces of the one and
/// behind them those of the other.
pub proof fn law_split_parts(a: Seq<char>, b: Seq<char>, sep: char)
    ensures
        split(a + seq![sep] + b, sep) == split(a, sep) + split(b, sep),
{
    law_split_join(a, sep);
    law_split_join(b, sep);
    lemma_split_nonempty(a, sep);
    lemma_split_nonempty(b, sep);
    let parts = split(a, sep) + split(b, sep);
    assert forall|i: int| 0 <= i < parts.len() implies !(#[trigger] parts[i]).contains(sep) by {
        if i < split(a, sep).len() {
            assert(parts[i] == split(a, sep)[i]);
        } else {
            assert(parts[i] == split(b, sep)[i - split(a, sep).len()]);
        }
    }
    lemma_join_add(split(a, sep), split(b, sep), seq![sep]);
    law_join_split(parts, sep);
}

/// A text has another in it exactly if the other occurs somewhere in it.
pub proof fn law_has_text(before: Seq<char>, t: Seq<char>, behind: Seq<char>)
    ensures
        has_text(before + t + behind, t),
        t.len() > 0 && (forall|i: int| 0 <= i < before.len() ==> !#[trigger] occurs(before, t, i))
            ==> !has_text(before, t),
{
    let s = before + t + behind;
    let k = before.len() as int;
    assert(s.skip(k) =~= t + behind);
    assert(t =~= s.skip(k).subrange(0, t.len() as int));
    assert(t.is_prefix_of(s.skip(k)));
    if t.len() > 0 && (forall|i: int| 0 <= i < before.len() ==> !#[trigger] occurs(before, t, i)) {
        assert forall|i: int| 0 <= i <= before.len() implies !t.is_prefix_of(
            #[trigger] before.skip(i),
        ) by {
            if t.is_prefix_of(before.skip(i)) {
                assert(before.subrange(i, i + t.len()) =~= before.skip(i).subrange(
                    0,
                    t.len() as int,
                ));
                assert(occurs(before, t, i));
            }
        }
    }
}

/// A number is written digit by digit, and one below the base as one digit: the figures,
/// and from ten on the small letters.
pub proof fn law_numeral(n: nat, base: nat, d: nat)
    requires
        2 <= base <= 16,
        d < base,
    ensures
        numeral(d, base) == seq![digit(d as int)],
        n > 0 ==> numeral(n * base + d, base) == numeral(n, base).push(digit(d as int)),
        d < 10 ==> digit(d as int) as int == '0' as int + d,
        d >= 10 ==> digit(d as int) as int == 'a' as int + d - 10,
{
    if n > 0 {
        let m = n * base + d;
        assert(m >= base) by (nonlinear_arith)
            requires
                n > 0,
                m == n * base + d,
        ;
        assert(m / base == n && m % base == d) by (nonlinear_arith)
            requires
                m == n * base + d,
                d < base,
                base >= 2,
        ;
    }
}

/// A number may have a plus sign before it; a text with any other sign in it that is no
/// figure is no number, and neither is the empty one.
pub proof fn law_unsigned(digits: Seq<char>)
    requires
        all_digits(digits),
    ensures
        as_u64(seq!['+'] + digits) == as_u64(digits),
        as_i64(seq!['+'] + digits) == as_i64(digits),
        as_u64(seq!['-'] + digits) is None,
        as_u64(Seq::empty()) is None,
        as_i64(Seq::empty()) is None,
{
    let plus = seq!['+'] + digits;
    assert(plus.skip(1) =~= digits);
    assert(is_digit(digits[0]));
    let minus = seq!['-'] + digits;
    assert(!is_digit(minus[0]));
}

/// A text with a sign in it that is neither a figure nor a sign of a number is none.
pub proof fn law_no_number(s: Seq<char>, i: int)
    requires
        0 <= i < s.len(),
        !('0' <= s[i] <= '9'),
        i > 0 || (s[i] != '+' && s[i] != '-'),
    ensures
        as_u64(s) is None,
        as_i64(s) is None,
{
    if s[0] == '+' || s[0] == '-' {
        assert(s.skip(1)[i - 1] == s[i]);
        assert(!is_digit(s.skip(1)[i - 1]));
    }
    assert(!is_digit(s[i]));
}

/// A line that ends in a carriage return is read without it.
#[verifier::rlimit(40)]
pub proof fn law_line_return(line: Seq<char>, rest: Seq<char>)
    requires
        !line.contains('\n'),
        !line.contains('\r'),
    ensures
        lines(line + seq!['\r', '\n'] + rest) == seq![line] + lines(rest),
        lines(line + seq!['\n'] + rest) == seq![line] + lines(rest),
{
    let marked = line + seq!['\r'];
    assert forall|i: int| 0 <= i < marked.len() implies marked[i] != '\n' by {
        if i < line.len() {
            assert(line.contains(line[i]));
        }
    }
    lemma_split_head(marked, rest, '\n');
    lemma_split_head(line, rest, '\n');
    lemma_split_nonempty(rest, '\n');
    assert(marked + seq!['\n'] + rest =~= line + seq!['\r', '\n'] + rest);
    assert(marked.drop_last() =~= line);
    assert(without_return(marked) == line);
    assert(line.len() > 0 ==> line.contains(line.last()));
    assert(without_return(line) == line);
    let pieces = split(rest, '\n');
    let a = seq![marked] + pieces;
    let b = seq![line] + pieces;
    let strip = |p: Seq<char>| without_return(p);
    assert(a.drop_last() =~= seq![marked] + pieces.drop_last());
    assert(b.drop_last() =~= seq![line] + pieces.drop_last());
    assert(a.drop_last().map_values(strip) =~= seq![line] + pieces.drop_last().map_values(strip));
    assert(b.drop_last().map_values(strip) =~= seq![line] + pieces.drop_last().map_values(strip));
    assert(a.last() == pieces.last() && b.last() == pieces.last());
    assert(lines(line + seq!['\r', '\n'] + rest) =~= seq![line] + lines(rest));
    assert(lines(line + seq!['\n'] + rest) =~= seq![line] + lines(rest));
}

/// An ending is taken off as often as it stands there.
pub proof fn law_trim_endings(s: Seq<char>, ending: Seq<char>)
    requires
        ending.len() > 0,
    ensures
        trim_end_text(s + ending, ending) == trim_end_text(s, ending),
        !ending.is_suffix_of(trim_end_text(s, ending)),
    decreases s.len(),
{
    let longer = s + ending;
    assert(longer.subrange(longer.len() - ending.len(), longer.len() as int) =~= ending);
    assert(ending.is_suffix_of(longer));
    assert(longer.take(longer.len() - ending.len()) =~= s);
    if ending.is_suffix_of(s) {
        law_trim_endings(s.take(s.len() - ending.len()), ending);
    }
}

/// A sign at the end goes, however often it stands there, and all else stays.
pub proof fn law_trim_end(s: Seq<char>, c: char)
    ensures
        ({
            let r = trim_end(s, c);
            &&& r.len() > 0 ==> r.last() != c
            &&& r.len() <= s.len()
            &&& r == s.take(r.len() as int)
            &&& forall|i: int| r.len() <= i < s.len() ==> s[i] == c
        }),
    decreases s.len(),
{
    if s.len() > 0 && s.last() == c {
        law_trim_end(s.drop_last(), c);
        let r = trim_end(s, c);
        assert(s.drop_last().take(r.len() as int) =~= s.take(r.len() as int));
        assert forall|i: int| r.len() <= i < s.len() implies s[i] == c by {
            if i < s.len() - 1 {
                assert(s.drop_last()[i] == c);
            }
        }
    } else {
        assert(s.take(s.len() as int) =~= s);
    }
}

/// The pieces that are not empty are kept in their order, and the others go.
pub proof fn law_nonempty(a: Seq<Seq<char>>, b: Seq<Seq<char>>)
    ensures
        nonempty(a + b) == nonempty(a) + nonempty(b),
        a.len() == 1 ==> nonempty(a) == (if a[0].len() > 0 {
            a
        } else {
            Seq::empty()
        }),
    decreases b.len(),
{
    if a.len() == 1 {
        assert(nonempty(a.drop_last()) =~= Seq::empty());
        assert(nonempty(a) =~= (if a[0].len() > 0 {
            a
        } else {
            Seq::empty()
        }));
    }
    if b.len() == 0 {
        assert(a + b =~= a);
        assert(nonempty(a) + nonempty(b) =~= nonempty(a));
    } else {
        law_nonempty(a, b.drop_last());
        assert((a + b).drop_last() =~= a + b.drop_last());
        assert((a + b).last() == b.last());
        assert(nonempty(a + b) =~= nonempty(a) + nonempty(b));
    }
}

/// The segments of a path that is made of two, with a slash between them, are those of
/// the one and behind them those of the other.
pub proof fn law_path_segments(a: Seq<char>, b: Seq<char>)
    ensures
        segments(a + seq!['/'] + b) == segments(a) + segments(b),
        a.len() > 0 && !a.contains('/') ==> segments(a) == seq![a],
        segments(Seq::empty()).len() == 0,
{
    law_split_parts(a, b, '/');
    law_nonempty(split(a, '/'), split(b, '/'));
    if a.len() > 0 && !a.contains('/') {
        law_join_split(seq![a], '/');
        assert(join(seq![a], seq!['/']) == a);
        law_nonempty(seq![a], Seq::empty());
    }
    let empty = Seq::<char>::empty();
    assert(split(empty, '/') =~= seq![empty]);
    law_nonempty(seq![empty], Seq::empty());
}

/// A text in small letters has as many signs, each the small one.
pub proof fn law_ascii_lowered(s: Seq<char>, i: int)
    requires
        0 <= i < s.len(),
    ensures
        ascii_lowered(s).len() == s.len(),
        ascii_lowered(s)[i] == ascii_lower(s[i]),
{
}

} // verus!
