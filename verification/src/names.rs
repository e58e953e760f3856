//! Maps from names to values, listed in the order of the names.

use vstd::prelude::*;

use crate::text;

verus! {

/// The value listed under `name`.
pub open spec fn lookup<V>(list: Seq<(Seq<char>, V)>, name: Seq<char>) -> Option<V>
    decreases list.len(),
{
    if list.len() == 0 {
        None
    } else if list.last().0 == name {
        Some(list.last().1)
    } else {
        lookup(list.drop_last(), name)
    }
}

/// The list with `value` under `name`: in the place of the entry of that name,
/// else where the order of names puts it.
pub open spec fn put<V>(list: Seq<(Seq<char>, V)>, name: Seq<char>, value: V) -> Seq<
    (Seq<char>, V),
>
    decreases list.len(),
{
    if list.len() == 0 {
        seq![(name, value)]
    } else if list.last().0 == name {
        list.drop_last().push((name, value))
    } else if text::less(list.last().0, name) {
        list.push((name, value))
    } else {
        put(list.drop_last(), name, value).push(list.last())
    }
}

/// The entries whose name passes, in order.
pub open spec fn keep<V>(
    list: Seq<(Seq<char>, V)>,
    passes: spec_fn(Seq<char>) -> bool,
) -> Seq<(Seq<char>, V)>
    decreases list.len(),
{
    if list.len() == 0 {
        list
    } else if passes(list.last().0) {
        keep(list.drop_last(), passes).push(list.last())
    } else {
        keep(list.drop_last(), passes)
    }
}

/// Whether the names come in order, each once.
pub open spec fn in_order<V>(list: Seq<(Seq<char>, V)>) -> bool {
    forall|i: int, j: int|
        0 <= i < j < list.len() ==> text::less(#[trigger] list[i].0, #[trigger] list[j].0)
}

/// An entry of an ordered list is what looking up its name finds.
pub proof fn lemma_lookup_index<V>(list: Seq<(Seq<char>, V)>, i: int)
    requires
        in_order(list),
        0 <= i < list.len(),
    ensures
        lookup(list, list[i].0) == Some(list[i].1),
    decreases list.len(),
{
    if i < list.len() - 1 {
        text::lemma_less_irreflexive(list[i].0);
        assert(text::less(list[i].0, list[list.len() - 1].0));
        assert(list.drop_last()[i] == list[i]);
        lemma_lookup_index(list.drop_last(), i);
    }
}

/// What looking up finds stands in the list under that name.
pub proof fn lemma_lookup_found<V>(list: Seq<(Seq<char>, V)>, name: Seq<char>)
    ensures
        match lookup(list, name) {
            Some(v) => list.contains((name, v)),
            None => forall|i: int| 0 <= i < list.len() ==> (#[trigger] list[i]).0 != name,
        },
    decreases list.len(),
{
    if list.len() > 0 {
        lemma_lookup_found(list.drop_last(), name);
        let front = list.drop_last();
        if list.last().0 == name {
            assert(list[list.len() - 1] == (name, list.last().1));
        } else {
            match lookup(front, name) {
                Some(v) => {
                    let i = choose|i: int| 0 <= i < front.len() && front[i] == (name, v);
                    assert(list[i] == (name, v));
                },
                None => {
                    assert forall|i: int| 0 <= i < list.len() implies (#[trigger] list[i]).0
                        != name by {
                        if i < front.len() {
                            assert(front[i] == list[i]);
                        }
                    }
                },
            }
        }
    }
}

/// Putting an entry keeps the order, and adds no other name.
pub proof fn lemma_put_order<V>(list: Seq<(Seq<char>, V)>, name: Seq<char>, value: V)
    requires
        in_order(list),
    ensures
        in_order(put(list, name, value)),
        forall|i: int|
            0 <= i < put(list, name, value).len() ==> (#[trigger] put(list, name, value)[i]).0
                == name || exists|j: int| 0 <= j < list.len() && list[j] == put(list, name, value)[i],
    decreases list.len(),
{
    let r = put(list, name, value);
    if list.len() > 0 {
        let front = list.drop_last();
        assert forall|i: int, j: int| 0 <= i < j < front.len() implies text::less(
            #[trigger] front[i].0,
            #[trigger] front[j].0,
        ) by {
            assert(front[i] == list[i] && front[j] == list[j]);
        }
        lemma_put_order(front, name, value);
        let last = list.last();
        if last.0 == name {
            assert forall|i: int| 0 <= i < r.len() implies (#[trigger] r[i]).0 == name || exists|
                j: int,
            |
                0 <= j < list.len() && list[j] == r[i] by {
                if i < front.len() {
                    assert(list[i] == r[i]);
                }
            }
            assert forall|i: int, j: int| 0 <= i < j < r.len() implies text::less(
                #[trigger] r[i].0,
                #[trigger] r[j].0,
            ) by {
                assert(r[i].0 == list[i].0 && r[j].0 == list[j].0);
            }
        } else if text::less(last.0, name) {
            assert forall|i: int| 0 <= i < r.len() implies (#[trigger] r[i]).0 == name || exists|
                j: int,
            |
                0 <= j < list.len() && list[j] == r[i] by {
                if i < list.len() {
                    assert(list[i] == r[i]);
                }
            }
            assert forall|i: int, j: int| 0 <= i < j < r.len() implies text::less(
                #[trigger] r[i].0,
                #[trigger] r[j].0,
            ) by {
                assert(r[i] == list[i]);
                if j < list.len() {
                    assert(r[j] == list[j]);
                } else if i < list.len() - 1 {
                    assert(text::less(list[i].0, list[list.len() - 1].0));
                    text::lemma_less_transitive(list[i].0, last.0, name);
                }
            }
        } else {
            text::lemma_less_total(last.0, name);
            let shorter = put(front, name, value);
            assert forall|i: int| 0 <= i < r.len() implies (#[trigger] r[i]).0 == name || exists|
                j: int,
            |
                0 <= j < list.len() && list[j] == r[i] by {
                if i < shorter.len() {
                    assert(shorter[i] == r[i]);
                    if r[i].0 != name {
                        let j = choose|j: int| 0 <= j < front.len() && front[j] == shorter[i];
                        assert(list[j] == r[i]);
                    }
                } else {
                    assert(list[list.len() - 1] == r[i]);
                }
            }
            assert forall|i: int, j: int| 0 <= i < j < r.len() implies text::less(
                #[trigger] r[i].0,
                #[trigger] r[j].0,
            ) by {
                assert(shorter[i] == r[i]);
                if j < shorter.len() {
                    assert(shorter[j] == r[j]);
                } else if r[i].0 != name {
                    let k = choose|k: int| 0 <= k < front.len() && front[k] == shorter[i];
                    assert(list[k] == r[i]);
                    assert(text::less(list[k].0, list[list.len() - 1].0));
                }
            }
        }
    }
}

/// What was put is what a lookup then finds; other names are found as before.
pub proof fn lemma_put_lookup<V>(
    list: Seq<(Seq<char>, V)>,
    name: Seq<char>,
    value: V,
    other: Seq<char>,
)
    requires
        in_order(list),
    ensures
        lookup(put(list, name, value), name) == Some(value),
        other != name ==> lookup(put(list, name, value), other) == lookup(list, other),
    decreases list.len(),
{
    let r = put(list, name, value);
    assert(r.len() > 0);
    if list.len() > 0 {
        let front = list.drop_last();
        assert forall|i: int, j: int| 0 <= i < j < front.len() implies text::less(
            #[trigger] front[i].0,
            #[trigger] front[j].0,
        ) by {
            assert(front[i] == list[i] && front[j] == list[j]);
        }
        lemma_put_lookup(front, name, value, other);
        if list.last().0 == name {
            assert(r.drop_last() =~= front);
        } else if text::less(list.last().0, name) {
            assert(r.drop_last() =~= list);
        } else {
            assert(r.drop_last() =~= put(front, name, value));
        }
    } else {
        assert(r.drop_last() =~= list);
    }
}

/// Keeping some entries keeps their order.
pub proof fn lemma_keep_order<V>(list: Seq<(Seq<char>, V)>, passes: spec_fn(Seq<char>) -> bool)
    requires
        in_order(list),
    ensures
        in_order(keep(list, passes)),
        forall|i: int|
            0 <= i < keep(list, passes).len() ==> passes((#[trigger] keep(list, passes)[i]).0)
                && list.contains(keep(list, passes)[i]),
    decreases list.len(),
{
    let r = keep(list, passes);
    if list.len() > 0 {
        let front = list.drop_last();
        let shorter = keep(front, passes);
        assert forall|i: int, j: int| 0 <= i < j < front.len() implies text::less(
            #[trigger] front[i].0,
            #[trigger] front[j].0,
        ) by {
            assert(front[i] == list[i] && front[j] == list[j]);
        }
        lemma_keep_order(front, passes);
        assert forall|i: int| 0 <= i < r.len() implies passes((#[trigger] r[i]).0) && list.contains(
            r[i],
        ) by {
            if i < shorter.len() {
                assert(shorter[i] == r[i]);
                let k = choose|k: int| 0 <= k < front.len() && front[k] == shorter[i];
                assert(list[k] == r[i]);
            } else {
                assert(list[list.len() - 1] == r[i]);
            }
        }
        assert forall|i: int, j: int| 0 <= i < j < r.len() implies text::less(
            #[trigger] r[i].0,
            #[trigger] r[j].0,
        ) by {
            assert(shorter[i] == r[i]);
            if j < shorter.len() {
                assert(shorter[j] == r[j]);
            } else {
                let k = choose|k: int| 0 <= k < front.len() && front[k] == shorter[i];
                assert(list[k] == r[i]);
                assert(text::less(list[k].0, list[list.len() - 1].0));
            }
        }
    }
}

/// A kept list finds the names that pass, as before, and no others.
pub proof fn lemma_keep_lookup<V>(
    list: Seq<(Seq<char>, V)>,
    passes: spec_fn(Seq<char>) -> bool,
    name: Seq<char>,
)
    ensures
        lookup(keep(list, passes), name) == (if passes(name) {
            lookup(list, name)
        } else {
            None
        }),
    decreases list.len(),
{
    if list.len() > 0 {
        let front = list.drop_last();
        lemma_keep_lookup(front, passes, name);
        if passes(list.last().0) {
            assert(keep(list, passes).drop_last() =~= keep(front, passes));
        }
    }
}

/// Keeping twice by the same test keeps no less than keeping once.
pub proof fn lemma_keep_twice<V>(list: Seq<(Seq<char>, V)>, passes: spec_fn(Seq<char>) -> bool)
    ensures
        keep(keep(list, passes), passes) == keep(list, passes),
    decreases list.len(),
{
    if list.len() > 0 {
        let front = list.drop_last();
        lemma_keep_twice(front, passes);
        if passes(list.last().0) {
            assert(keep(list, passes).drop_last() =~= keep(front, passes));
        }
    }
}

/// Putting what is already there changes nothing.
pub proof fn lemma_put_same<V>(list: Seq<(Seq<char>, V)>, name: Seq<char>, value: V)
    requires
        in_order(list),
        lookup(list, name) == Some(value),
    ensures
        put(list, name, value) == list,
    decreases list.len(),
{
    if list.len() > 0 {
        let front = list.drop_last();
        lemma_front_order(list);
        assert(front.push(list.last()) =~= list);
        if list.last().0 != name {
            lemma_lookup_found(front, name);
            let k = choose|k: int| 0 <= k < front.len() && front[k] == (name, value);
            assert(text::less(list[k].0, list[list.len() - 1].0));
            text::lemma_less_irreflexive(name);
            if text::less(list.last().0, name) {
                text::lemma_less_transitive(name, list.last().0, name);
            }
            lemma_put_same(front, name, value);
        }
    }
}

/// The start of an ordered list is ordered.
pub proof fn lemma_front_order<V>(list: Seq<(Seq<char>, V)>)
    requires
        in_order(list),
        list.len() > 0,
    ensures
        in_order(list.drop_last()),
{
    let front = list.drop_last();
    assert forall|i: int, j: int| 0 <= i < j < front.len() implies text::less(
        #[trigger] front[i].0,
        #[trigger] front[j].0,
    ) by {
        assert(front[i] == list[i] && front[j] == list[j]);
    }
}

/// Keeping commutes with putting an entry that passes, and undoes putting one
/// that does not.
pub proof fn lemma_keep_put<V>(
    list: Seq<(Seq<char>, V)>,
    passes: spec_fn(Seq<char>) -> bool,
    name: Seq<char>,
    value: V,
)
    requires
        in_order(list),
    ensures
        keep(put(list, name, value), passes) == (if passes(name) {
            put(keep(list, passes), name, value)
        } else {
            keep(list, passes)
        }),
    decreases list.len(),
{
    let r = put(list, name, value);
    if list.len() == 0 {
        assert(r.drop_last() =~= list);
        assert(keep(r.drop_last(), passes) =~= list);
        assert(keep(r, passes) =~= (if passes(name) {
            r
        } else {
            list
        }));
    } else {
        let front = list.drop_last();
        let last = list.last();
        lemma_front_order(list);
        lemma_keep_put(front, passes, name, value);
        if last.0 == name {
            assert(r.drop_last() =~= front);
            if passes(name) {
                assert(keep(list, passes).drop_last() =~= keep(front, passes));
            }
        } else if text::less(last.0, name) {
            assert(r.drop_last() =~= list);
            if passes(name) {
                lemma_keep_order(list, passes);
                lemma_put_after(keep(list, passes), name, value, list);
            }
        } else {
            assert(r.drop_last() =~= put(front, name, value));
            if passes(name) && passes(last.0) {
                let k = keep(list, passes);
                assert(k.drop_last() =~= keep(front, passes));
            }
        }
    }
}

/// Putting a name that comes after all others adds it at the end.
proof fn lemma_put_after<V>(
    list: Seq<(Seq<char>, V)>,
    name: Seq<char>,
    value: V,
    whole: Seq<(Seq<char>, V)>,
)
    requires
        in_order(whole),
        whole.len() > 0,
        text::less(whole.last().0, name),
        forall|i: int| 0 <= i < list.len() ==> whole.contains(#[trigger] list[i]),
    ensures
        put(list, name, value) == list.push((name, value)),
{
    if list.len() > 0 {
        let n = list.len() - 1;
        assert(whole.contains(list[n]));
        let k = choose|k: int| 0 <= k < whole.len() && whole[k] == list[n];
        if k < whole.len() - 1 {
            assert(text::less(whole[k].0, whole[whole.len() - 1].0));
            text::lemma_less_transitive(whole[k].0, whole.last().0, name);
        }
        text::lemma_less_irreflexive(name);
    } else {
        assert(put(list, name, value) =~= list.push((name, value)));
    }
}

/// A map from names to values.
#[derive(Debug)]
pub struct NameMap<T: View> {
    entries: Vec<(String, T)>,
}

/// What a list of entries holds.
pub open spec fn entries_view<T: View>(entries: Seq<(String, T)>) -> Seq<(Seq<char>, T::V)> {
    Seq::new(entries.len(), |i: int| (entries[i].0@, entries[i].1@))
}

impl<T: View> View for NameMap<T> {
    type V = Seq<(Seq<char>, T::V)>;

    closed spec fn view(&self) -> Seq<(Seq<char>, T::V)> {
        entries_view(self.entries@)
    }
}

impl<T: View> NameMap<T> {
    #[verifier::type_invariant]
    spec fn ordered(self) -> bool {
        in_order(entries_view(self.entries@))
    }

    /// The map without entries.
    pub fn new() -> (r: Self)
        ensures
            r@ == Seq::<(Seq<char>, T::V)>::empty(),
    {
        let entries: Vec<(String, T)> = Vec::new();
        proof {
            assert(entries_view(entries@) =~= Seq::<(Seq<char>, T::V)>::empty());
        }
        NameMap { entries }
    }

    /// How many names there are.
    pub fn len(&self) -> (n: usize)
        ensures
            n == self@.len(),
    {
        self.entries.len()
    }

    /// Whether there are no names.
    pub fn is_empty(&self) -> (b: bool)
        ensures
            b == (self@.len() == 0),
    {
        self.entries.len() == 0
    }

    /// The entry at index `i` in the order of names.
    pub fn entry(&self, i: usize) -> (r: (&String, &T))
        requires
            i < self@.len(),
        ensures
            r.0@ == self@[i as int].0,
            r.1@ == self@[i as int].1,
            in_order(self@),
    {
        proof {
            use_type_invariant(self);
        }
        (&self.entries[i].0, &self.entries[i].1)
    }

    /// The names, in order.
    pub fn names(&self) -> (r: Vec<String>)
        ensures
            text::views(r@) == self@.map_values(|e: (Seq<char>, T::V)| e.0),
            in_order(self@),
    {
        proof {
            use_type_invariant(self);
        }
        let ghost all = self@.map_values(|e: (Seq<char>, T::V)| e.0);
        let mut r: Vec<String> = Vec::new();
        let mut i: usize = 0;
        while i < self.entries.len()
            invariant
                i <= self.entries@.len(),
                all == self@.map_values(|e: (Seq<char>, T::V)| e.0),
                text::views(r@) == all.take(i as int),
            decreases self.entries@.len() - i,
        {
            let ghost before = text::views(r@);
            r.push(self.entries[i].0.clone());
            proof {
                assert(all[i as int] == self.entries@[i as int].0@);
                assert(text::views(r@) =~= before.push(all[i as int]));
                assert(all.take(i + 1) =~= before.push(all[i as int]));
            }
            i += 1;
        }
        proof {
            assert(all.take(all.len() as int) =~= all);
        }
        r
    }

    /// The value under `name`.
    pub fn get(&self, name: &str) -> (r: Option<&T>)
        ensures
            match r {
                Some(v) => lookup(self@, name@) == Some(v@),
                None => lookup(self@, name@) is None,
            },
            in_order(self@),
    {
        proof {
            use_type_invariant(self);
        }
        let ghost all = self@;
        let mut i: usize = self.entries.len();
        proof {
            assert(all.take(all.len() as int) =~= all);
        }
        while i > 0
            invariant
                i <= self.entries@.len(),
                all == entries_view(self.entries@),
                all == self@,
                in_order(self@),
                lookup(all, name@) == lookup(all.take(i as int), name@),
            decreases i,
        {
            i -= 1;
            proof {
                assert(all.take(i + 1).drop_last() =~= all.take(i as int));
                assert(all.take(i + 1).last() == all[i as int]);
            }
            if text::same(self.entries[i].0.as_str(), name) {
                return Some(&self.entries[i].1);
            }
        }
        None
    }

    /// Lists `value` under `name`, in place of what stood there.
    pub fn insert(&mut self, name: &str, value: T)
        ensures
            final(self)@ == put(old(self)@, name@, value@),
            in_order(final(self)@),
    {
        proof {
            use_type_invariant(&*self);
        }
        let ghost all = self@;
        let ghost held = value@;
        proof {
            lemma_put_order(all, name@, held);
        }
        let mut i: usize = self.entries.len();
        proof {
            assert(all.take(all.len() as int) =~= all);
            assert(put(all, name@, held) =~= put(all.take(i as int), name@, held) + all.skip(
                i as int,
            ));
        }
        let mut found = false;
        while i > 0 && !found
            invariant
                i <= self.entries@.len(),
                *self == *old(self),
                all == entries_view(self.entries@),
                !found ==> put(all, name@, held) == put(all.take(i as int), name@, held)
                    + all.skip(i as int),
                found ==> i > 0 && put(all, name@, held) == (if all[i - 1].0 == name@ {
                    all.take(i - 1).push((name@, held)) + all.skip(i as int)
                } else {
                    all.take(i as int).push((name@, held)) + all.skip(i as int)
                }),
            decreases i + (if found { 0int } else { 1int }),
        {
            let ghost front = all.take(i as int);
            proof {
                assert(front.drop_last() =~= all.take(i - 1));
                assert(front.last() == all[i - 1]);
            }
            if text::same(self.entries[i - 1].0.as_str(), name) || text::is_less(
                self.entries[i - 1].0.as_str(),
                name,
            ) {
                found = true;
            } else {
                proof {
                    let shorter = put(front.drop_last(), name@, held);
                    assert(shorter.push(front.last()) + all.skip(i as int) =~= shorter + all.skip(
                        i - 1,
                    ));
                }
                i -= 1;
            }
        }
        let replace = i > 0 && text::same(self.entries[i - 1].0.as_str(), name);
        let mut entries: Vec<(String, T)> = Vec::new();
        std::mem::swap(&mut entries, &mut self.entries);
        if replace {
            entries.set(i - 1, (name.to_owned(), value));
            proof {
                assert(entries_view(entries@) =~= all.take(i - 1).push((name@, held)) + all.skip(
                    i as int,
                ));
            }
        } else {
            entries.insert(i, (name.to_owned(), value));
            proof {
                if i == 0 {
                    assert(put(all.take(0), name@, held) =~= seq![(name@, held)]);
                }
                assert(entries_view(entries@) =~= all.take(i as int).push((name@, held))
                    + all.skip(i as int));
                assert(all.take(0).push((name@, held)) =~= seq![(name@, held)]);
            }
        }
        self.entries = entries;
    }
}

} // verus!
