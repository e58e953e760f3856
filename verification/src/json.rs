//! JSON values, and what they hold as mathematical values.

use vstd::prelude::*;

use crate::names;
use crate::text;

verus! {

/// A JSON value. An object lists its members in the order of their names, each
/// name once. A number is kept as it is written.
#[derive(Debug, PartialEq)]
pub enum Json {
    Null,
    Bool(bool),
    Number(String),
    Str(String),
    Array(Vec<Json>),
    Object(Vec<(String, Json)>),
}

/// What a JSON value holds.
#[verifier::ext_equal]
pub enum JsonView {
    Null,
    Bool(bool),
    Number(Seq<char>),
    Str(Seq<char>),
    Array(Seq<JsonView>),
    Object(Seq<(Seq<char>, JsonView)>),
}

impl View for Json {
    type V = JsonView;

    open spec fn view(&self) -> JsonView {
        self.value()
    }
}

impl Json {
    pub open spec fn value(self) -> JsonView
        decreases self,
    {
        match self {
            Json::Null => JsonView::Null,
            Json::Bool(b) => JsonView::Bool(b),
            Json::Number(n) => JsonView::Number(n@),
            Json::Str(s) => JsonView::Str(s@),
            Json::Array(items) => JsonView::Array(
                Seq::new(
                    items@.len(),
                    |i: int|
                        if 0 <= i < items@.len() {
                            items@[i].value()
                        } else {
                            JsonView::Null
                        },
                ),
            ),
            Json::Object(members) => JsonView::Object(
                Seq::new(
                    members@.len(),
                    |i: int|
                        if 0 <= i < members@.len() {
                            (members@[i].0@, members@[i].1.value())
                        } else {
                            (Seq::empty(), JsonView::Null)
                        },
                ),
            ),
        }
    }
}

/// What the members of an object hold.
pub open spec fn members_view(members: Seq<(String, Json)>) -> Seq<(Seq<char>, JsonView)> {
    Seq::new(members.len(), |i: int| (members[i].0@, members[i].1@))
}

/// What the items of an array hold.
pub open spec fn items_view(items: Seq<Json>) -> Seq<JsonView> {
    Seq::new(items.len(), |i: int| items[i]@)
}

pub proof fn lemma_object_view(members: Vec<(String, Json)>)
    ensures
        Json::Object(members)@ == JsonView::Object(members_view(members@)),
{
    let shown = Json::Object(members)@->Object_0;
    assert(shown =~= members_view(members@));
}

pub proof fn lemma_array_view(items: Vec<Json>)
    ensures
        Json::Array(items)@ == JsonView::Array(items_view(items@)),
{
    let shown = Json::Array(items)@->Array_0;
    assert(shown =~= items_view(items@));
}

impl JsonView {
    /// The member called `key`, of an object that has one.
    pub open spec fn get(self, key: Seq<char>) -> Option<JsonView> {
        match self {
            JsonView::Object(members) => names::lookup(members, key),
            _ => None,
        }
    }

    /// The text of a string.
    pub open spec fn text(self) -> Option<Seq<char>> {
        match self {
            JsonView::Str(s) => Some(s),
            _ => None,
        }
    }

    /// The text of the member called `key`, where it is a string.
    pub open spec fn get_text(self, key: Seq<char>) -> Option<Seq<char>> {
        match self.get(key) {
            Some(v) => v.text(),
            None => None,
        }
    }

    /// An object with `key` set to `value`; any other value as it is.
    pub open spec fn put(self, key: Seq<char>, value: JsonView) -> JsonView {
        match self {
            JsonView::Object(members) => JsonView::Object(names::put(members, key, value)),
            _ => self,
        }
    }

    /// The object without members.
    pub open spec fn object() -> JsonView {
        JsonView::Object(Seq::empty())
    }

    /// A string, or null for none.
    pub open spec fn optional(s: Option<Seq<char>>) -> JsonView {
        match s {
            Some(t) => JsonView::Str(t),
            None => JsonView::Null,
        }
    }
}

impl Clone for Json {
    fn clone(&self) -> (r: Self)
        ensures
            r@ == self@,
        decreases self,
    {
        match self {
            Json::Null => Json::Null,
            Json::Bool(b) => Json::Bool(*b),
            Json::Number(n) => Json::Number(n.clone()),
            Json::Str(s) => Json::Str(s.clone()),
            Json::Array(items) => {
                let mut copy: Vec<Json> = Vec::new();
                let mut i: usize = 0;
                while i < items.len()
                    invariant
                        *self == Json::Array(*items),
                        i <= items@.len(),
                        items_view(copy@) == items_view(items@).take(i as int),
                    decreases items@.len() - i,
                {
                    let ghost before = items_view(copy@);
                    proof {
                        assert(decreases_to!(*self => self->Array_0));
                        assert(decreases_to!(*items => items@));
                        assert(decreases_to!(items@ => items@[i as int]));
                    }
                    copy.push(items[i].clone());
                    proof {
                        assert(items_view(copy@) =~= before.push(items@[i as int]@));
                        assert(items_view(items@).take(i + 1) =~= before.push(items@[i as int]@));
                    }
                    i += 1;
                }
                proof {
                    assert(items_view(copy@) =~= items_view(items@));
                    lemma_array_view(copy);
                    lemma_array_view(*items);
                }
                Json::Array(copy)
            },
            Json::Object(members) => {
                let mut copy: Vec<(String, Json)> = Vec::new();
                let mut i: usize = 0;
                while i < members.len()
                    invariant
                        *self == Json::Object(*members),
                        i <= members@.len(),
                        members_view(copy@) == members_view(members@).take(i as int),
                    decreases members@.len() - i,
                {
                    let ghost before = members_view(copy@);
                    let ghost item = (members@[i as int].0@, members@[i as int].1@);
                    proof {
                        assert(decreases_to!(*self => self->Object_0));
                        assert(decreases_to!(*members => members@));
                        assert(decreases_to!(members@ => members@[i as int]));
                        assert(decreases_to!(members@[i as int] => members@[i as int].1));
                    }
                    copy.push((members[i].0.clone(), members[i].1.clone()));
                    proof {
                        assert(members_view(copy@) =~= before.push(item));
                        assert(members_view(members@).take(i + 1) =~= before.push(item));
                    }
                    i += 1;
                }
                proof {
                    assert(members_view(copy@) =~= members_view(members@));
                    lemma_object_view(copy);
                    lemma_object_view(*members);
                }
                Json::Object(copy)
            },
        }
    }
}

impl Json {
    /// The object without members.
    pub fn object() -> (r: Json)
        ensures
            r@ == JsonView::object(),
    {
        let r = Json::Object(Vec::new());
        proof {
            assert(r@->Object_0 =~= Seq::empty());
        }
        r
    }

    /// A string.
    pub fn string(s: &str) -> (r: Json)
        ensures
            r@ == JsonView::Str(s@),
    {
        Json::Str(s.to_owned())
    }

    /// A string, or null for none.
    pub fn optional(s: &Option<String>) -> (r: Json)
        ensures
            r@ == JsonView::optional(text::opt_view(*s)),
    {
        match s {
            Some(t) => Json::Str(t.clone()),
            None => Json::Null,
        }
    }

    /// A whole number.
    pub fn integer(n: i64) -> (r: Json)
        ensures
            r@ == JsonView::Number(text::decimal(n as int)),
    {
        Json::Number(text::decimal_text(n))
    }

    /// The text of a string.
    pub fn as_str(&self) -> (r: Option<&str>)
        ensures
            match r {
                Some(s) => self@.text() == Some(s@),
                None => self@.text() is None,
            },
    {
        match self {
            Json::Str(s) => Some(s.as_str()),
            _ => None,
        }
    }

    /// The value of the member called `key`, of an object that has one.
    pub fn get(&self, key: &str) -> (r: Option<&Json>)
        ensures
            match r {
                Some(v) => self@.get(key@) == Some(v@),
                None => self@.get(key@) is None,
            },
    {
        match self {
            Json::Object(members) => {
                let ghost all = members_view(members@);
                let mut i: usize = members.len();
                proof {
                    lemma_object_view(*members);
                    assert(all.take(all.len() as int) =~= all);
                }
                while i > 0
                    invariant
                        i <= members@.len(),
                        all == members_view(members@),
                        self@ == JsonView::Object(all),
                        names::lookup(all, key@) == names::lookup(all.take(i as int), key@),
                    decreases i,
                {
                    i -= 1;
                    proof {
                        assert(all.take(i + 1).drop_last() =~= all.take(i as int));
                        assert(all.take(i + 1).last() == all[i as int]);
                    }
                    if text::same(members[i].0.as_str(), key) {
                        return Some(&members[i].1);
                    }
                }
                None
            },
            _ => None,
        }
    }

    /// The text of the member called `key`, where it is a string.
    pub fn get_str(&self, key: &str) -> (r: Option<&str>)
        ensures
            match r {
                Some(s) => self@.get_text(key@) == Some(s@),
                None => self@.get_text(key@) is None,
            },
    {
        match self.get(key) {
            Some(v) => v.as_str(),
            None => None,
        }
    }

    /// Sets the member called `key` of an object.
    pub fn put(self, key: &str, value: Json) -> (r: Json)
        ensures
            r@ == self@.put(key@, value@),
    {
        match self {
            Json::Object(list) => {
                let mut members = list;
                let ghost all = members_view(members@);
                let ghost held = value@;
                let mut i: usize = members.len();
                proof {
                    lemma_object_view(list);
                    assert(all.take(all.len() as int) =~= all);
                    assert(names::put(all, key@, held) =~= names::put(all.take(i as int), key@, held) + all.skip(
                        i as int,
                    ));
                }
                while i > 0
                    invariant
                        i <= members@.len(),
                        all == members_view(members@),
                        members@ == list@,
                        value@ == held,
                        self@ == JsonView::Object(all),
                        names::put(all, key@, held) == names::put(all.take(i as int), key@, held) + all.skip(
                            i as int,
                        ),
                    decreases i,
                {
                    let ghost front = all.take(i as int);
                    proof {
                        assert(front.drop_last() =~= all.take(i - 1));
                        assert(front.last() == all[i - 1]);
                    }
                    if text::same(members[i - 1].0.as_str(), key) {
                        members.set(i - 1, (key.to_owned(), value));
                        proof {
                            assert(members_view(members@) =~= front.drop_last().push((key@, held))
                                + all.skip(i as int));
                            lemma_object_view(members);
                        }
                        return Json::Object(members);
                    }
                    if text::is_less(members[i - 1].0.as_str(), key) {
                        members.insert(i, (key.to_owned(), value));
                        proof {
                            assert(members_view(members@) =~= front.push((key@, held)) + all.skip(
                                i as int,
                            ));
                            lemma_object_view(members);
                        }
                        return Json::Object(members);
                    }
                    proof {
                        let shorter = names::put(front.drop_last(), key@, held);
                        assert(shorter.push(front.last()) + all.skip(i as int) =~= shorter
                            + all.skip(i - 1));
                    }
                    i -= 1;
                }
                members.insert(0, (key.to_owned(), value));
                proof {
                    assert(names::put(all.take(0), key@, held) =~= seq![(key@, held)]);
                    assert(members_view(members@) =~= seq![(key@, held)] + all.skip(0));
                    lemma_object_view(members);
                }
                Json::Object(members)
            },
            other => other,
        }
    }
}

/// A copy of the members of an object.
pub fn copy_members(members: &Vec<(String, Json)>) -> (r: Vec<(String, Json)>)
    ensures
        members_view(r@) == members_view(members@),
{
    let mut r: Vec<(String, Json)> = Vec::new();
    let mut i: usize = 0;
    while i < members.len()
        invariant
            i <= members@.len(),
            members_view(r@) == members_view(members@).take(i as int),
        decreases members@.len() - i,
    {
        let ghost before = members_view(r@);
        let ghost item = members_view(members@)[i as int];
        r.push((members[i].0.clone(), members[i].1.clone()));
        proof {
            assert(members_view(r@) =~= before.push(item));
            assert(members_view(members@).take(i + 1) =~= before.push(item));
        }
        i += 1;
    }
    proof {
        assert(members_view(r@) =~= members_view(members@));
    }
    r
}

/// Leaves out the members whose name does not pass `keep`, which decides as
/// `passes` does.
pub fn retain<F: Fn(&String) -> bool>(
    members: &Vec<(String, Json)>,
    keep: F,
    Ghost(passes): Ghost<spec_fn(Seq<char>) -> bool>,
) -> (r: Vec<(String, Json)>)
    requires
        forall|k: &String| call_requires(keep, (k,)),
        forall|k: &String, b: bool| call_ensures(keep, (k,), b) ==> b == passes(k@),
    ensures
        members_view(r@) == names::keep(members_view(members@), passes),
{
    let ghost all = members_view(members@);
    let mut r: Vec<(String, Json)> = Vec::new();
    let mut i: usize = 0;
    proof {
        assert(members_view(r@) =~= names::keep(all.take(0), passes));
    }
    while i < members.len()
        invariant
            i <= members@.len(),
            all == members_view(members@),
            members_view(r@) == names::keep(all.take(i as int), passes),
            forall|k: &String| call_requires(keep, (k,)),
            forall|k: &String, b: bool| call_ensures(keep, (k,), b) ==> b == passes(k@),
        decreases members@.len() - i,
    {
        let ghost before = members_view(r@);
        proof {
            assert(all.take(i + 1).drop_last() =~= all.take(i as int));
            assert(all.take(i + 1).last() == all[i as int]);
        }
        if keep(&members[i].0) {
            r.push((members[i].0.clone(), members[i].1.clone()));
            proof {
                assert(members_view(r@) =~= before.push(all[i as int]));
            }
        }
        i += 1;
    }
    proof {
        assert(all.take(all.len() as int) =~= all);
    }
    r
}

/// Setting a member of an object in order gives it that value, leaves every other
/// member as it is, and keeps the order.
pub proof fn law_put_get(object: JsonView, key: Seq<char>, value: JsonView, other: Seq<char>)
    requires
        object matches JsonView::Object(m) && names::in_order(m),
    ensures
        object.put(key, value) matches JsonView::Object(m) && names::in_order(m),
        object.put(key, value).get(key) == Some(value),
        other != key ==> object.put(key, value).get(other) == object.get(other),
{
    names::lemma_put_lookup(object->Object_0, key, value, other);
    names::lemma_put_order(object->Object_0, key, value);
}

/// An object without members has none, and only a text has a text.
pub proof fn law_plain_values(key: Seq<char>, s: Seq<char>, value: JsonView)
    ensures
        JsonView::object().get(key) is None,
        JsonView::Str(s).text() == Some(s),
        value.text() is Some ==> value is Str,
        value.get(key) is Some ==> value is Object,
        JsonView::optional(Some(s)) == JsonView::Str(s),
        JsonView::optional(None) == JsonView::Null,
        value.get(key) == Some(JsonView::Str(s)) ==> value.get_text(key) == Some(s),
        value.get_text(key) is Some ==> value.get(key) is Some,
{
}

/// An object whose members are in order.
pub open spec fn is_ordered(value: JsonView) -> bool {
    value matches JsonView::Object(m) && names::in_order(m)
}

/// Members that are set one after the other are all found again.
pub proof fn lemma_puts()
    ensures
        is_ordered(JsonView::object()),
        forall|o: JsonView, key: Seq<char>, value: JsonView|
            is_ordered(o) ==> is_ordered(#[trigger] o.put(key, value)),
        forall|o: JsonView, key: Seq<char>, value: JsonView, other: Seq<char>|
            is_ordered(o) ==> #[trigger] o.put(key, value).get(other) == (if other == key {
                Some(value)
            } else {
                o.get(other)
            }),
{
    assert forall|o: JsonView, key: Seq<char>, value: JsonView| is_ordered(o) implies is_ordered(
        #[trigger] o.put(key, value),
    ) by {
        law_put_get(o, key, value, key);
    }
    assert forall|o: JsonView, key: Seq<char>, value: JsonView, other: Seq<char>|
        is_ordered(o) implies #[trigger] o.put(key, value).get(other) == (if other == key {
        Some(value)
    } else {
        o.get(other)
    }) by {
        law_put_get(o, key, value, other);
    }
}

} // verus!
