//! JSON values as the calendar service sends them.
use vstd::prelude::*;

use crate::string_map::{lemma_entry_in_map, lemma_key_has_entry, StringMap};

verus! {

/// A JSON value.
#[derive(Debug)]
pub enum Json {
    Null,
    Bool(bool),
    /// A number that is not negative and has no fraction.
    Unsigned(u64),
    /// A negative number without a fraction.
    Negative(i64),
    /// Any other number, as it is written.
    Float(String),
    Text(String),
    Array(Vec<Json>),
    Object(StringMap<Json>),
}

/// What a JSON value is, apart from how it is kept.
pub enum JsonView {
    Null,
    Bool(bool),
    Unsigned(u64),
    Negative(i64),
    Float(Seq<char>),
    Text(Seq<char>),
    Array(Seq<JsonView>),
    Object(Map<Seq<char>, JsonView>),
}

impl JsonView {
    /// The member `key` of an object; nothing else has members.
    pub open spec fn get(self, key: Seq<char>) -> Option<JsonView> {
        match self {
            JsonView::Object(members) => members.get(key),
            _ => None,
        }
    }

    /// The text of a string; nothing else is one.
    pub open spec fn as_str(self) -> Option<Seq<char>> {
        match self {
            JsonView::Text(text) => Some(text),
            _ => None,
        }
    }

    /// The value of a number that is neither negative nor fractional.
    pub open spec fn as_u64(self) -> Option<u64> {
        match self {
            JsonView::Unsigned(n) => Some(n),
            _ => None,
        }
    }
}

impl Json {
    /// What the value is, apart from how it is kept.
    pub open spec fn model(self) -> JsonView
        decreases self,
        via Self::model_terminates
    {
        match self {
            Json::Null => JsonView::Null,
            Json::Bool(b) => JsonView::Bool(b),
            Json::Unsigned(n) => JsonView::Unsigned(n),
            Json::Negative(n) => JsonView::Negative(n),
            Json::Float(text) => JsonView::Float(text@),
            Json::Text(text) => JsonView::Text(text@),
            Json::Array(items) => JsonView::Array(
                Seq::new(
                    items@.len(),
                    |i: int|
                        if 0 <= i < items@.len() {
                            items[i].model()
                        } else {
                            arbitrary()
                        },
                ),
            ),
            Json::Object(members) => JsonView::Object(
                Map::new(
                    |key: Seq<char>| members@.contains_key(key),
                    |key: Seq<char>|
                        if members@.contains_key(key) {
                            members@[key].model()
                        } else {
                            arbitrary()
                        },
                ),
            ),
        }
    }

    #[via_fn]
    proof fn model_terminates(self) {
        match self {
            Json::Object(members) => {
                assert forall|key: Seq<char>| members@.contains_key(key) implies decreases_to!(
                    self => members@[key]
                ) by {
                    members.lemma_value_decreases(key);
                    assert(decreases_to!(self => members));
                }
            },
            _ => {},
        }
    }
}

impl View for Json {
    type V = JsonView;

    open spec fn view(&self) -> JsonView {
        self.model()
    }
}

impl Json {
    /// The member `key` of an object; nothing else has members.
    pub fn get(&self, key: &str) -> (member: Option<&Json>)
        ensures
            match member {
                Some(value) => self@.get(key@) == Some(value@),
                None => self@.get(key@) is None,
            },
    {
        match self {
            Json::Object(members) => members.get(key),
            _ => None,
        }
    }

    /// The text of a string; nothing else is one.
    pub fn as_str(&self) -> (text: Option<&str>)
        ensures
            match text {
                Some(t) => self@.as_str() == Some(t@),
                None => self@.as_str() is None,
            },
    {
        match self {
            Json::Text(text) => Some(text.as_str()),
            _ => None,
        }
    }

    /// The value of a number that is neither negative nor fractional.
    pub fn as_u64(&self) -> (number: Option<u64>)
        ensures
            number == self@.as_u64(),
    {
        match self {
            Json::Unsigned(n) => Some(*n),
            _ => None,
        }
    }
}

/// What the members of an object are, apart from how they are kept.
pub open spec fn members_view(members: StringMap<Json>) -> Map<Seq<char>, JsonView> {
    members@.map_values(|member: Json| member@)
}

/// A copy of an object's members.
pub fn clone_members(members: &StringMap<Json>) -> (copy: StringMap<Json>)
    ensures
        members_view(copy) == members_view(*members),
    decreases members,
{
    proof {
        use_type_invariant(members);
    }
    let mut entries: Vec<(String, Json)> = Vec::new();
    let mut i: usize = 0;
    while i < members.entries.len()
        invariant
            i <= members.entries@.len(),
            entries@.len() == i,
            forall|k: int|
                0 <= k < i ==> (#[trigger] entries@[k]).0@ == members.entries@[k].0@
                    && entries@[k].1@ == members.entries@[k].1@,
        decreases members.entries@.len() - i,
    {
        let value = members.entries[i].1.clone();
        entries.push((members.entries[i].0.clone(), value));
        i += 1;
    }
    assert forall|j: int, k: int| 0 <= j < k < entries@.len() implies (#[trigger] entries@[j]).0@
        != (#[trigger] entries@[k]).0@ by {
        assert(members.entries@[j].0@ != members.entries@[k].0@);
    }
    let copy = StringMap { entries };
    proof {
        members.lemma_view();
        copy.lemma_view();
        let before = members_view(*members);
        let after = members_view(copy);
        assert forall|key: Seq<char>| after.contains_key(key) == before.contains_key(key) by {
            if after.contains_key(key) {
                let k = lemma_key_has_entry(copy.entries@, key);
                lemma_entry_in_map(members.entries@, k);
            }
            if before.contains_key(key) {
                let k = lemma_key_has_entry(members.entries@, key);
                lemma_entry_in_map(copy.entries@, k);
            }
        }
        assert forall|key: Seq<char>| after.contains_key(key) implies after[key]
            == before[key] by {
            let k = lemma_key_has_entry(copy.entries@, key);
            lemma_entry_in_map(copy.entries@, k);
            lemma_entry_in_map(members.entries@, k);
        }
        assert(after =~= before);
    }
    copy
}

impl Clone for Json {
    fn clone(&self) -> (copy: Json)
        ensures
            copy@ == self@,
        decreases self,
    {
        match self {
            Json::Null => Json::Null,
            Json::Bool(b) => Json::Bool(*b),
            Json::Unsigned(n) => Json::Unsigned(*n),
            Json::Negative(n) => Json::Negative(*n),
            Json::Float(text) => Json::Float(text.clone()),
            Json::Text(text) => Json::Text(text.clone()),
            Json::Array(items) => {
                let mut copies: Vec<Json> = Vec::new();
                let mut i: usize = 0;
                while i < items.len()
                    invariant
                        *self == Json::Array(*items),
                        i <= items@.len(),
                        copies@.len() == i,
                        forall|k: int| 0 <= k < i ==> (#[trigger] copies@[k])@ == items@[k]@,
                    decreases items@.len() - i,
                {
                    assert(decreases_to!(*self => self->Array_0));
                    assert(decreases_to!(items => items[i as int]));
                    let item = items[i].clone();
                    copies.push(item);
                    i += 1;
                }
                let copy = Json::Array(copies);
                assert(copy@->Array_0 =~= self@->Array_0);
                copy
            },
            Json::Object(members) => {
                let copy = Json::Object(clone_members(members));
                assert(copy@->Object_0 =~= members_view(copy->Object_0));
                assert(self@->Object_0 =~= members_view(*members));
                copy
            },
        }
    }
}

// ---------------------------------------------------------------------------
// Laws
// ---------------------------------------------------------------------------

/// A string is read as its characters and a number that is neither negative nor fractional as
/// its value; an object has the members that it holds. Nothing else is read in these ways.
pub proof fn values_are_read_by_their_kind(value: Json, key: Seq<char>)
    ensures
        value matches Json::Text(text) ==> value@.as_str() == Some(text@),
        !(value is Text) ==> value@.as_str() is None,
        value matches Json::Unsigned(n) ==> value@.as_u64() == Some(n),
        !(value is Unsigned) ==> value@.as_u64() is None,
        value matches Json::Object(members) ==> value@.get(key) == if members@.contains_key(key) {
            Some(members@[key]@)
        } else {
            None
        },
        !(value is Object) ==> value@.get(key) is None,
{
}

/// What a value is leaves out nothing that it holds.
pub proof fn values_are_what_they_hold(value: Json)
    ensures
        match value {
            Json::Null => value@ == JsonView::Null,
            Json::Bool(b) => value@ == JsonView::Bool(b),
            Json::Unsigned(n) => value@ == JsonView::Unsigned(n),
            Json::Negative(n) => value@ == JsonView::Negative(n),
            Json::Float(text) => value@ == JsonView::Float(text@),
            Json::Text(text) => value@ == JsonView::Text(text@),
            Json::Array(items) => {
                &&& value@ is Array
                &&& value@->Array_0.len() == items@.len()
                &&& forall|i: int|
                    0 <= i < items@.len() ==> #[trigger] value@->Array_0[i] == items@[i]@
            },
            Json::Object(members) => {
                &&& value@ is Object
                &&& value@->Object_0.dom() =~= members@.dom()
                &&& forall|key: Seq<char>| #[trigger]
                    members@.contains_key(key) ==> value@->Object_0[key] == members@[key]@
            },
        },
{
}

/// The members of an object are the values that the map holds, under the same keys.
pub proof fn members_are_those_of_the_map(members: StringMap<Json>, key: Seq<char>)
    ensures
        members_view(members).contains_key(key) <==> members@.contains_key(key),
        members@.contains_key(key) ==> members_view(members)[key] == members@[key]@,
{
}

} // verus!
