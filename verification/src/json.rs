//! JSON documents as the agent reads them: the values stored in Redis and
//! the answers of the container metrics service.
use vstd::prelude::*;

use crate::text::{strings_view, text_eq};

verus! {

/// A JSON value. A number keeps the text of its decimal form; an object keeps
/// its members in order.
pub enum JsonValue {
    Null,
    Bool(bool),
    Number(String),
    Str(String),
    Array(Vec<JsonValue>),
    Object(Vec<(String, JsonValue)>),
}

/// The value of the first member named `key`, if there is one.
pub open spec fn member_spec(members: Seq<(String, JsonValue)>, key: Seq<char>) -> Option<JsonValue>
    decreases members.len(),
{
    if members.len() == 0 {
        None
    } else if members[0].0@ == key {
        Some(members[0].1)
    } else {
        member_spec(members.drop_first(), key)
    }
}

/// `v[key]`: the member `key` of an object, and `null` where `v` is no object
/// or has no such member.
pub open spec fn json_index(v: JsonValue, key: Seq<char>) -> JsonValue {
    match v {
        JsonValue::Object(members) => match member_spec(members@, key) {
            Some(x) => x,
            None => JsonValue::Null,
        },
        _ => JsonValue::Null,
    }
}

/// The text of a JSON string, and `None` for any other value.
pub open spec fn json_text(v: JsonValue) -> Option<Seq<char>> {
    match v {
        JsonValue::Str(s) => Some(s@),
        _ => None,
    }
}

/// The elements of a JSON array, and `None` for any other value.
pub open spec fn json_items(v: JsonValue) -> Option<Seq<JsonValue>> {
    match v {
        JsonValue::Array(items) => Some(items@),
        _ => None,
    }
}

/// Every value is a string.
pub open spec fn all_texts(values: Seq<JsonValue>) -> bool {
    forall|j: int| 0 <= j < values.len() ==> (#[trigger] json_text(values[j])) is Some
}

/// The texts of an array of strings, and none where `v` is no array.
pub open spec fn text_items_spec(v: JsonValue) -> Seq<Seq<char>> {
    match json_items(v) {
        Some(items) => Seq::new(items.len(), |i: int| json_text(items[i])->0),
        None => Seq::empty(),
    }
}

impl JsonValue {
    /// The member `key` of this object; `None` stands for `null`, where this
    /// is no object or has no such member.
    pub fn get(&self, key: &str) -> (r: Option<&JsonValue>)
        ensures
            r is Some <==> (*self matches JsonValue::Object(members) && member_spec(members@, key@) is Some),
            r matches Some(x) ==> *x == json_index(*self, key@),
            r is None ==> json_index(*self, key@) == JsonValue::Null,
    {
        match self {
            JsonValue::Object(members) => {
                let mut i: usize = 0;
                assert(members@.skip(0) =~= members@);
                while i < members.len()
                    invariant
                        *self == JsonValue::Object(*members),
                        i <= members.len(),
                        member_spec(members@, key@) == member_spec(members@.skip(i as int), key@),
                    decreases members.len() - i,
                {
                    assert(members@.skip(i as int).drop_first() =~= members@.skip(i + 1));
                    assert(members@.skip(i as int)[0] == members@[i as int]);
                    if text_eq(members[i].0.as_str(), key) {
                        assert(member_spec(members@, key@) == Some(members@[i as int].1));
                        return Some(&members[i].1);
                    }
                    i = i + 1;
                }
                None
            },
            _ => None,
        }
    }

    /// The text of this value, if it is a string.
    pub fn as_str(&self) -> (r: Option<&String>)
        ensures
            r matches Some(s) ==> json_text(*self) == Some(s@),
            r is None ==> json_text(*self) is None,
    {
        match self {
            JsonValue::Str(s) => Some(s),
            _ => None,
        }
    }

    /// The elements of this value, if it is an array.
    pub fn as_array(&self) -> (r: Option<&Vec<JsonValue>>)
        ensures
            r matches Some(a) ==> json_items(*self) == Some(a@),
            r is None ==> json_items(*self) is None,
    {
        match self {
            JsonValue::Array(items) => Some(items),
            _ => None,
        }
    }
}

/// The text of `v[key]`, where it is a string.
pub fn text_member(v: &JsonValue, key: &str) -> (r: Option<String>)
    ensures
        r matches Some(s) ==> json_text(json_index(*v, key@)) == Some(s@),
        r is None ==> json_text(json_index(*v, key@)) is None,
{
    match v.get(key) {
        Some(x) => match x.as_str() {
            Some(s) => Some(s.clone()),
            None => None,
        },
        None => None,
    }
}

/// Whether `v` can be read as a list of strings: it is no array, or all its
/// elements are strings.
pub fn text_items_readable(v: &JsonValue) -> (r: bool)
    ensures
        r == (json_items(*v) matches Some(items) ==> all_texts(items)),
{
    match v.as_array() {
        Some(items) => {
            let mut i: usize = 0;
            while i < items.len()
                invariant
                    i <= items.len(),
                    json_items(*v) == Some(items@),
                    forall|j: int| 0 <= j < i ==> (#[trigger] json_text(items@[j])) is Some,
                decreases items.len() - i,
            {
                if items[i].as_str().is_none() {
                    return false;
                }
                i = i + 1;
            }
            true
        },
        None => true,
    }
}

/// The texts of the elements of an array of strings, in order, and none
/// where `v` is no array.
pub fn text_items(v: &JsonValue) -> (r: Vec<String>)
    requires
        json_items(*v) matches Some(items) ==> all_texts(items),
    ensures
        strings_view(r@) == text_items_spec(*v),
{
    let mut r: Vec<String> = Vec::new();
    match v.as_array() {
        Some(items) => {
            let mut i: usize = 0;
            while i < items.len()
                invariant
                    i <= items.len(),
                    all_texts(items@),
                    strings_view(r@) =~= Seq::new(i as nat, |k: int| json_text(items@[k])->0),
                decreases items.len() - i,
            {
                assert(json_text(items@[i as int]) is Some);
                let s = items[i].as_str().unwrap().clone();
                let ghost before = r@;
                r.push(s);
                assert(r@ == before.push(s));
                assert(strings_view(r@) =~= strings_view(before).push(s@));
                i = i + 1;
            }
        },
        None => {},
    }
    r
}

} // verus!
