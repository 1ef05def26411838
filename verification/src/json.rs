//! The few reads of a JSON document that config checks make, through
//! `serde_json`.
use vstd::prelude::*;
use crate::text::string_views;

verus! {

#[verifier::external_type_specification]
#[verifier::external_body]
pub struct ExJsonValue(serde_json::Value);

/// The kind of a JSON value, with the payload config checks read: a
/// string's text and an array's items.
pub enum JsonKind {
    Null,
    Bool(bool),
    Number,
    Text(String),
    Array(Vec<serde_json::Value>),
    Object,
}

/// The top-level member names of a JSON value in the order its object map
/// keeps them, `None` when the value is not an object.
pub uninterp spec fn json_object_keys(v: serde_json::Value) -> Option<Seq<Seq<char>>>;

/// The member `key` of a JSON value, `None` when the value is not an object
/// or has no such member.
pub uninterp spec fn json_member(v: serde_json::Value, key: Seq<char>) -> Option<serde_json::Value>;

/// The kind and payload of a JSON value.
pub uninterp spec fn json_kind(v: serde_json::Value) -> JsonKind;

/// Whether two JSON values are equal.
pub uninterp spec fn json_equal(a: serde_json::Value, b: serde_json::Value) -> bool;

/// Whether the member `key` is the same in two JSON values: absent in both,
/// or present in both with equal values.
pub open spec fn member_same(a: serde_json::Value, b: serde_json::Value, key: Seq<char>) -> bool {
    match (json_member(a, key), json_member(b, key)) {
        (None, None) => true,
        (Some(x), Some(y)) => json_equal(x, y),
        _ => false,
    }
}

/// The texts of a list of names, when there is one.
pub open spec fn key_texts(r: Option<Vec<String>>) -> Option<Seq<Seq<char>>> {
    match r {
        Some(ks) => Some(string_views(ks@)),
        None => None,
    }
}

/// `serde_json::Value::as_object` followed by the map's `keys`: the top-level
/// member names of an object, `None` for any other value. The result is the
/// named `json_object_keys` of the value; member names of a JSON object map
/// are unique.
#[verifier::external_body]
pub(crate) fn object_keys(v: &serde_json::Value) -> (r: Option<Vec<String>>)
    ensures
        key_texts(r) == json_object_keys(*v),
        r matches Some(ks) ==> forall|i: int, j: int| 0 <= i < j < ks@.len() ==> ks@[i]@ != ks@[j]@,
{
    match v.as_object() {
        Some(m) => Some(m.keys().cloned().collect()),
        None => None,
    }
}

/// `serde_json::Value::get(key)`: the named `json_member` of the value.
#[verifier::external_body]
pub(crate) fn member<'a>(v: &'a serde_json::Value, key: &str) -> (r: Option<&'a serde_json::Value>)
    ensures
        match r {
            Some(m) => json_member(*v, key@) == Some(*m),
            None => json_member(*v, key@) is None,
        },
{
    v.get(key)
}

/// The variant of a `serde_json::Value`, told apart one arm per variant,
/// with a string's text and an array's items copied out: the named
/// `json_kind` of the value.
#[verifier::external_body]
pub(crate) fn kind_of(v: &serde_json::Value) -> (r: JsonKind)
    ensures
        r == json_kind(*v),
{
    match v {
        serde_json::Value::Null => JsonKind::Null,
        serde_json::Value::Bool(b) => JsonKind::Bool(*b),
        serde_json::Value::Number(_) => JsonKind::Number,
        serde_json::Value::String(t) => JsonKind::Text(t.clone()),
        serde_json::Value::Array(items) => JsonKind::Array(items.clone()),
        serde_json::Value::Object(_) => JsonKind::Object,
    }
}

/// `==` on `serde_json::Value`: the named `json_equal` of the two values. A
/// JSON value holds no NaN, so a value equals itself; two objects with the
/// same member names whose members are pairwise equal are equal, as the
/// object map's `==` compares entries.
#[verifier::external_body]
pub(crate) fn values_equal(a: &serde_json::Value, b: &serde_json::Value) -> (r: bool)
    ensures
        r == json_equal(*a, *b),
        *a == *b ==> r,
        ({
            &&& json_object_keys(*a) matches Some(ka)
            &&& json_object_keys(*b) matches Some(kb)
            &&& ka.to_set() == kb.to_set()
            &&& forall|k: Seq<char>| ka.contains(k) ==> member_same(*a, *b, k)
        }) ==> r,
{
    a == b
}

/// Whether the member `key` is the same in both values (absent in both
/// counts as the same). A value's member equals itself.
pub fn members_equal(a: &serde_json::Value, b: &serde_json::Value, key: &str) -> (r: bool)
    ensures
        r == member_same(*a, *b, key@),
        *a == *b ==> r,
{
    match (member(a, key), member(b, key)) {
        (None, None) => true,
        (Some(x), Some(y)) => values_equal(x, y),
        _ => false,
    }
}

} // verus!
