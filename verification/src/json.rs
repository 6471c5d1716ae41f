//! The JSON values that frames carry, as far as the router reads them.
//!
//! A value is held as `serde_json::Value` and stays opaque: the router asks
//! for its compact text, for a member of an object, and for the string or the
//! truth value that it is.

use serde_json::Value;
use vstd::prelude::*;
use crate::text::opt_text;

verus! {

#[verifier::external_type_specification]
#[verifier::external_body]
pub struct ExValue(serde_json::Value);

/// The compact JSON text of a value, as `serde_json` prints it.
pub uninterp spec fn json_text(v: Value) -> Seq<char>;

/// The value that is the string `s`.
pub uninterp spec fn json_string_of(s: Seq<char>) -> Value;

/// The object that has the one member `member` under `key`.
pub uninterp spec fn json_object_of(key: Seq<char>, member: Value) -> Value;

/// The member under `key`, if `v` is an object that has one.
pub uninterp spec fn json_member(v: Value, key: Seq<char>) -> Option<Value>;

/// The string that `v` is, if it is one.
pub uninterp spec fn json_str(v: Value) -> Option<Seq<char>>;

/// The truth value that `v` is, if it is one.
pub uninterp spec fn json_bool(v: Value) -> Option<bool>;

/// The JSON literal of a string, quotes and escapes included.
pub open spec fn json_quoted(s: Seq<char>) -> Seq<char> {
    json_text(json_string_of(s))
}

/// The string found under `key` when `v` is an object that has a string
/// there.
pub open spec fn json_member_text(v: Value, key: Seq<char>) -> Option<Seq<char>> {
    match json_member(v, key) {
        Some(m) => json_str(m),
        None => None,
    }
}

/// The truth value found under `key` when `v` is an object that has one
/// there.
pub open spec fn json_member_bool(v: Value, key: Seq<char>) -> Option<bool> {
    match json_member(v, key) {
        Some(m) => json_bool(m),
        None => None,
    }
}

/// `Clone` of `serde_json::Value`: a deep copy, equal to the value copied.
pub assume_specification[ <serde_json::Value as Clone>::clone ](v: &Value) -> (r: Value)
    ensures
        r == *v,
;

/// `Display` of `serde_json::Value` through `to_string`: the compact
/// serialization. Nothing is claimed of the text but that it is the value's.
#[verifier::external_body]
pub(crate) fn value_json(v: &Value) -> (r: String)
    ensures
        r@ == json_text(*v),
{
    v.to_string()
}

/// `Value::String`: the value that is the given string; `Value::as_str`
/// gives the string back.
#[verifier::external_body]
pub(crate) fn string_value(s: &str) -> (r: Value)
    ensures
        r == json_string_of(s@),
        json_str(r) == Some(s@),
{
    Value::String(s.to_owned())
}

/// An object with one member, built with `Map::insert` into a new map:
/// `Value::get` finds the member under its key.
#[verifier::external_body]
pub(crate) fn object_of(key: &str, member: Value) -> (r: Value)
    ensures
        r == json_object_of(key@, member),
        json_member(r, key@) == Some(member),
{
    let mut members = serde_json::Map::new();
    members.insert(key.to_owned(), member);
    Value::Object(members)
}

/// `Value::get` with a string index: the member under `key`, if `v` is an
/// object that has one.
#[verifier::external_body]
pub(crate) fn member<'a>(v: &'a Value, key: &str) -> (r: Option<&'a Value>)
    ensures
        match r {
            Some(m) => json_member(*v, key@) == Some(*m),
            None => json_member(*v, key@) is None,
        },
{
    v.get(key)
}

/// `Value::as_str`: the string that `v` is, if it is one.
#[verifier::external_body]
pub(crate) fn as_text(v: &Value) -> (r: Option<String>)
    ensures
        opt_text(r) == json_str(*v),
{
    v.as_str().map(str::to_owned)
}

/// `Value::as_bool`: the truth value that `v` is, if it is one.
#[verifier::external_body]
pub(crate) fn as_truth(v: &Value) -> (r: Option<bool>)
    ensures
        r == json_bool(*v),
{
    v.as_bool()
}

/// The JSON literal of a string.
pub fn quote(s: &str) -> (r: String)
    ensures
        r@ == json_quoted(s@),
{
    let v = string_value(s);
    value_json(&v)
}

/// The string under `key` in an object.
pub fn member_text(v: &Value, key: &str) -> (r: Option<String>)
    ensures
        opt_text(r) == json_member_text(*v, key@),
{
    match member(v, key) {
        Some(m) => as_text(m),
        None => None,
    }
}

/// The truth value under `key` in an object.
pub fn member_bool(v: &Value, key: &str) -> (r: Option<bool>)
    ensures
        r == json_member_bool(*v, key@),
{
    match member(v, key) {
        Some(m) => as_truth(m),
        None => None,
    }
}

/// The object whose one member, under `key`, is the string `text`.
pub fn text_object(key: &str, text: &str) -> (r: Value)
    ensures
        r == json_object_of(key@, json_string_of(text@)),
        json_member_text(r, key@) == Some(text@),
{
    object_of(key, string_value(text))
}

} // verus!
