//! JSON documents as they come from outside.

use vstd::prelude::*;

use crate::text::opt;

verus! {

/// What a JSON value holds, where it is a string or an object.
pub enum Json {
    Text(Seq<char>),
    Object(Map<Seq<char>, Json>),
    Other,
}

#[verifier::external_type_specification]
#[verifier::external_body]
pub struct ExJsonValue(serde_json::Value);

/// What a value holds.
pub uninterp spec fn json_held(value: serde_json::Value) -> Json;

/// What some bytes spell, where they are JSON.
pub uninterp spec fn json_spelled(bytes: Seq<u8>) -> Option<Json>;

/// What an object holds under a key.
pub open spec fn member(value: Json, key: Seq<char>) -> Option<Json> {
    match value {
        Json::Object(members) => if members.contains_key(key) {
            Some(members[key])
        } else {
            None
        },
        _ => None,
    }
}

pub open spec fn text_of(value: Option<Json>) -> Option<Seq<char>> {
    match value {
        Some(Json::Text(text)) => Some(text),
        _ => None,
    }
}

/// `serde_json::from_slice` into a `serde_json::Value`: the value that the bytes
/// spell, and nothing where they are not JSON. The outcome depends on the bytes
/// alone; it is named by `json_spelled`, and the grammar of JSON is not spelled
/// out.
#[verifier::external_body]
pub(crate) fn parse_json(bytes: &[u8]) -> (r: Option<serde_json::Value>)
    ensures
        match json_spelled(bytes@) {
            Some(value) => r is Some && json_held(r->0) == value,
            None => r is None,
        },
{
    serde_json::from_slice(bytes).ok()
}

/// `serde_json::Value::get` with a string: what an object holds under the key;
/// nothing of a value that is no object.
#[verifier::external_body]
pub(crate) fn json_under<'a>(value: &'a serde_json::Value, key: &str) -> (r: Option<
    &'a serde_json::Value,
>)
    ensures
        match member(json_held(*value), key@) {
            Some(inner) => r is Some && json_held(*r->0) == inner,
            None => r is None,
        },
{
    value.get(key)
}

/// `serde_json::Value::as_str`: the string that a value is.
#[verifier::external_body]
pub(crate) fn json_text(value: &serde_json::Value) -> (r: Option<String>)
    ensures
        opt(r) == text_of(Some(json_held(*value))),
{
    value.as_str().map(|s| s.to_owned())
}

/// The string under a key of an object.
pub(crate) fn text_member(value: &serde_json::Value, key: &str) -> (r: Option<String>)
    ensures
        opt(r) == text_of(member(json_held(*value), key@)),
{
    match json_under(value, key) {
        Some(inner) => json_text(inner),
        None => None,
    }
}

} // verus!
