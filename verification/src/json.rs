//! JSON values as the harness reads them, parsed by serde_json.
use serde_json::Value;
use vstd::prelude::*;

use crate::text::same_text;

verus! {

#[verifier::external_type_specification]
#[verifier::external_body]
pub struct ExJsonValue(Value);

#[verifier::external_type_specification]
#[verifier::external_body]
pub struct ExJsonError(serde_json::Error);

/// A JSON value.
#[derive(Debug, PartialEq, Eq)]
pub enum JsonValue {
    Null,
    Bool(bool),
    /// A number: its text as serde_json renders it, and its value when it
    /// is a non-negative integer that fits in `u64`.
    Number(String, Option<u64>),
    String(String),
    Array(Vec<JsonValue>),
    /// An object's members, in key order, each key once.
    Object(Vec<(String, JsonValue)>),
}

/// What `serde_json::from_str::<Value>` makes of `text`, taken over member
/// by member into a `JsonValue`; `None` when it refuses the text.
pub uninterp spec fn json_parse(text: Seq<char>) -> Option<JsonValue>;

/// Calls `serde_json::from_str::<Value>` on `text` and takes the value over
/// into a `JsonValue`: it fails exactly when `json_parse` gives `None`, and
/// otherwise gives what `json_parse` gives.
#[verifier::external_body]
pub(crate) fn parse_json_value(text: &str) -> (r: Result<JsonValue, serde_json::Error>)
    ensures
        (r is Ok) == (json_parse(text@) is Some),
        r matches Ok(v) ==> json_parse(text@) == Some(v),
{
    serde_json::from_str::<Value>(text).map(json_value_of)
}

/// Takes a `serde_json::Value` over into a `JsonValue`, variant by variant;
/// part of `parse_json_value`'s conversion of its result.
#[verifier::external_body]
fn json_value_of(value: Value) -> JsonValue {
    match value {
        Value::Null => JsonValue::Null,
        Value::Bool(b) => JsonValue::Bool(b),
        Value::Number(n) => JsonValue::Number(n.to_string(), n.as_u64()),
        Value::String(s) => JsonValue::String(s),
        Value::Array(items) => JsonValue::Array(items.into_iter().map(json_value_of).collect()),
        Value::Object(members) => JsonValue::Object(
            members.into_iter().map(|(k, v)| (k, json_value_of(v))).collect(),
        ),
    }
}

/// A value that may be missing, by value.
pub open spec fn deref_opt(o: Option<&JsonValue>) -> Option<JsonValue> {
    match o {
        Some(v) => Some(*v),
        None => None,
    }
}

/// The value of the first member named `key`.
pub open spec fn member_value(members: Seq<(String, JsonValue)>, key: Seq<char>) -> Option<JsonValue>
    decreases members.len(),
{
    if members.len() == 0 {
        None
    } else if members[0].0@ == key {
        Some(members[0].1)
    } else {
        member_value(members.drop_first(), key)
    }
}

/// The member `key` of an object; nothing for anything else.
pub open spec fn at_key(v: Option<JsonValue>, key: Seq<char>) -> Option<JsonValue> {
    match v {
        Some(JsonValue::Object(members)) => member_value(members@, key),
        _ => None,
    }
}

/// The item `i` of an array; nothing for anything else.
pub open spec fn at_index(v: Option<JsonValue>, i: int) -> Option<JsonValue> {
    match v {
        Some(JsonValue::Array(items)) => if 0 <= i < items@.len() {
            Some(items@[i])
        } else {
            None
        },
        _ => None,
    }
}

/// The text of a string; nothing for anything else.
pub open spec fn text_of(v: Option<JsonValue>) -> Option<Seq<char>> {
    match v {
        Some(JsonValue::String(s)) => Some(s@),
        _ => None,
    }
}

/// The value of a number that is a non-negative integer fitting in `u64`.
pub open spec fn unsigned_of(v: Option<JsonValue>) -> Option<u64> {
    match v {
        Some(JsonValue::Number(_, n)) => n,
        _ => None,
    }
}

/// The items of an array.
pub open spec fn items_of(v: Option<JsonValue>) -> Option<Seq<JsonValue>> {
    match v {
        Some(JsonValue::Array(items)) => Some(items@),
        _ => None,
    }
}

/// Whether `v` is the string `t`.
pub open spec fn is_text(v: JsonValue, t: Seq<char>) -> bool {
    v matches JsonValue::String(s) && s@ == t
}

/// The member `key` of `v`, when `v` is an object that has one.
pub fn get<'a>(v: Option<&'a JsonValue>, key: &str) -> (r: Option<&'a JsonValue>)
    ensures
        deref_opt(r) == at_key(deref_opt(v), key@),
{
    match v {
        Some(JsonValue::Object(members)) => {
            let ghost ms = members@;
            assert(at_key(deref_opt(v), key@) == member_value(ms, key@));
            let mut i: usize = 0;
            assert(ms.skip(0) =~= ms);
            while i < members.len()
                invariant
                    i <= ms.len(),
                    ms == members@,
                    at_key(deref_opt(v), key@) == member_value(ms, key@),
                    member_value(ms, key@) == member_value(ms.skip(i as int), key@),
                decreases ms.len() - i,
            {
                proof {
                    assert(ms.skip(i as int)[0] == ms[i as int]);
                    assert(ms.skip(i as int).drop_first() =~= ms.skip(i + 1));
                }
                if same_text(members[i].0.as_str(), key) {
                    assert(ms.skip(i as int)[0].0@ == key@);
                    return Some(&members[i].1);
                }
                i = i + 1;
            }
            None
        },
        _ => None,
    }
}

/// The item `i` of `v`, when `v` is an array that long.
pub fn item<'a>(v: Option<&'a JsonValue>, i: usize) -> (r: Option<&'a JsonValue>)
    ensures
        deref_opt(r) == at_index(deref_opt(v), i as int),
{
    match v {
        Some(JsonValue::Array(items)) => if i < items.len() {
            Some(&items[i])
        } else {
            None
        },
        _ => None,
    }
}

/// A copy of the text of `v`, when `v` is a string.
pub fn text<'a>(v: Option<&'a JsonValue>) -> (r: Option<String>)
    ensures
        crate::serving::opt_text(r) == text_of(deref_opt(v)),
{
    match v {
        Some(JsonValue::String(s)) => Some(s.clone()),
        _ => None,
    }
}

/// The value of `v`, when it is a non-negative integer that fits in `u64`.
pub fn unsigned(v: Option<&JsonValue>) -> (r: Option<u64>)
    ensures
        r == unsigned_of(deref_opt(v)),
{
    match v {
        Some(JsonValue::Number(_, n)) => *n,
        _ => None,
    }
}

/// The items of `v`, when it is an array.
pub fn items<'a>(v: Option<&'a JsonValue>) -> (r: Option<&'a Vec<JsonValue>>)
    ensures
        match r {
            Some(x) => items_of(deref_opt(v)) == Some(x@),
            None => items_of(deref_opt(v)) is None,
        },
{
    match v {
        Some(JsonValue::Array(items)) => Some(items),
        _ => None,
    }
}

/// The JSON string `t`.
pub fn string_value(t: &str) -> (r: JsonValue)
    ensures
        is_text(r, t@),
{
    JsonValue::String(t.to_owned())
}

} // verus!
