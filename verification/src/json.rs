//! JSON values as the library reads them, parsed by `serde_json`.

use vstd::prelude::*;
use crate::text::{chars_of, same_chars};

verus! {

/// A JSON number: non-negative and negative integers keep their value; other
/// numbers are only known to be numbers.
pub enum JsonNumber {
    PosInt(u64),
    NegInt(i64),
    Float,
}

/// A JSON value. An object keeps its members in the order the parser gives
/// them, each key once.
pub enum JsonValue {
    Null,
    Bool(bool),
    Number(JsonNumber),
    Str(String),
    Array(Vec<JsonValue>),
    Object(Vec<(String, JsonValue)>),
}

/// The JSON value a text parses to (`serde_json::from_str::<Value>`), or
/// `None` when the text is not JSON.
pub uninterp spec fn json_parse(text: Seq<char>) -> Option<JsonValue>;

/// `serde_json::Value`, carried only inside the parser: nothing of its
/// contents is visible here.
#[verifier::external_type_specification]
#[verifier::external_body]
pub struct ExSerdeJsonValue(serde_json::Value);

/// `serde_json::Value` as a `JsonValue`, member for member (the conversion
/// step of `serde_parse`; no contract of its own).
#[verifier::external_body]
fn json_from_serde(v: serde_json::Value) -> JsonValue {
    match v {
        serde_json::Value::Null => JsonValue::Null,
        serde_json::Value::Bool(b) => JsonValue::Bool(b),
        serde_json::Value::Number(n) => JsonValue::Number(match (n.as_u64(), n.as_i64()) {
            (Some(u), _) => JsonNumber::PosInt(u),
            (None, Some(i)) => JsonNumber::NegInt(i),
            _ => JsonNumber::Float,
        }),
        serde_json::Value::String(s) => JsonValue::Str(s),
        serde_json::Value::Array(a) => JsonValue::Array(a.into_iter().map(json_from_serde).collect()),
        serde_json::Value::Object(o) => JsonValue::Object(o.into_iter().map(|(k, v)| (k, json_from_serde(v))).collect()),
    }
}

/// `serde_json::from_str::<serde_json::Value>`, converted to a `JsonValue`;
/// `None` when the text is not JSON. The result is named by `json_parse`:
/// nothing more is stated of it.
#[verifier::external_body]
fn serde_parse(text: &str) -> (r: Option<JsonValue>)
    ensures
        r == json_parse(text@),
{
    serde_json::from_str::<serde_json::Value>(text).ok().map(json_from_serde)
}

/// Parse a JSON text; `None` when it is not JSON.
pub fn parse_json(text: &str) -> (r: Option<JsonValue>)
    ensures
        r == json_parse(text@),
{
    serde_parse(text)
}

// ─────────────────────────────── access ───────────────────────────────

/// The value of the first member of `fields`, from `i` on, whose key is `key`.
pub open spec fn member_from(fields: Seq<(String, JsonValue)>, key: Seq<char>, i: int) -> Option<
    JsonValue,
>
    decreases fields.len() - i,
{
    if i < 0 || i >= fields.len() {
        None
    } else if fields[i].0@ == key {
        Some(fields[i].1)
    } else {
        member_from(fields, key, i + 1)
    }
}

/// The member `key` of an object (`Value::get` with a string key); `None` for
/// a missing key or a value that is not an object.
pub open spec fn get(v: JsonValue, key: Seq<char>) -> Option<JsonValue> {
    match v {
        JsonValue::Object(fields) => member_from(fields@, key, 0),
        _ => None,
    }
}

/// The member `key` of an optional value.
pub open spec fn get_opt(v: Option<JsonValue>, key: Seq<char>) -> Option<JsonValue> {
    match v {
        Some(x) => get(x, key),
        None => None,
    }
}

/// The text of a string value (`Value::as_str`).
pub open spec fn as_str(v: Option<JsonValue>) -> Option<Seq<char>> {
    match v {
        Some(JsonValue::Str(s)) => Some(s@),
        _ => None,
    }
}

/// The elements of an array value (`Value::as_array`).
pub open spec fn as_array(v: Option<JsonValue>) -> Option<Seq<JsonValue>> {
    match v {
        Some(JsonValue::Array(a)) => Some(a@),
        _ => None,
    }
}

/// The value of a non-negative integer (`Value::as_u64`).
pub open spec fn as_u64(v: Option<JsonValue>) -> Option<u64> {
    match v {
        Some(JsonValue::Number(JsonNumber::PosInt(n))) => Some(n),
        _ => None,
    }
}

/// An optional reference as an optional value.
pub open spec fn deref_opt(r: Option<&JsonValue>) -> Option<JsonValue> {
    match r {
        Some(x) => Some(*x),
        None => None,
    }
}

/// The member `key` of `v`, if `v` is an object that has one.
pub fn json_get<'a>(v: &'a JsonValue, key: &str) -> (r: Option<&'a JsonValue>)
    ensures
        deref_opt(r) == get(*v, key@),
{
    match v {
        JsonValue::Object(fields) => {
            let k = chars_of(key);
            let mut i: usize = 0;
            assert(get(*v, key@) == member_from(fields@, key@, 0));
            while i < fields.len()
                invariant
                    i <= fields@.len(),
                    k@ == key@,
                    get(*v, key@) == member_from(fields@, key@, i as int),
                decreases fields@.len() - i,
            {
                let name = chars_of(fields[i].0.as_str());
                if same_chars(&name, &k) {
                    return Some(&fields[i].1);
                }
                i = i + 1;
            }
            None
        },
        _ => None,
    }
}

/// The member `key` of an optional value.
pub fn json_get_opt<'a>(v: Option<&'a JsonValue>, key: &str) -> (r: Option<&'a JsonValue>)
    ensures
        deref_opt(r) == get_opt(deref_opt(v), key@),
{
    match v {
        Some(x) => json_get(x, key),
        None => None,
    }
}

/// The text of an optional string value.
pub fn json_as_str<'a>(v: Option<&'a JsonValue>) -> (r: Option<&'a str>)
    ensures
        match r {
            Some(s) => as_str(deref_opt(v)) == Some(s@),
            None => as_str(deref_opt(v)) is None,
        },
{
    match v {
        Some(JsonValue::Str(s)) => Some(s.as_str()),
        _ => None,
    }
}

/// The elements of an optional array value.
pub fn json_as_array<'a>(v: Option<&'a JsonValue>) -> (r: Option<&'a Vec<JsonValue>>)
    ensures
        match r {
            Some(a) => as_array(deref_opt(v)) == Some(a@),
            None => as_array(deref_opt(v)) is None,
        },
{
    match v {
        Some(JsonValue::Array(a)) => Some(a),
        _ => None,
    }
}

/// The value of an optional non-negative integer value.
pub fn json_as_u64(v: Option<&JsonValue>) -> (r: Option<u64>)
    ensures
        r == as_u64(deref_opt(v)),
{
    match v {
        Some(JsonValue::Number(JsonNumber::PosInt(n))) => Some(*n),
        _ => None,
    }
}

} // verus!
