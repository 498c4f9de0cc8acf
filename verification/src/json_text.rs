//! JSON text: reading it into the library's model and writing the model back, both
//! through `serde_json`.
use vstd::prelude::*;
use serde_json::Value;
use crate::json::{Json, JsonNumber, JsonView};

verus! {

/// The value type of `serde_json`; opaque to verification.
#[verifier::external_type_specification]
#[verifier::external_body]
pub struct ExJsonValue(serde_json::Value);

/// What `serde_json::from_str` reads from `text` into a `serde_json::Value`, taken as the
/// library's model; `None` where the text is not JSON. Objects come out with their keys
/// in `serde_json`'s map order, each key once.
pub uninterp spec fn json_of_text(text: Seq<char>) -> Option<JsonView>;

/// The compact text that `serde_json` writes for a value (the `to_string` of its
/// `serde_json::Value`).
pub uninterp spec fn json_text(v: JsonView) -> Seq<char>;

/// Calls `serde_json::from_str` for a `serde_json::Value` and converts the value, one
/// variant for one, into the library's model. Claims that the outcome is a function of
/// the text alone: `None` exactly where the parser refuses the text.
#[verifier::external_body]
pub fn parse_json(text: &str) -> (r: Option<Json>)
    ensures
        r is Some <==> json_of_text(text@) is Some,
        r matches Some(j) ==> json_of_text(text@) == Some(j@),
{
    match serde_json::from_str::<Value>(text) {
        Ok(v) => Some(json_from_value(v)),
        Err(_) => None,
    }
}

/// Converts the value into a `serde_json::Value`, one variant for one, and writes it with
/// its `to_string` (`Display`). Claims that the text is a function of the model alone.
#[verifier::external_body]
pub fn json_to_text(v: &Json) -> (r: String)
    ensures
        r@ == json_text(v@),
{
    value_from_json(v).to_string()
}

/// Moves a `serde_json::Value` into the library's model, one variant for one; a number
/// is kept as an unsigned integer, else a signed one, else its decimal text. Nothing is
/// claimed of it beyond what `parse_json` states.
#[verifier::external_body]
fn json_from_value(v: Value) -> Json {
    match v {
        Value::Null => Json::Null,
        Value::Bool(b) => Json::Bool(b),
        Value::Number(n) => match (n.as_u64(), n.as_i64()) {
            (Some(u), _) => Json::Number(JsonNumber::PosInt(u)),
            (None, Some(i)) => Json::Number(JsonNumber::NegInt(i)),
            (None, None) => Json::Number(JsonNumber::Float(n.to_string())),
        },
        Value::String(s) => Json::Str(s),
        Value::Array(items) => Json::Array(items.into_iter().map(json_from_value).collect()),
        Value::Object(map) => Json::Object(map.into_iter().map(|(k, x)| (k, json_from_value(x))).collect()),
    }
}

/// Builds the `serde_json::Value` of the library's model, one variant for one; a number
/// kept as text is read back with `serde_json::Number`'s `from_str`, and is `null` where
/// that refuses it. Nothing is claimed of it beyond what `json_to_text` states.
#[verifier::external_body]
fn value_from_json(j: &Json) -> Value {
    match j {
        Json::Null => Value::Null,
        Json::Bool(b) => Value::Bool(*b),
        Json::Number(JsonNumber::PosInt(u)) => Value::from(*u),
        Json::Number(JsonNumber::NegInt(i)) => Value::from(*i),
        Json::Number(JsonNumber::Float(t)) => t.parse().map_or(Value::Null, Value::Number),
        Json::Str(s) => Value::String(s.clone()),
        Json::Array(items) => Value::Array(items.iter().map(value_from_json).collect()),
        Json::Object(entries) => Value::Object(entries.iter().map(|(k, x)| (k.clone(), value_from_json(x))).collect()),
    }
}

} // verus!
