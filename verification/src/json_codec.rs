//! JSON documents that the library reads from text and writes as text in the
//! middle of its logic, through `serde_json`.
use vstd::prelude::*;

use crate::json::{Json, JsonNumber, JsonV};

verus! {

/// `serde_json::Value`, carried between `serde_json` and the conversions
/// below.
#[verifier::external_type_specification]
#[verifier::external_body]
pub struct ExJsonValue(serde_json::Value);

/// The document `serde_json::from_str::<Value>` reads from `text`; `None`
/// where it refuses the text.
pub uninterp spec fn parsed_json(text: Seq<char>) -> Option<JsonV>;

/// The document `serde_json::from_slice::<Value>` reads from `bytes`;
/// `None` where it refuses them.
pub uninterp spec fn parsed_json_bytes(bytes: Seq<u8>) -> Option<JsonV>;

/// The compact text that `Value`'s `Display` writes for a value.
pub uninterp spec fn compact_json(v: JsonV) -> Seq<char>;

/// The text `serde_json::to_string_pretty` writes for a value; `None` where
/// it fails.
pub uninterp spec fn pretty_json(v: JsonV) -> Option<Seq<char>>;

/// `serde_json::Value` as the library's `Json`, one variant for one.
#[verifier::external_body]
fn json_of_value(v: serde_json::Value) -> Json {
    match v {
        serde_json::Value::Null => Json::Null,
        serde_json::Value::Bool(b) => Json::Bool(b),
        serde_json::Value::Number(n) => Json::Number(match (n.as_u64(), n.as_i64()) {
            (Some(u), _) => JsonNumber::PosInt(u),
            (None, Some(i)) => JsonNumber::NegInt(i),
            _ => JsonNumber::Float(n.to_string()),
        }),
        serde_json::Value::String(s) => Json::Str(s),
        serde_json::Value::Array(a) => Json::Array(a.into_iter().map(json_of_value).collect()),
        serde_json::Value::Object(m) => Json::Object(
            m.into_iter().map(|(k, x)| (k, json_of_value(x))).collect(),
        ),
    }
}

/// The library's `Json` as a `serde_json::Value`, one variant for one.
#[verifier::external_body]
fn value_of_json(j: &Json) -> serde_json::Value {
    match j {
        Json::Null => serde_json::Value::Null,
        Json::Bool(b) => serde_json::Value::Bool(*b),
        Json::Number(JsonNumber::PosInt(u)) => serde_json::Value::from(*u),
        Json::Number(JsonNumber::NegInt(i)) => serde_json::Value::from(*i),
        Json::Number(JsonNumber::Float(s)) => serde_json::from_str(s).unwrap_or_default(),
        Json::Str(s) => serde_json::Value::String(s.clone()),
        Json::Array(a) => serde_json::Value::Array(a.iter().map(value_of_json).collect()),
        Json::Object(m) => serde_json::Value::Object(
            m.iter().map(|(k, x)| (k.clone(), value_of_json(x))).collect(),
        ),
    }
}

/// `serde_json::from_str::<Value>(text).ok()`: the document that `text`
/// holds, which is a function of `text` alone, or `None` where serde_json
/// refuses the text.
#[verifier::external_body]
pub(crate) fn parse_json(text: &str) -> (r: Option<Json>)
    ensures
        match r {
            Some(j) => parsed_json(text@) == Some(j@),
            None => parsed_json(text@) is None,
        },
{
    serde_json::from_str::<serde_json::Value>(text).ok().map(json_of_value)
}

/// `serde_json::from_slice::<Value>(bytes).ok()`: the document that
/// `bytes` hold, which is a function of `bytes` alone, or `None` where
/// serde_json refuses them.
#[verifier::external_body]
pub(crate) fn parse_json_slice(bytes: &[u8]) -> (r: Option<Json>)
    ensures
        match r {
            Some(j) => parsed_json_bytes(bytes@) == Some(j@),
            None => parsed_json_bytes(bytes@) is None,
        },
{
    serde_json::from_slice::<serde_json::Value>(bytes).ok().map(json_of_value)
}

/// `Value::to_string`: the compact JSON text of `v`, which is a function of
/// `v` alone.
#[verifier::external_body]
pub(crate) fn to_compact(v: &Json) -> (r: String)
    ensures
        r@ == compact_json(v@),
{
    value_of_json(v).to_string()
}

/// `serde_json::to_string_pretty(&v).ok()`: the indented text of `v`, which
/// is a function of `v` alone.
#[verifier::external_body]
pub(crate) fn to_pretty(v: &Json) -> (r: Option<String>)
    ensures
        match r {
            Some(s) => pretty_json(v@) == Some(s@),
            None => pretty_json(v@) is None,
        },
{
    serde_json::to_string_pretty(&value_of_json(v)).ok()
}

} // verus!
