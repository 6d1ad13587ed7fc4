use vstd::prelude::*;
use serde_json::Value as SerdeJsonValue;
use crate::transform::json::{JsonNumber, JsonValue};

verus! {

/// A parsed JSON document as `serde_json` holds it.
#[verifier::external_type_specification]
#[verifier::external_body]
pub struct ExSerdeJsonValue(SerdeJsonValue);

/// What `serde_json::from_str` parses `text` into, as the library's JSON tree: `None` when the
/// text is not JSON. Object entries come sorted by key, each key once (`serde_json`'s map
/// without its order-preserving feature); a number is a signed integer when it fits `i64`,
/// else an unsigned one when it fits `u64`, else a double (its IEEE bits).
pub uninterp spec fn json_parse(text: Seq<char>) -> Option<JsonValue>;

/// Converts a `serde_json::Value` into the library's tree, variant for variant.
#[verifier::external_body]
fn json_tree(v: SerdeJsonValue) -> JsonValue {
    match v {
        SerdeJsonValue::Null => JsonValue::Null,
        SerdeJsonValue::Bool(b) => JsonValue::Bool(b),
        SerdeJsonValue::Number(n) => JsonValue::Number(match (n.as_i64(), n.as_u64()) {
            (Some(i), _) => JsonNumber::I64(i),
            (_, Some(u)) => JsonNumber::U64(u),
            _ => JsonNumber::F64(n.as_f64().map_or(0, |x| x.to_bits())),
        }),
        SerdeJsonValue::String(s) => JsonValue::Str(s),
        SerdeJsonValue::Array(xs) => JsonValue::Array(xs.into_iter().map(json_tree).collect()),
        SerdeJsonValue::Object(m) => JsonValue::Object(m.into_iter().map(|(k, x)| (k, json_tree(x))).collect()),
    }
}

/// `serde_json::from_str::<serde_json::Value>`: the parse of `text`, named by `json_parse`;
/// `None` when `serde_json` reports an error.
#[verifier::external_body]
pub fn parse_json_text(text: &str) -> (r: Option<JsonValue>)
    ensures
        r == json_parse(text@),
{
    serde_json::from_str::<SerdeJsonValue>(text).ok().map(json_tree)
}

} // verus!
