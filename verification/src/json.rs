use vstd::prelude::*;

verus! {

/// A parsed JSON document in the library's own representation. Only the
/// shapes a trie configuration can mention are kept structurally; boolean
/// and numeric payloads carry no data the trie build ever reads, so a
/// number keeps no payload at all.
#[derive(Debug)]
pub enum JsonValue {
    Null,
    Bool(bool),
    Number,
    Str(String),
    List(Vec<JsonValue>),
    Obj(Vec<(String, JsonValue)>),
}

/// The value that parsing a given text yields when the text is valid
/// JSON, and `None` when it is not. Parsing is deterministic, so the
/// outcome is a function of the text alone.
pub uninterp spec fn json_parse(s: Seq<char>) -> Option<JsonValue>;

#[verifier::external_type_specification]
#[verifier::external_body]
pub struct ExSerdeJsonValue(serde_json::Value);

/// Relies on serde_json::from_str::<serde_json::Value>: whether it
/// returns Ok, and the value it parses, are functions of the text
/// alone. The parsed value is carried over variant by variant through
/// `plain_of_value`; a parse failure is carried over as its
/// description, taken from <serde_json::Error as ToString>::to_string.
#[verifier::external_body]
pub(crate) fn parse_json(s: &str) -> (r: Result<JsonValue, String>)
    ensures
        r is Ok <==> json_parse(s@) is Some,
        r matches Ok(v) ==> json_parse(s@) == Some(v),
{
    match serde_json::from_str::<serde_json::Value>(s) {
        Ok(v) => Ok(plain_of_value(&v)),
        Err(e) => Err(e.to_string()),
    }
}

/// Relies on serde_json::Value: each variant is mapped one arm at a time
/// onto the library's representation, moving the strings and recursing
/// into arrays and objects; it is the conversion half of `parse_json`
/// and is called from nowhere else.
#[verifier::external_body]
fn plain_of_value(v: &serde_json::Value) -> JsonValue {
    match v {
        serde_json::Value::Null => JsonValue::Null,
        serde_json::Value::Bool(b) => JsonValue::Bool(*b),
        serde_json::Value::Number(_) => JsonValue::Number,
        serde_json::Value::String(s) => JsonValue::Str(s.clone()),
        serde_json::Value::Array(a) => JsonValue::List(a.iter().map(plain_of_value).collect()),
        serde_json::Value::Object(m) => JsonValue::Obj(
            m.iter().map(|(k, x)| (k.clone(), plain_of_value(x))).collect(),
        ),
    }
}

} // verus!
