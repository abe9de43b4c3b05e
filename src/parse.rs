//! Reading specification text: JSON parsing by serde_json, then decoding and
//! compiling in verified code.
use crate::config::{referential_fault, ConfigError, MachineConfig};
use crate::decode::{conforms, decode_config, decodes_config};
use crate::json::{JsonNumber, JsonValue};
use crate::table::CompiledSpec;
use serde_json::Value;
use vstd::prelude::*;

verus! {

/// `serde_json::Value`, held opaquely: only the conversion below reads it.
#[verifier::external_type_specification]
#[verifier::external_body]
pub struct ExJsonDocument(Value);

/// What serde_json reads from a JSON text: the value, or, when the text is not
/// JSON, the description of the error.
pub uninterp spec fn parsed_json(text: Seq<char>) -> Result<JsonValue, Seq<char>>;

/// Relies on `serde_json::from_str`: parses a JSON text into a value, or fails
/// with an error whose description (its `Display`) is returned; the outcome
/// depends on the text alone.
#[verifier::external_body]
fn parse_json(text: &str) -> (r: Result<JsonValue, String>)
    ensures
        match parsed_json(text@) {
            Ok(v) => r == Ok::<JsonValue, String>(v),
            Err(m) => r matches Err(s) && s@ == m,
        },
{
    serde_json::from_str::<Value>(text).map(from_serde).map_err(|e| e.to_string())
}

/// Converts the result of [`parse_json`] into the library's value, variant for
/// variant (object members in serde_json's key order): a number
/// as serde_json holds it (an unsigned or negative integer, or a double's bits).
#[verifier::external_body]
fn from_serde(v: Value) -> JsonValue {
    match v {
        Value::Null => JsonValue::Null,
        Value::Bool(b) => JsonValue::Bool(b),
        Value::Number(n) => JsonValue::Number(match (n.as_u64(), n.as_i64()) {
            (Some(u), _) => JsonNumber::PosInt(u),
            (None, Some(i)) => JsonNumber::NegInt(i),
            (None, None) => JsonNumber::Float(n.as_f64().unwrap_or_default().to_bits()),
        }),
        Value::String(s) => JsonValue::String(s),
        Value::Array(a) => JsonValue::Array(a.into_iter().map(from_serde).collect()),
        Value::Object(m) => JsonValue::Object(m.into_iter().map(|(k, x)| (k, from_serde(x))).collect()),
    }
}

/// A table compiled from `text`: the text parses, the document decodes to
/// the table's declarations, and those pass the referential checks.
pub open spec fn compiled_from_text(t: CompiledSpec, text: Seq<char>) -> bool {
    &&& parsed_json(text) matches Ok(v) && decodes_config(v, t.source())
    &&& referential_fault(t.source()) is None
}

/// What compiling `text` may return: malformed text, a document of the wrong
/// shape, the first referential fault of its declarations, or the table.
pub open spec fn compile_outcome(text: Seq<char>, r: Result<CompiledSpec, ConfigError>) -> bool {
    match parsed_json(text) {
        Err(m) => r matches Err(ConfigError::MalformedInput { message }) && message@ == m,
        Ok(v) => if !conforms(v) {
            r matches Err(ConfigError::SchemaViolation { messages }) && messages@.len() > 0
                    && crate::decode::views(messages@) == crate::decode::config_issues(v)
        } else {
            exists|c: MachineConfig|
                #[trigger] decodes_config(v, c) && match referential_fault(c) {
                    None => r matches Ok(t) && t.source() == c,
                    Some(e) => r == Err::<CompiledSpec, ConfigError>(e),
                }
        },
    }
}

/// Compiles specification text: parse, decode, check, build.
pub fn compile_text(text: &str) -> (r: Result<CompiledSpec, ConfigError>)
    ensures
        compile_outcome(text@, r),
        r matches Ok(t) ==> compiled_from_text(t, text@),
{
    let v = match parse_json(text) {
        Ok(v) => v,
        Err(message) => {
            return Err(ConfigError::MalformedInput { message });
        },
    };
    let c = match decode_config(&v) {
        Ok(c) => c,
        Err(e) => {
            return Err(e);
        },
    };
    let ghost c0 = c;
    let r = CompiledSpec::compile(c);
    assert(decodes_config(v, c0));
    r
}

} // verus!
