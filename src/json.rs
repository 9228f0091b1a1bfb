//! What the host asks of JSON text and JSON Schemas. Parsing is done by
//! serde_json and validation by jsonschema; the names below stand for their
//! answers, which depend on the text alone.
use vstd::prelude::*;

verus! {

/// Whether serde_json parses `text` as a JSON value.
pub uninterp spec fn json_valid(text: Seq<char>) -> bool;

/// Whether `text` parses as JSON and jsonschema compiles it as a schema.
pub uninterp spec fn schema_valid(text: Seq<char>) -> bool;

/// Whether the instance text satisfies the schema text.
pub uninterp spec fn schema_accepts(schema: Seq<char>, instance: Seq<char>) -> bool;

/// Relies on serde_json::from_str: whether the text is a JSON value.
#[verifier::external_body]
pub(crate) fn is_json(text: &str) -> (r: bool)
    ensures
        r == json_valid(text@),
{
    serde_json::from_str::<serde_json::Value>(text).is_ok()
}

/// Relies on jsonschema::validator_for: whether the parsed text compiles as
/// a JSON Schema.
#[verifier::external_body]
pub(crate) fn is_schema(text: &str) -> (r: bool)
    ensures
        r == schema_valid(text@),
{
    match serde_json::from_str::<serde_json::Value>(text) {
        Ok(schema) => jsonschema::validator_for(&schema).is_ok(),
        Err(_) => false,
    }
}

/// Relies on jsonschema::Validator::is_valid: whether the instance
/// satisfies the schema, both given as JSON text.
#[verifier::external_body]
pub(crate) fn schema_admits(schema: &str, instance: &str) -> (r: bool)
    ensures
        r == schema_accepts(schema@, instance@),
{
    let parsed = (serde_json::from_str::<serde_json::Value>(schema), serde_json::from_str::<serde_json::Value>(instance));
    match parsed {
        (Ok(schema), Ok(instance)) => match jsonschema::validator_for(&schema) {
            Ok(validator) => validator.is_valid(&instance),
            Err(_) => false,
        },
        _ => false,
    }
}

} // verus!
