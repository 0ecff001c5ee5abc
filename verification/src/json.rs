//! JSON text, read with `serde_json`.
use vstd::prelude::*;

verus! {

#[verifier::external_type_specification]
#[verifier::external_body]
pub struct ExJsonValue(serde_json::Value);

#[verifier::external_type_specification]
#[verifier::external_body]
pub struct ExJsonError(serde_json::Error);

/// Whether `serde_json` reads `text` as one JSON value (RFC 8259 syntax,
/// surrounding whitespace allowed, nesting at most 128 levels deep).
pub uninterp spec fn json_text_accepted(text: Seq<char>) -> bool;

/// The value that `serde_json` reads from `text`, where it accepts it.
pub uninterp spec fn json_value_of(text: Seq<char>) -> serde_json::Value;

/// `serde_json::from_str::<serde_json::Value>`: reads JSON text into a value.
/// Whether it succeeds, and the value read, depend on the text alone.
#[verifier::external_body]
pub(crate) fn parse_json(text: &str) -> (r: Result<serde_json::Value, serde_json::Error>)
    ensures
        r is Ok <==> json_text_accepted(text@),
        r matches Ok(v) ==> v == json_value_of(text@),
{
    serde_json::from_str(text)
}

/// The description of a `serde_json` error (its `Display`).
#[verifier::external_body]
pub(crate) fn json_error_text(e: &serde_json::Error) -> (r: String) {
    format!("{e}")
}

} // verus!
