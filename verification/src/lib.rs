//! Transforms JSON by running a user-supplied JavaScript module on it.
//!
//! The module may export `before_transform`, `try_filter`, `try_map` and
//! `after_transform`; `crate::pipeline` states how they are combined,
//! `crate::session` takes each step in an embedded QuickJS engine and keeps
//! a record of it, and `crate::engine` drives the steps.
use vstd::prelude::*;

pub mod engine;
pub mod error;
pub mod json;
pub mod laws;
pub mod pipeline;
pub mod session;

mod js;

use crate::error::TransformError;
use crate::json::{json_error_text, json_text_accepted, json_value_of, parse_json};
use crate::pipeline::{shaped, Outline};
use crate::js::{error_text, full_context, new_runtime, run_in};

verus! {

/// An outline that names the script `source` and the JSON text `input`,
/// and whose parts fit together (`shaped`).
pub open spec fn outline_for(o: Outline, source: Seq<char>, input: Seq<char>) -> bool {
    &&& o.source == source
    &&& o.input == input
    &&& shaped(o)
}

/// Runs `script` (an ES module) on the JSON text `json_str` through the
/// pipeline `before_transform` → `try_filter` / `try_map` (per item) →
/// `after_transform`, all four optional, and reads the outcome back as JSON.
///
/// The input must be JSON text: when it is not, the error is `InvalidJson`,
/// and that error comes for no other input. A success is the JSON value of
/// the text that the engine session returned, which comes with an outline
/// for `script` and `json_str`; `NotSerialisable` means that text was not
/// JSON; every other failure after the input was accepted is that of making
/// the engine or of running the script. That the text is what
/// `JSON.stringify` gave for the pipeline's result is proved inside the
/// session (`engine::run_in_context`), where the engine's values live.
pub fn run_transform(json_str: &str, script: &str) -> (r: Result<serde_json::Value, TransformError>)
    ensures
        (r matches Err(e) && e is InvalidJson) <==> !json_text_accepted(json_str@),
        r is Ok ==> json_text_accepted(json_str@),
        r matches Ok(v) ==> exists|o: Outline|
            #[trigger] outline_for(o, script@, json_str@) && json_text_accepted(o.output) && v
                == json_value_of(o.output),
        r matches Err(e) && e is NotSerialisable ==> exists|o: Outline|
            #[trigger] outline_for(o, script@, json_str@) && !json_text_accepted(o.output),
        r matches Err(e) ==> e is InvalidJson || e is RuntimeUnavailable || e is ContextUnavailable
            || e is ScriptFailed || e is NotSerialisable,
{
    if let Err(e) = parse_json(json_str) {
        return Err(TransformError::InvalidJson { cause: json_error_text(&e) });
    }
    let runtime = match new_runtime() {
        Ok(rt) => rt,
        Err(e) => return Err(TransformError::RuntimeUnavailable { cause: error_text(&e) }),
    };
    let context = match full_context(&runtime) {
        Ok(c) => c,
        Err(e) => return Err(TransformError::ContextUnavailable { cause: error_text(&e) }),
    };
    let (text, outline) = match run_in(&context, json_str, script) {
        Ok(p) => p,
        Err(e) => return Err(e),
    };
    let r = read_output(text.as_str());
    proof {
        assert(outline_for(outline@, script@, json_str@));
    }
    r
}

/// Reads the text that the script's final value serialised to: its JSON
/// value when `serde_json` accepts the text, and `NotSerialisable` otherwise.
pub fn read_output(text: &str) -> (r: Result<serde_json::Value, TransformError>)
    ensures
        r is Ok <==> json_text_accepted(text@),
        r matches Ok(v) ==> v == json_value_of(text@),
        r matches Err(e) ==> e is NotSerialisable,
{
    match parse_json(text) {
        Ok(v) => Ok(v),
        Err(e) => Err(TransformError::NotSerialisable { cause: json_error_text(&e) }),
    }
}

} // verus!
