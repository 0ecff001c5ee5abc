//! Why a transform can fail.
use vstd::prelude::*;

verus! {

/// The ways in which `run_transform` can fail. Where a lower-level error
/// caused the failure, its description is kept as `cause`.
#[derive(Debug, PartialEq, Eq)]
pub enum TransformError {
    /// The input text is not JSON.
    InvalidJson { cause: String },
    /// No JavaScript runtime could be made.
    RuntimeUnavailable { cause: String },
    /// No JavaScript context could be made.
    ContextUnavailable { cause: String },
    /// Compiling or running the script, or one of its stages, failed;
    /// `detail` is the engine's description of the failure.
    ScriptFailed { detail: String },
    /// The script's final value did not serialise to JSON text.
    NotSerialisable { cause: String },
}

/// The message that describes an error.
pub open spec fn message(e: TransformError) -> Seq<char> {
    match e {
        TransformError::InvalidJson { .. } => "Invalid JSON input"@,
        TransformError::RuntimeUnavailable { .. } => "Failed to create JS runtime"@,
        TransformError::ContextUnavailable { .. } => "Failed to create JS context"@,
        TransformError::ScriptFailed { detail } => "Script execution failed: "@ + detail@,
        TransformError::NotSerialisable { .. } => "Script returned a non-JSON-serialisable value"@,
    }
}

/// The description of the lower-level error behind an error, if any.
pub open spec fn cause_of(e: TransformError) -> Option<Seq<char>> {
    match e {
        TransformError::InvalidJson { cause } => Some(cause@),
        TransformError::RuntimeUnavailable { cause } => Some(cause@),
        TransformError::ContextUnavailable { cause } => Some(cause@),
        TransformError::ScriptFailed { .. } => None,
        TransformError::NotSerialisable { cause } => Some(cause@),
    }
}

impl TransformError {
    /// The error's message, as the command line prints it.
    pub fn to_string(&self) -> (s: String)
        ensures
            s@ == message(*self),
    {
        match self {
            TransformError::InvalidJson { .. } => "Invalid JSON input".to_owned(),
            TransformError::RuntimeUnavailable { .. } => "Failed to create JS runtime".to_owned(),
            TransformError::ContextUnavailable { .. } => "Failed to create JS context".to_owned(),
            TransformError::ScriptFailed { detail } => {
                let mut s = "Script execution failed: ".to_owned();
                s.append(detail.as_str());
                s
            },
            TransformError::NotSerialisable { .. } => {
                "Script returned a non-JSON-serialisable value".to_owned()
            },
        }
    }

    /// The description of the lower-level error that caused this one.
    pub fn cause(&self) -> (c: Option<String>)
        ensures
            match c {
                Some(t) => cause_of(*self) == Some(t@),
                None => cause_of(*self) is None,
            },
    {
        match self {
            TransformError::InvalidJson { cause } => Some(cause.clone()),
            TransformError::RuntimeUnavailable { cause } => Some(cause.clone()),
            TransformError::ContextUnavailable { cause } => Some(cause.clone()),
            TransformError::ScriptFailed { .. } => None,
            TransformError::NotSerialisable { cause } => Some(cause.clone()),
        }
    }
}

} // verus!
