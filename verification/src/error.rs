//! Errors of the command layer.
use crate::text::{concat_str, decimal, decimal_string};
use vstd::prelude::*;

verus! {

#[derive(Debug)]
pub enum CmdError {
    InvalidCommand(String),
    InvalidArgument { key: String, reason: String },
    PinNotConfigured(String),
    PinModeMismatch(String),
    ResourceNotFound(String),
    SafetyStopLatched,
    ProgramNotFound(String),
    ProgramExecutionFailed { program: String, step_index: usize, reason: String },
    Backend(String),
}

/// The text an error is shown as.
pub open spec fn error_text(e: CmdError) -> Seq<char> {
    match e {
        CmdError::InvalidCommand(s) => "invalid command: "@ + s@,
        CmdError::InvalidArgument { key, reason } => "invalid argument `"@ + key@ + "`: "@ + reason@,
        CmdError::PinNotConfigured(s) => "pin not configured: "@ + s@,
        CmdError::PinModeMismatch(s) => "pin mode mismatch: "@ + s@,
        CmdError::ResourceNotFound(s) => "resource not found: "@ + s@,
        CmdError::SafetyStopLatched => "safety stop is latched"@,
        CmdError::ProgramNotFound(s) => "child program not found: "@ + s@,
        CmdError::ProgramExecutionFailed { program, step_index, reason } => "child program `"@ + program@
            + "` failed at step "@ + decimal(step_index as nat) + ": "@ + reason@,
        CmdError::Backend(s) => "backend error: "@ + s@,
    }
}

fn join3(a: &str, b: &str, c: &str) -> (s: String)
    ensures
        s@ == a@ + b@ + c@,
{
    let ab = concat_str(a, b);
    concat_str(ab.as_str(), c)
}

impl CmdError {
    /// The error as text.
    pub fn message(&self) -> (s: String)
        ensures
            s@ == error_text(*self),
    {
        match self {
            CmdError::InvalidCommand(s) => concat_str("invalid command: ", s.as_str()),
            CmdError::InvalidArgument { key, reason } => {
                let head = join3("invalid argument `", key.as_str(), "`: ");
                concat_str(head.as_str(), reason.as_str())
            },
            CmdError::PinNotConfigured(s) => concat_str("pin not configured: ", s.as_str()),
            CmdError::PinModeMismatch(s) => concat_str("pin mode mismatch: ", s.as_str()),
            CmdError::ResourceNotFound(s) => concat_str("resource not found: ", s.as_str()),
            CmdError::SafetyStopLatched => String::from_str("safety stop is latched"),
            CmdError::ProgramNotFound(s) => concat_str("child program not found: ", s.as_str()),
            CmdError::ProgramExecutionFailed { program, step_index, reason } => {
                let head = join3("child program `", program.as_str(), "` failed at step ");
                let index = decimal_string(*step_index as u64);
                let mid = join3(head.as_str(), index.as_str(), ": ");
                concat_str(mid.as_str(), reason.as_str())
            },
            CmdError::Backend(s) => concat_str("backend error: ", s.as_str()),
        }
    }
}

} // verus!
