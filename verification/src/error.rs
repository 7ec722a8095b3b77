//! ODM error kinds and their process exit codes.

use vstd::prelude::*;

use crate::text::{owned, push_str};

verus! {

/// Error kinds surfaced by ODM operations.
#[derive(Debug, Clone)]
pub enum OdmError {
    /// Bad invocation or unknown name (exit 1).
    Usage(String),
    /// Workspace/config problems (exit 2).
    Workspace(String),
    /// An operation failed (exit 3).
    Operation(String),
    /// Something required is missing (exit 4).
    NotFound(String),
    /// Verb exists but is not implemented (exit 1).
    NotImplemented(String),
}

/// Exit code of an error kind.
pub open spec fn spec_exit_code(e: OdmError) -> i32 {
    match e {
        OdmError::Usage(_) => 1,
        OdmError::Workspace(_) => 2,
        OdmError::Operation(_) => 3,
        OdmError::NotFound(_) => 4,
        OdmError::NotImplemented(_) => 1,
    }
}

/// The message carried by an error.
pub open spec fn spec_message(e: OdmError) -> Seq<char> {
    match e {
        OdmError::Usage(m) => m@,
        OdmError::Workspace(m) => m@,
        OdmError::Operation(m) => m@,
        OdmError::NotFound(m) => m@,
        OdmError::NotImplemented(m) => m@,
    }
}

/// Process exit code for an error.
pub fn exit_code(e: &OdmError) -> (c: i32)
    ensures
        c == spec_exit_code(*e),
{
    match e {
        OdmError::Usage(_) => 1,
        OdmError::Workspace(_) => 2,
        OdmError::Operation(_) => 3,
        OdmError::NotFound(_) => 4,
        OdmError::NotImplemented(_) => 1,
    }
}

impl OdmError {
    /// The error message.
    pub fn message(&self) -> (m: String)
        ensures
            m@ == spec_message(*self),
    {
        match self {
            OdmError::Usage(m) => m.clone(),
            OdmError::Workspace(m) => m.clone(),
            OdmError::Operation(m) => m.clone(),
            OdmError::NotFound(m) => m.clone(),
            OdmError::NotImplemented(m) => m.clone(),
        }
    }

    /// Stable machine code of the kind (`usage`, `workspace`, `operation`, `not_found`,
    /// `not_implemented`).
    pub fn code(&self) -> (c: String)
        ensures
            c@ == match *self {
                OdmError::Usage(_) => "usage"@,
                OdmError::Workspace(_) => "workspace"@,
                OdmError::Operation(_) => "operation"@,
                OdmError::NotFound(_) => "not_found"@,
                OdmError::NotImplemented(_) => "not_implemented"@,
            },
    {
        match self {
            OdmError::Usage(_) => owned("usage"),
            OdmError::Workspace(_) => owned("workspace"),
            OdmError::Operation(_) => owned("operation"),
            OdmError::NotFound(_) => owned("not_found"),
            OdmError::NotImplemented(_) => owned("not_implemented"),
        }
    }

    /// `not implemented: <what>`.
    pub fn not_implemented(what: &str) -> (e: OdmError)
        ensures
            e matches OdmError::NotImplemented(m) && m@ == "not implemented: "@ + what@,
    {
        let mut m = owned("not implemented: ");
        push_str(&mut m, what);
        OdmError::NotImplemented(m)
    }
}

} // verus!
