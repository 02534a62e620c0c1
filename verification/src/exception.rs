//! Error values returned by the engine.

use vstd::prelude::*;

verus! {

/// The failures the engine reports, each with its message.
#[derive(Debug, Clone)]
pub enum ErrorCode {
    /// The query was cancelled, or the server is shutting down.
    AbortedQuery(String),
    /// A component was wired together wrongly.
    Internal(String),
    /// The operation is not provided.
    Unimplemented(String),
    /// The operation is not allowed on its object.
    InvalidOperation(String),
}

impl ErrorCode {
    /// The message carried by the error.
    pub open spec fn spec_message(self) -> Seq<char> {
        match self {
            ErrorCode::AbortedQuery(m) => m@,
            ErrorCode::Internal(m) => m@,
            ErrorCode::Unimplemented(m) => m@,
            ErrorCode::InvalidOperation(m) => m@,
        }
    }

    /// The message carried by the error.
    pub fn message(&self) -> (m: &String)
        ensures
            m@ == self.spec_message(),
    {
        match self {
            ErrorCode::AbortedQuery(m) => m,
            ErrorCode::Internal(m) => m,
            ErrorCode::Unimplemented(m) => m,
            ErrorCode::InvalidOperation(m) => m,
        }
    }
}

} // verus!
