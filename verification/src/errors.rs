//! The engine's error taxonomy, mirrored from how failures propagate: per
//! sub-record skips, per-event skips, per-pass aborts, and user-visible flow
//! failures.

use vstd::prelude::*;

verus! {

/// Why an operation failed.
#[derive(Debug, Clone)]
pub enum Error {
    /// A network or remote-service failure; retried only on the next pass.
    TransientSource(String),
    /// The remote call failed authentication specifically.
    Authentication,
    /// A legacy-link mismatch: the offending record is skipped.
    DataConflict,
    /// A malformed external identifier or field: the sub-record is skipped.
    Validation(String),
    /// A storage failure: the one event's transaction is aborted.
    Persistence(String),
    /// The flow token is unknown or expired.
    FlowNotFound,
}

impl Error {
    /// A short, stable label for the error's category.
    pub fn kind_label(&self) -> (r: &'static str)
        ensures
            r@ == match self {
                Error::TransientSource(_) => "transient source error"@,
                Error::Authentication => "authentication failure"@,
                Error::DataConflict => "data conflict"@,
                Error::Validation(_) => "validation error"@,
                Error::Persistence(_) => "persistence error"@,
                Error::FlowNotFound => "link expired"@,
            },
    {
        match self {
            Error::TransientSource(_) => "transient source error",
            Error::Authentication => "authentication failure",
            Error::DataConflict => "data conflict",
            Error::Validation(_) => "validation error",
            Error::Persistence(_) => "persistence error",
            Error::FlowNotFound => "link expired",
        }
    }
}

} // verus!
