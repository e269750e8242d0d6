//! Errors of the proving engine.

use vstd::prelude::*;

use crate::sys::concat;

verus! {

/// Errors of the proving engine. Internal failures carry their message.
#[derive(Debug, Clone)]
pub enum ProverError {
    TaskNotFound(String),
    TaskAlreadyExists(String),
    TransientFailure(String),
    PermanentFailure(String),
    Internal(String),
}

pub type ProverResult<T> = Result<T, ProverError>;

/// The text of an error: its kind's prefix followed by its detail.
pub open spec fn spec_error_message(err: ProverError) -> Seq<char> {
    match err {
        ProverError::TaskNotFound(s) => "task not found: "@ + s@,
        ProverError::TaskAlreadyExists(s) => "task already exists: "@ + s@,
        ProverError::TransientFailure(s) => "transient: "@ + s@,
        ProverError::PermanentFailure(s) => "permanent: "@ + s@,
        ProverError::Internal(s) => s@,
    }
}

impl ProverError {
    pub fn is_transient(&self) -> (r: bool)
        ensures
            r == (self is TransientFailure),
    {
        match self {
            ProverError::TransientFailure(_) => true,
            _ => false,
        }
    }

    pub fn is_permanent(&self) -> (r: bool)
        ensures
            r == (self is PermanentFailure),
    {
        match self {
            ProverError::PermanentFailure(_) => true,
            _ => false,
        }
    }

    /// The error's text, as it is shown to users.
    pub fn message(&self) -> (r: String)
        ensures
            r@ == spec_error_message(*self),
    {
        match self {
            ProverError::TaskNotFound(s) => concat("task not found: ", s.as_str()),
            ProverError::TaskAlreadyExists(s) => concat("task already exists: ", s.as_str()),
            ProverError::TransientFailure(s) => concat("transient: ", s.as_str()),
            ProverError::PermanentFailure(s) => concat("permanent: ", s.as_str()),
            ProverError::Internal(s) => s.clone(),
        }
    }
}

} // verus!
