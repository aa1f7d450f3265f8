//! The error taxonomy of the service and its mapping to HTTP status codes.

use vstd::prelude::*;
use vstd::string::*;

verus! {

/// Errors surfaced by the whitelist store and the artifact cache.
///
/// `PreconditionFailed` reports a duplicate host on `add_host`; `NotFound`
/// reports a missing host on `remove_host`, an unknown artifact hash, or an
/// unset latest pointer; `Other` covers internal failures.
#[derive(Debug, Clone, PartialEq, Eq)]
pub enum AppError {
    PreconditionFailed(String),
    NotFound,
    Other(String),
}

/// The HTTP status that a request handler answers with for each error.
pub open spec fn spec_status_code(e: AppError) -> u16 {
    match e {
        AppError::PreconditionFailed(_) => 400,
        AppError::NotFound => 404,
        AppError::Other(_) => 500,
    }
}

/// The response body text for each error.
pub open spec fn spec_message(e: AppError) -> Seq<char> {
    match e {
        AppError::PreconditionFailed(m) => "PreconditionFailed: "@ + m@,
        AppError::NotFound => "NotFound"@,
        AppError::Other(m) => "Internal error: "@ + m@,
    }
}

impl AppError {
    /// The response body text for this error.
    pub fn message(&self) -> (r: String)
        ensures
            r@ == spec_message(*self),
    {
        match self {
            AppError::PreconditionFailed(m) => {
                let mut s = String::from_str("PreconditionFailed: ");
                s.append(m.as_str());
                s
            },
            AppError::NotFound => String::from_str("NotFound"),
            AppError::Other(m) => {
                let mut s = String::from_str("Internal error: ");
                s.append(m.as_str());
                s
            },
        }
    }

    /// Status code for this error: 400 for a failed precondition, 404 for a
    /// missing resource, 500 otherwise.
    pub fn status_code(&self) -> (code: u16)
        ensures
            code == spec_status_code(*self),
    {
        match self {
            AppError::PreconditionFailed(_) => 400,
            AppError::NotFound => 404,
            AppError::Other(_) => 500,
        }
    }
}

} // verus!
