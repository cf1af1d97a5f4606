//! The uniform request-level error.
//!
//! Every failure class collapses to one generic server error at the HTTP
//! boundary: the services deliberately do not tell a denied caller apart
//! from a broken request or a failing store.

use vstd::prelude::*;
use vstd::string::StringExecFns;

verus! {

/// Why a request failed.  The kind is kept for the library's own
/// contracts; callers see only the one generic error shape.
#[derive(Clone, Copy, Debug, PartialEq, Eq, Structural)]
pub enum ErrorKind {
    /// Missing or wrong credential on a protected endpoint.
    Authorization,
    /// Malformed or undecodable request body, unknown variant tag included.
    Validation,
    /// The record store refused or failed an operation.
    Store,
    /// Required configuration is missing or unusable.
    Configuration,
}

/// The error a failed request is answered with.
#[derive(Debug)]
pub struct AppError {
    pub kind: ErrorKind,
    pub msg: String,
}

impl AppError {
    /// The uniform denial: the services answer every bad credential with
    /// this one message, never saying which check failed.
    pub fn authorization() -> (r: AppError)
        ensures
            r.kind == ErrorKind::Authorization,
            r.msg@ == "Nope, sorry"@,
    {
        AppError { kind: ErrorKind::Authorization, msg: "Nope, sorry".to_owned() }
    }

    pub fn validation(msg: String) -> (r: AppError)
        ensures
            r.kind == ErrorKind::Validation,
            r.msg@ == msg@,
    {
        AppError { kind: ErrorKind::Validation, msg }
    }

    pub fn configuration(msg: String) -> (r: AppError)
        ensures
            r.kind == ErrorKind::Configuration,
            r.msg@ == msg@,
    {
        AppError { kind: ErrorKind::Configuration, msg }
    }

    /// Every error maps to the same HTTP status.
    pub fn status(&self) -> (r: u16)
        ensures
            r == 500,
    {
        500
    }

    /// Body of the generic server error.
    pub fn body(&self) -> (r: String)
        ensures
            r@ == "Something went wrong: "@ + self.msg@,
    {
        let prefix = "Something went wrong: ".to_owned();
        prefix.concat(self.msg.as_str())
    }
}

} // verus!
