//! The errors that the handlers answer with.
use vstd::prelude::*;

verus! {

/// An error of a handler, with the message to send, if not the default one.
pub enum AppError {
    Unauthorised(Option<String>),
    NotFound(Option<String>),
    Internal(Option<String>),
    Forbidden(Option<String>),
    UnprocessableEntry(Option<String>),
    BadGateway(Option<String>),
}

/// The HTTP status code that answers `e`.
pub open spec fn status_of(e: AppError) -> u16 {
    match e {
        AppError::Unauthorised(_) => 401,
        AppError::NotFound(_) => 404,
        AppError::Internal(_) => 500,
        AppError::Forbidden(_) => 403,
        AppError::UnprocessableEntry(_) => 422,
        AppError::BadGateway(_) => 502,
    }
}

/// The message that answers `e`: its own, or the default of its kind.
pub open spec fn message_of(e: AppError) -> Seq<char> {
    match e {
        AppError::Unauthorised(m) => or_default(m, "Unauthorised"@),
        AppError::NotFound(m) => or_default(m, "Not Found"@),
        AppError::Internal(m) => or_default(m, "Internal Server Error"@),
        AppError::Forbidden(m) => or_default(m, "Forbidden"@),
        AppError::UnprocessableEntry(m) => or_default(m, "Unprocessable Entry"@),
        AppError::BadGateway(m) => or_default(m, "Bad Gateway"@),
    }
}

pub open spec fn or_default(m: Option<String>, d: Seq<char>) -> Seq<char> {
    match m {
        Some(s) => s@,
        None => d,
    }
}

fn message_or(m: Option<String>, default: &str) -> (r: String)
    ensures
        r@ == or_default(m, default@),
{
    match m {
        Some(s) => s,
        None => default.to_owned(),
    }
}

impl AppError {
    /// The status code and the message of the JSON body `{"message": ...}`
    /// that answer this error.
    pub fn into_parts(self) -> (r: (u16, String))
        ensures
            r.0 == status_of(self),
            r.1@ == message_of(self),
    {
        match self {
            AppError::Internal(msg) => (500, message_or(msg, "Internal Server Error")),
            AppError::NotFound(msg) => (404, message_or(msg, "Not Found")),
            AppError::Unauthorised(msg) => (401, message_or(msg, "Unauthorised")),
            AppError::Forbidden(msg) => (403, message_or(msg, "Forbidden")),
            AppError::UnprocessableEntry(msg) => (422, message_or(msg, "Unprocessable Entry")),
            AppError::BadGateway(msg) => (502, message_or(msg, "Bad Gateway")),
        }
    }
}

} // verus!
