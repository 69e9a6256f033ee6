//! The error kinds that the proxy surfaces to clients.

use vstd::prelude::*;

verus! {

/// Client-visible failure kinds, mirroring the HTTP statuses the proxy
/// answers with.
#[derive(Debug, Clone)]
pub enum AppError {
    /// The request itself is malformed (bad URL encoding, bad scheme), or the
    /// upstream answered with an error that is reported as a bad request.
    BadRequest(String),
    /// Signature checking failed: bad or expired signature, unparsable
    /// expiry, or a missing `url` token when `sig` is present.
    Unauthorized,
    /// A requested catalog entry does not exist upstream.
    NotFound(String),
    /// An internal step failed with no detail to share.
    InternalServerError,
    /// An internal step failed; the context string is for the operator.
    InternalServerErrorWithContext(String),
    /// A backing service is unavailable.
    ServiceUnavailable,
}

impl AppError {
    /// The HTTP status code this error kind answers with.
    pub fn status_code(&self) -> (code: u16)
        ensures
            code == match self {
                AppError::BadRequest(_) => 400u16,
                AppError::Unauthorized => 401u16,
                AppError::NotFound(_) => 404u16,
                AppError::InternalServerError => 500u16,
                AppError::InternalServerErrorWithContext(_) => 500u16,
                AppError::ServiceUnavailable => 503u16,
            },
    {
        match self {
            AppError::BadRequest(_) => 400,
            AppError::Unauthorized => 401,
            AppError::NotFound(_) => 404,
            AppError::InternalServerError => 500,
            AppError::InternalServerErrorWithContext(_) => 500,
            AppError::ServiceUnavailable => 503,
        }
    }
}

/// Results whose failures are surfaced to clients.
pub type AppResult<T> = Result<T, AppError>;

} // verus!
