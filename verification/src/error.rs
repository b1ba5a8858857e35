//! The request-level error kinds and their mapping to HTTP status codes.

use vstd::prelude::*;

verus! {

/// Everything that can go wrong while serving a request, plus the one fatal
/// startup condition.
#[derive(Debug, Clone, PartialEq, Eq)]
pub enum Error {
    /// A disk or network read or write failed; surfaced as 500.
    IoError(String),
    /// The multipart body was malformed or empty; surfaced as 400.
    Multipart(String),
    /// The requested name is not stored; surfaced as 404.
    FileNotFound,
    /// The request itself was unacceptable; surfaced as 400.
    BadRequest(String),
    /// A durable-log record failed to parse. Fatal at startup: the service
    /// must not run with a partially loaded index, so this never reaches an
    /// HTTP response.
    IndexCorruption,
}

impl Error {
    /// The HTTP status code each per-request error is converted to at the
    /// request boundary. `IndexCorruption` aborts startup instead; were it
    /// ever surfaced it would count as an internal error.
    pub fn status_code(&self) -> (r: u16)
        ensures
            r == match self {
                Error::IoError(_) => 500u16,
                Error::Multipart(_) => 400u16,
                Error::FileNotFound => 404u16,
                Error::BadRequest(_) => 400u16,
                Error::IndexCorruption => 500u16,
            },
    {
        match self {
            Error::IoError(_) => 500,
            Error::Multipart(_) => 400,
            Error::FileNotFound => 404,
            Error::BadRequest(_) => 400,
            Error::IndexCorruption => 500,
        }
    }
}

} // verus!
