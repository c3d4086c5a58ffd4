//! The failure taxonomy. Every failure is surfaced to the caller as a
//! server-error response carrying a human-readable message; nothing is
//! retried and nothing is silently swallowed.

use vstd::prelude::*;

verus! {

/// Why a request failed.
#[derive(Debug)]
pub enum SearchError {
    /// Missing search pattern or unsafe tree name: the caller's fault,
    /// reported before anything is spawned.
    Invocation,
    /// The engine subprocess failed or returned an unexpected status;
    /// carries the engine's standard-error text.
    Engine { message: String },
    /// The engine's output was not valid UTF-8.
    Encoding,
    /// One line of engine output was not a well-formed event.
    MalformedEngineOutput,
    /// The stream ended without a summary event.
    MissingSummary,
    /// The concurrency gate failed.
    Lock,
    /// No version-control root encloses the given path.
    NotFound,
}

/// An error response: a server-error status with a plain-text message.
#[derive(Debug)]
pub struct HttpError {
    pub status: u16,
    pub message: String,
}

/// Wraps a collaborator failure message into the server-error response
/// the metadata endpoints return.
pub fn http_error(msg: &str) -> (r: Result<String, HttpError>)
    ensures
        r matches Err(e) && e.status == 500 && e.message@ == "Git failed: "@ + msg@,
{
    Err(HttpError { status: 500, message: String::from_str("Git failed: ").concat(msg) })
}

} // verus!
