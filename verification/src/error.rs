//! The failures that one shorten operation can end in.

use vstd::prelude::*;

verus! {

/// One field-level complaint inside a rejection by the remote service.
#[derive(Debug, PartialEq, Eq)]
pub struct FieldError {
    pub field: String,
    pub error_code: String,
    pub message: String,
}

/// The structured body that the remote service sends with a rejection.
#[derive(Debug, PartialEq, Eq)]
pub struct ErrorResponse {
    pub message: String,
    pub description: Option<String>,
    pub resource: Option<String>,
    pub errors: Option<Vec<FieldError>>,
}

/// What went wrong with an input or output operation, as far as the pipeline
/// tells failures apart.
#[derive(Clone, Copy, Debug, PartialEq, Eq, Structural)]
pub enum IoErrorKind {
    /// The data was read but is not what was asked for.
    InvalidInput,
    /// Any other failure of the underlying stream.
    Other,
}

/// A failed input or output operation.
#[derive(Debug, PartialEq, Eq)]
pub struct IoError {
    pub kind: IoErrorKind,
    pub message: String,
}

impl Clone for IoError {
    fn clone(&self) -> (r: Self)
        ensures
            r == *self,
    {
        IoError { kind: self.kind, message: self.message.clone() }
    }
}

/// The recoverable failures of the pipeline. Each one is the result of the
/// item it belongs to and of no other.
#[derive(Debug, PartialEq, Eq)]
pub enum Error {
    /// A remote operation, named here, was needed while the client runs
    /// without network access.
    Offline(&'static str),
    /// No group identifier is configured and none can be inferred.
    UnknownGroupGUID(&'static str),
    /// Reading the input failed.
    Io(IoError),
    /// The request did not reach the service, or no response came back.
    Http(String),
    /// The service answered with a well-formed rejection.
    Bitly(ErrorResponse),
}

} // verus!
