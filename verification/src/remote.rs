//! How a response of the remote service is read: which statuses mean
//! success, which mean a rejection, and what follows from either.

use crate::error::{Error, ErrorResponse};
use vstd::prelude::*;

verus! {

/// The response statuses that the remote service is known to answer with.
pub const OK: u16 = 200;

pub const CREATED: u16 = 201;

pub const BAD_REQUEST: u16 = 400;

pub const FORBIDDEN: u16 = 403;

pub const NOT_FOUND: u16 = 404;

pub const GONE: u16 = 410;

pub const EXPECTATION_FAILED: u16 = 417;

pub const UNPROCESSABLE_ENTITY: u16 = 422;

pub const TOO_MANY_REQUESTS: u16 = 429;

pub const INTERNAL_SERVER_ERROR: u16 = 500;

pub const SERVICE_UNAVAILABLE: u16 = 503;

/// The two operations of the remote service.
#[derive(Clone, Copy, Debug, PartialEq, Eq, Structural)]
pub enum Endpoint {
    /// Who the access token belongs to.
    User,
    /// Create a short link.
    Shorten,
}

/// What the status of a response means for the endpoint that sent it.
#[derive(Clone, Copy, Debug, PartialEq, Eq, Structural)]
pub enum StatusClass {
    /// The body holds the value that was asked for.
    Success,
    /// The body holds the service's reasons for a rejection.
    Rejected,
    /// The service is not known to answer with this status.
    Unexpected,
}

/// What the body of a response decoded to.
#[derive(Debug, PartialEq, Eq)]
pub enum Body<T> {
    /// The value that the endpoint returns on success.
    Value(T),
    /// The service's reasons for a rejection.
    Rejection(ErrorResponse),
    /// Neither: the body was not read, or it has another shape.
    Undecoded,
}

/// What came back for one request.
#[derive(Debug, PartialEq, Eq)]
pub enum Reply<T> {
    /// Nothing: the request failed on the way, for the reason given.
    Failed(String),
    /// A response with this status and this body.
    Response { status: u16, body: Body<T> },
}

/// A response that breaks the contract with the remote service. Nothing
/// can be done about it: the run must end.
#[derive(Clone, Copy, Debug, PartialEq, Eq, Structural)]
pub enum Violation {
    /// The status means success and the body does not hold the value.
    InvalidResponse,
    /// The status means a rejection and the body does not hold the reasons.
    InvalidErrorResponse,
    /// The status is none that the endpoint is known to answer with.
    UnexpectedStatus(u16),
}

/// What a reply amounts to.
#[derive(Debug, PartialEq, Eq)]
pub enum Parsed<T> {
    /// The value that was asked for.
    Value(T),
    /// A failure of this one request.
    Failure(Error),
    /// A broken contract.
    Violation(Violation),
}

impl Endpoint {
    /// The name of the endpoint: the last segment of its path, and the
    /// name by which an error speaks of the operation.
    pub open spec fn spec_name(self) -> &'static str {
        match self {
            Endpoint::User => "user",
            Endpoint::Shorten => "shorten",
        }
    }

    /// The name of the endpoint.
    pub fn name(self) -> (r: &'static str)
        ensures
            r == self.spec_name(),
    {
        match self {
            Endpoint::User => "user",
            Endpoint::Shorten => "shorten",
        }
    }
}

/// What `status` means as the answer of `endpoint`.
pub open spec fn spec_classify(endpoint: Endpoint, status: u16) -> StatusClass {
    match endpoint {
        Endpoint::User => if status == OK {
            StatusClass::Success
        } else if status == FORBIDDEN || status == GONE || status == NOT_FOUND || status
            == INTERNAL_SERVER_ERROR || status == SERVICE_UNAVAILABLE {
            StatusClass::Rejected
        } else {
            StatusClass::Unexpected
        },
        Endpoint::Shorten => if status == OK || status == CREATED {
            StatusClass::Success
        } else if status == BAD_REQUEST || status == FORBIDDEN || status == GONE || status
            == EXPECTATION_FAILED || status == UNPROCESSABLE_ENTITY || status == TOO_MANY_REQUESTS
            || status == INTERNAL_SERVER_ERROR || status == SERVICE_UNAVAILABLE {
            StatusClass::Rejected
        } else {
            StatusClass::Unexpected
        },
    }
}

/// What `status` means as the answer of `endpoint`. It tells the caller
/// what to decode the body as.
pub fn classify(endpoint: Endpoint, status: u16) -> (r: StatusClass)
    ensures
        r == spec_classify(endpoint, status),
{
    match endpoint {
        Endpoint::User => {
            if status == OK {
                StatusClass::Success
            } else if status == FORBIDDEN || status == GONE || status == NOT_FOUND || status
                == INTERNAL_SERVER_ERROR || status == SERVICE_UNAVAILABLE {
                StatusClass::Rejected
            } else {
                StatusClass::Unexpected
            }
        },
        Endpoint::Shorten => {
            if status == OK || status == CREATED {
                StatusClass::Success
            } else if status == BAD_REQUEST || status == FORBIDDEN || status == GONE || status
                == EXPECTATION_FAILED || status == UNPROCESSABLE_ENTITY || status
                == TOO_MANY_REQUESTS || status == INTERNAL_SERVER_ERROR || status
                == SERVICE_UNAVAILABLE {
                StatusClass::Rejected
            } else {
                StatusClass::Unexpected
            }
        },
    }
}

/// What the reply to a request to `endpoint` amounts to. A request that
/// failed on the way is a failure of that request, and so is a rejection
/// whose reasons were decoded. A status that means success gives the
/// value if the body holds it. Everything else breaks the contract.
pub open spec fn spec_parse_response<T>(endpoint: Endpoint, reply: Reply<T>) -> Parsed<T> {
    match reply {
        Reply::Failed(detail) => Parsed::Failure(Error::Http(detail)),
        Reply::Response { status, body } => match spec_classify(endpoint, status) {
            StatusClass::Success => match body {
                Body::Value(value) => Parsed::Value(value),
                _ => Parsed::Violation(Violation::InvalidResponse),
            },
            StatusClass::Rejected => match body {
                Body::Rejection(response) => Parsed::Failure(Error::Bitly(response)),
                _ => Parsed::Violation(Violation::InvalidErrorResponse),
            },
            StatusClass::Unexpected => Parsed::Violation(Violation::UnexpectedStatus(status)),
        },
    }
}

/// Reads the reply to a request to `endpoint`.
pub fn parse_response<T>(endpoint: Endpoint, reply: Reply<T>) -> (r: Parsed<T>)
    ensures
        r == spec_parse_response(endpoint, reply),
{
    match reply {
        Reply::Failed(detail) => Parsed::Failure(Error::Http(detail)),
        Reply::Response { status, body } => match classify(endpoint, status) {
            StatusClass::Success => match body {
                Body::Value(value) => Parsed::Value(value),
                _ => Parsed::Violation(Violation::InvalidResponse),
            },
            StatusClass::Rejected => match body {
                Body::Rejection(response) => Parsed::Failure(Error::Bitly(response)),
                _ => Parsed::Violation(Violation::InvalidErrorResponse),
            },
            StatusClass::Unexpected => Parsed::Violation(Violation::UnexpectedStatus(status)),
        },
    }
}

} // verus!
