//! Error taxonomy of the subsystem and its mapping to wire status/code pairs.
use vstd::prelude::*;
use crate::dto::{ErrorResponse, ERR_INVALID_PARAMETERS, ERR_NOT_FOUND, ERR_UNAUTHENTICATED,
    ERR_UNAUTHORIZED, ERR_UNKNOWN};

verus! {

/// Bad or missing credentials or token; the caller should authenticate again.
#[derive(Debug)]
pub struct AuthenticationError {}

impl AuthenticationError {
    pub fn new() -> AuthenticationError {
        AuthenticationError {}
    }
}

/// Valid caller, insufficient permission.
#[derive(Debug)]
pub struct AuthorizationError {}

impl AuthorizationError {
    pub fn new() -> AuthorizationError {
        AuthorizationError {}
    }
}

/// Well-formed request that is semantically inapplicable.
#[derive(Debug)]
pub struct ValidationError {}

impl ValidationError {
    pub fn new() -> ValidationError {
        ValidationError {}
    }
}

/// Internal failure; surfaced to the caller as an opaque error.
#[derive(Debug)]
pub struct ServerError {}

impl ServerError {
    pub fn new() -> ServerError {
        ServerError {}
    }
}

/// Every failure a handler can surface, as one value for the boundary to map.
#[derive(Debug)]
pub enum ApiError {
    NotFound,
    Authentication(AuthenticationError),
    Authorization(AuthorizationError),
    Validation(ValidationError),
    Server(ServerError),
}

impl ApiError {
    pub fn authentication() -> (r: ApiError)
        ensures
            r is Authentication,
    {
        ApiError::Authentication(AuthenticationError::new())
    }

    pub fn authorization() -> (r: ApiError)
        ensures
            r is Authorization,
    {
        ApiError::Authorization(AuthorizationError::new())
    }

    pub fn validation() -> (r: ApiError)
        ensures
            r is Validation,
    {
        ApiError::Validation(ValidationError::new())
    }

    pub fn server() -> (r: ApiError)
        ensures
            r is Server,
    {
        ApiError::Server(ServerError::new())
    }
}

/// The HTTP status that each failure kind maps to.
pub open spec fn error_status(e: ApiError) -> u16 {
    match e {
        ApiError::NotFound => 404,
        ApiError::Authentication(_) => 401,
        ApiError::Authorization(_) => 403,
        ApiError::Validation(_) => 400,
        ApiError::Server(_) => 500,
    }
}

/// The fixed wire code that each failure kind maps to.
pub open spec fn error_code(e: ApiError) -> Seq<char> {
    match e {
        ApiError::NotFound => ERR_NOT_FOUND@,
        ApiError::Authentication(_) => ERR_UNAUTHENTICATED@,
        ApiError::Authorization(_) => ERR_UNAUTHORIZED@,
        ApiError::Validation(_) => ERR_INVALID_PARAMETERS@,
        ApiError::Server(_) => ERR_UNKNOWN@,
    }
}

/// A status plus body, the whole of what the boundary returns on failure.
pub struct ErrorReply {
    pub status: u16,
    pub body: ErrorResponse,
}

/// Maps a failure to its fixed status and code pair.
pub fn handler(err: &ApiError) -> (r: ErrorReply)
    ensures
        r.status == error_status(*err),
        r.body.code@ == error_code(*err),
{
    match err {
        ApiError::NotFound => ErrorReply {
            status: 404,
            body: ErrorResponse { code: ERR_NOT_FOUND },
        },
        ApiError::Authentication(_) => ErrorReply {
            status: 401,
            body: ErrorResponse { code: ERR_UNAUTHENTICATED },
        },
        ApiError::Authorization(_) => ErrorReply {
            status: 403,
            body: ErrorResponse { code: ERR_UNAUTHORIZED },
        },
        ApiError::Validation(_) => ErrorReply {
            status: 400,
            body: ErrorResponse { code: ERR_INVALID_PARAMETERS },
        },
        ApiError::Server(_) => ErrorReply {
            status: 500,
            body: ErrorResponse { code: ERR_UNKNOWN },
        },
    }
}

} // verus!
