//! Typed errors surfaced by the library, and the wire-level status record the
//! API layer sends for them.

use vstd::prelude::*;
use vstd::string::StringExecFns;

verus! {

/// Typed failure of a registry, queue or playback operation.
#[derive(Clone, Copy, Debug, PartialEq, Eq, Structural)]
pub enum ApiError {
    /// The input was rejected (bad room name, bad duration string).
    BadRequest,
    /// The requested room or record does not exist.
    NotFound,
    /// The record could not be persisted (duplicate name, exhausted ids).
    Conflict,
    /// A skip was requested for a room with no active playback loop.
    InvalidRoom,
    /// The store could not complete the operation.
    InternalError,
}

/// Status record the API layer serializes into an HTTP response body.
pub struct Error {
    pub status: u16,
    pub message: String,
}

impl Error {
    /// The status record for a failure, with the status code and message the
    /// HTTP layer uses for it.
    pub fn of_api_error(e: &ApiError) -> (r: Error)
        ensures
            r.status == e.status_code(),
            r.message@ == e.status_message(),
    {
        proof {
            reveal_strlit("Bad Request");
            reveal_strlit("The requested resource was not found");
            reveal_strlit("Conflict");
            reveal_strlit("Invalid room, could not skip song.");
            reveal_strlit("Internal Server Error");
        }
        match e {
            ApiError::BadRequest => Error { status: 400, message: String::from_str("Bad Request") },
            ApiError::NotFound => Error {
                status: 404,
                message: String::from_str("The requested resource was not found"),
            },
            ApiError::Conflict => Error { status: 409, message: String::from_str("Conflict") },
            ApiError::InvalidRoom => Error {
                status: 400,
                message: String::from_str("Invalid room, could not skip song."),
            },
            ApiError::InternalError => Error {
                status: 500,
                message: String::from_str("Internal Server Error"),
            },
        }
    }
}

impl ApiError {
    /// The HTTP status code this error maps to.
    pub open spec fn status_code(&self) -> u16 {
        match self {
            ApiError::BadRequest => 400,
            ApiError::NotFound => 404,
            ApiError::Conflict => 409,
            ApiError::InvalidRoom => 400,
            ApiError::InternalError => 500,
        }
    }

    /// The response body message this error maps to.
    pub open spec fn status_message(&self) -> Seq<char> {
        match self {
            ApiError::BadRequest => "Bad Request"@,
            ApiError::NotFound => "The requested resource was not found"@,
            ApiError::Conflict => "Conflict"@,
            ApiError::InvalidRoom => "Invalid room, could not skip song."@,
            ApiError::InternalError => "Internal Server Error"@,
        }
    }
}

} // verus!
