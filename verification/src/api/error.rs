//! Unified error type returned by request handling.
use vstd::prelude::*;

verus! {

/// Error of a request, mapped by the HTTP layer to a status code and a JSON body.
#[derive(Debug)]
pub enum ApiError {
    /// 400: the request is malformed or violates a rule.
    BadRequest(String),
    /// 401: the caller is not authenticated.
    Unauthorized(String),
    /// 403: the caller may not do this.
    Forbidden(String),
    /// 404: the resource does not exist or is hidden from the caller.
    NotFound(String),
    /// 500: an internal failure.
    Internal(String),
}

/// Result of request handling.
pub type ApiResult<T> = Result<T, ApiError>;

/// `e` is a `BadRequest` carrying the message `msg`.
pub open spec fn is_bad_request(e: ApiError, msg: Seq<char>) -> bool {
    e matches ApiError::BadRequest(m) && m@ == msg
}

/// `e` is a `Forbidden` carrying the message `msg`.
pub open spec fn is_forbidden(e: ApiError, msg: Seq<char>) -> bool {
    e matches ApiError::Forbidden(m) && m@ == msg
}

/// `e` is a `NotFound` carrying the message `msg`.
pub open spec fn is_not_found(e: ApiError, msg: Seq<char>) -> bool {
    e matches ApiError::NotFound(m) && m@ == msg
}

/// `e` is an `Unauthorized` carrying the message `msg`.
pub open spec fn is_unauthorized(e: ApiError, msg: Seq<char>) -> bool {
    e matches ApiError::Unauthorized(m) && m@ == msg
}

impl ApiError {
    /// A `BadRequest` error with the given message.
    pub fn bad_request(msg: &str) -> (e: ApiError)
        ensures
            is_bad_request(e, msg@),
    {
        ApiError::BadRequest(String::from_str(msg))
    }

    /// A `Forbidden` error with the given message.
    pub fn forbidden(msg: &str) -> (e: ApiError)
        ensures
            is_forbidden(e, msg@),
    {
        ApiError::Forbidden(String::from_str(msg))
    }

    /// A `NotFound` error with the given message.
    pub fn not_found(msg: &str) -> (e: ApiError)
        ensures
            is_not_found(e, msg@),
    {
        ApiError::NotFound(String::from_str(msg))
    }

    /// An `Unauthorized` error with the given message.
    pub fn unauthorized(msg: &str) -> (e: ApiError)
        ensures
            is_unauthorized(e, msg@),
    {
        ApiError::Unauthorized(String::from_str(msg))
    }

    /// An `Internal` error with the given message.
    pub fn internal(msg: &str) -> (e: ApiError)
        ensures
            e matches ApiError::Internal(m) && m@ == msg@,
    {
        ApiError::Internal(String::from_str(msg))
    }
}

/// The body an error response carries: the status code and the message
/// shown to the client.
#[derive(Debug)]
pub struct ErrorBody {
    pub code: u16,
    pub error: String,
}

/// The message shown for an internal failure, whose details stay in the log.
pub const MSG_INTERNAL: &'static str = "Internal server error";

/// The status code a request refused with `e` is answered with.
pub open spec fn status_of(e: ApiError) -> u16 {
    match e {
        ApiError::BadRequest(_) => 400,
        ApiError::Unauthorized(_) => 401,
        ApiError::Forbidden(_) => 403,
        ApiError::NotFound(_) => 404,
        ApiError::Internal(_) => 500,
    }
}

/// The message a client is shown for `e`: its own, except for internal
/// failures.
pub open spec fn client_message_of(e: ApiError) -> Seq<char> {
    match e {
        ApiError::BadRequest(m) => m@,
        ApiError::Unauthorized(m) => m@,
        ApiError::Forbidden(m) => m@,
        ApiError::NotFound(m) => m@,
        ApiError::Internal(_) => MSG_INTERNAL@,
    }
}

/// How an error reads in the log: its kind, then its message.
pub open spec fn description_of(e: ApiError) -> Seq<char> {
    match e {
        ApiError::BadRequest(m) => "BadRequest: "@ + m@,
        ApiError::Unauthorized(m) => "Unauthorized: "@ + m@,
        ApiError::Forbidden(m) => "Forbidden: "@ + m@,
        ApiError::NotFound(m) => "NotFound: "@ + m@,
        ApiError::Internal(m) => "Internal error: "@ + m@,
    }
}

impl ApiError {
    /// The error as text for the log.
    pub fn describe(&self) -> (s: String)
        ensures
            s@ == description_of(*self),
    {
        let (kind, m) = match self {
            ApiError::BadRequest(m) => ("BadRequest: ", m),
            ApiError::Unauthorized(m) => ("Unauthorized: ", m),
            ApiError::Forbidden(m) => ("Forbidden: ", m),
            ApiError::NotFound(m) => ("NotFound: ", m),
            ApiError::Internal(m) => ("Internal error: ", m),
        };
        let mut out = String::from_str(kind);
        out.append(m.as_str());
        out
    }

    /// The answer to a refused request: its status code and the message the
    /// client sees.
    pub fn error_body(&self) -> (b: ErrorBody)
        ensures
            b.code == status_of(*self),
            b.error@ == client_message_of(*self),
    {
        match self {
            ApiError::BadRequest(m) => ErrorBody { code: 400, error: m.clone() },
            ApiError::Unauthorized(m) => ErrorBody { code: 401, error: m.clone() },
            ApiError::Forbidden(m) => ErrorBody { code: 403, error: m.clone() },
            ApiError::NotFound(m) => ErrorBody { code: 404, error: m.clone() },
            ApiError::Internal(_) => ErrorBody { code: 500, error: String::from_str(MSG_INTERNAL) },
        }
    }
}

} // verus!
