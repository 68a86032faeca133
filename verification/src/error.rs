//! Why the controller refuses a request, and what it answers then.

use vstd::prelude::*;
use vstd::string::*;

use crate::config::ConfigError;
use crate::identity::IdentityError;
use crate::network::NetworkError;

verus! {

/// Why a request is refused.
#[derive(Debug, Clone, PartialEq, Eq)]
pub enum ApiError {
    Unauthorized(String),
    NotFound(String),
    Conflict(String),
    Validation(String),
    Forbidden(String),
    Database(String),
    Internal(String),
}

/// The sorts of [`ApiError`].
#[derive(Debug, Clone, Copy, PartialEq, Eq, Structural)]
pub enum ErrorKind {
    Unauthorized,
    NotFound,
    Conflict,
    Validation,
    Forbidden,
    Database,
    Internal,
}

/// The contents of an [`ApiError`].
#[verifier::ext_equal]
pub struct ErrorView {
    pub kind: ErrorKind,
    pub message: Seq<char>,
}

impl View for ApiError {
    type V = ErrorView;

    open spec fn view(&self) -> ErrorView {
        match self {
            ApiError::Unauthorized(m) => ErrorView { kind: ErrorKind::Unauthorized, message: m@ },
            ApiError::NotFound(m) => ErrorView { kind: ErrorKind::NotFound, message: m@ },
            ApiError::Conflict(m) => ErrorView { kind: ErrorKind::Conflict, message: m@ },
            ApiError::Validation(m) => ErrorView { kind: ErrorKind::Validation, message: m@ },
            ApiError::Forbidden(m) => ErrorView { kind: ErrorKind::Forbidden, message: m@ },
            ApiError::Database(m) => ErrorView { kind: ErrorKind::Database, message: m@ },
            ApiError::Internal(m) => ErrorView { kind: ErrorKind::Internal, message: m@ },
        }
    }
}

/// A refusal for want of a valid login.
pub open spec fn unauthorized(message: Seq<char>) -> ErrorView {
    ErrorView { kind: ErrorKind::Unauthorized, message }
}

/// A refusal because something does not exist.
pub open spec fn not_found(message: Seq<char>) -> ErrorView {
    ErrorView { kind: ErrorKind::NotFound, message }
}

/// A refusal because of the present state of things.
pub open spec fn conflict(message: Seq<char>) -> ErrorView {
    ErrorView { kind: ErrorKind::Conflict, message }
}

/// A refusal of a request that makes no sense.
pub open spec fn validation(message: Seq<char>) -> ErrorView {
    ErrorView { kind: ErrorKind::Validation, message }
}

/// A refusal for want of a right.
pub open spec fn forbidden(message: Seq<char>) -> ErrorView {
    ErrorView { kind: ErrorKind::Forbidden, message }
}

/// A fault of the controller itself.
pub open spec fn internal(message: Seq<char>) -> ErrorView {
    ErrorView { kind: ErrorKind::Internal, message }
}

/// Whether a check ends as it should: with an error where there is one to report.
pub open spec fn checks(r: Result<(), ApiError>, fault: Option<ErrorView>) -> bool {
    match fault {
        None => r is Ok,
        Some(e) => r is Err && r->Err_0@ == e,
    }
}

/// A refusal for want of a valid login.
pub fn unauthorized_error(message: &str) -> (r: ApiError)
    ensures
        r@ == unauthorized(message@),
{
    ApiError::Unauthorized(message.to_owned())
}

/// A refusal because something does not exist.
pub fn not_found_error(message: &str) -> (r: ApiError)
    ensures
        r@ == not_found(message@),
{
    ApiError::NotFound(message.to_owned())
}

/// A refusal because of the present state of things.
pub fn conflict_error(message: &str) -> (r: ApiError)
    ensures
        r@ == conflict(message@),
{
    ApiError::Conflict(message.to_owned())
}

/// A refusal of a request that makes no sense.
pub fn validation_error(message: &str) -> (r: ApiError)
    ensures
        r@ == validation(message@),
{
    ApiError::Validation(message.to_owned())
}

/// A refusal for want of a right.
pub fn forbidden_error(message: &str) -> (r: ApiError)
    ensures
        r@ == forbidden(message@),
{
    ApiError::Forbidden(message.to_owned())
}

/// A fault of the controller itself.
pub fn internal_error(message: &str) -> (r: ApiError)
    ensures
        r@ == internal(message@),
{
    ApiError::Internal(message.to_owned())
}

/// A refusal of an address plan.
pub fn network_error(error: &NetworkError) -> (r: ApiError)
    ensures
        r@ == validation(error.text()),
{
    ApiError::Validation(error.message())
}

/// A refusal of a profile.
pub fn config_error(error: &ConfigError) -> (r: ApiError)
    ensures
        r@ == validation(error.text()),
{
    ApiError::Validation(error.message())
}

/// A refusal of an email address or a group name.
pub fn identity_error(error: &IdentityError) -> (r: ApiError)
    ensures
        r@ == validation(error.text()),
{
    ApiError::Validation(error.message())
}

/// What the outside sees of an error: the status, a code and a message.
pub struct ErrorAnswer {
    pub status: u16,
    pub code: &'static str,
    pub message: String,
}

/// The status of an answer.
pub open spec fn status_of(kind: ErrorKind) -> u16 {
    match kind {
        ErrorKind::Unauthorized => 401,
        ErrorKind::Forbidden => 403,
        ErrorKind::NotFound => 404,
        ErrorKind::Conflict => 409,
        ErrorKind::Validation => 422,
        ErrorKind::Database => 500,
        ErrorKind::Internal => 500,
    }
}

/// The code of an answer.
pub open spec fn code_of(kind: ErrorKind) -> Seq<char> {
    match kind {
        ErrorKind::Unauthorized => "unauthorized"@,
        ErrorKind::Forbidden => "forbidden"@,
        ErrorKind::NotFound => "not_found"@,
        ErrorKind::Conflict => "conflict"@,
        ErrorKind::Validation => "invalid_request"@,
        ErrorKind::Database => "database_error"@,
        ErrorKind::Internal => "internal_error"@,
    }
}

/// The message of an answer: faults of the controller are not explained to the outside.
pub open spec fn public_message(error: ErrorView) -> Seq<char> {
    match error.kind {
        ErrorKind::Database => "database operation failed"@,
        ErrorKind::Internal => "internal server error"@,
        _ => error.message,
    }
}

impl ApiError {
    /// What the outside sees of the error.
    pub fn answer(&self) -> (r: ErrorAnswer)
        ensures
            r.status == status_of(self@.kind),
            r.code@ == code_of(self@.kind),
            r.message@ == public_message(self@),
    {
        match self {
            ApiError::Unauthorized(m) => ErrorAnswer {
                status: 401,
                code: "unauthorized",
                message: m.clone(),
            },
            ApiError::NotFound(m) => ErrorAnswer {
                status: 404,
                code: "not_found",
                message: m.clone(),
            },
            ApiError::Conflict(m) => ErrorAnswer {
                status: 409,
                code: "conflict",
                message: m.clone(),
            },
            ApiError::Validation(m) => ErrorAnswer {
                status: 422,
                code: "invalid_request",
                message: m.clone(),
            },
            ApiError::Forbidden(m) => ErrorAnswer {
                status: 403,
                code: "forbidden",
                message: m.clone(),
            },
            ApiError::Database(_) => ErrorAnswer {
                status: 500,
                code: "database_error",
                message: String::from_str("database operation failed"),
            },
            ApiError::Internal(_) => ErrorAnswer {
                status: 500,
                code: "internal_error",
                message: String::from_str("internal server error"),
            },
        }
    }

    /// What the error says inside the controller.
    pub fn message(&self) -> (r: String)
        ensures
            r@ == (match self@.kind {
                ErrorKind::Unauthorized => "unauthorized: "@ + self@.message,
                ErrorKind::NotFound => "not found: "@ + self@.message,
                ErrorKind::Conflict => "conflict: "@ + self@.message,
                ErrorKind::Validation => "invalid request: "@ + self@.message,
                ErrorKind::Forbidden => "forbidden: "@ + self@.message,
                ErrorKind::Database => "database operation failed"@,
                ErrorKind::Internal => "internal server error"@,
            }),
    {
        match self {
            ApiError::Unauthorized(m) => String::from_str("unauthorized: ").concat(m.as_str()),
            ApiError::NotFound(m) => String::from_str("not found: ").concat(m.as_str()),
            ApiError::Conflict(m) => String::from_str("conflict: ").concat(m.as_str()),
            ApiError::Validation(m) => String::from_str("invalid request: ").concat(m.as_str()),
            ApiError::Forbidden(m) => String::from_str("forbidden: ").concat(m.as_str()),
            ApiError::Database(_) => String::from_str("database operation failed"),
            ApiError::Internal(_) => String::from_str("internal server error"),
        }
    }
}

/// Faults of the controller answer the same whatever went wrong inside.
pub proof fn law_faults_are_not_disclosed(a: ErrorView, b: ErrorView)
    requires
        a.kind == b.kind,
        a.kind == ErrorKind::Database || a.kind == ErrorKind::Internal,
    ensures
        public_message(a) == public_message(b),
        status_of(a.kind) == 500,
{
}

} // verus!
