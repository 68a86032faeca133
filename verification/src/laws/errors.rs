//! What answers to refused requests promise.

use vstd::prelude::*;

use crate::error::{code_of, public_message, status_of, ErrorKind, ErrorView};

verus! {

/// Every sort of error has its own status and its own code, and is told with its message unless it
/// is a fault of the installation.
pub proof fn law_errors_are_answered_by_their_sort(error: ErrorView)
    ensures
        error.kind == ErrorKind::Unauthorized <==> status_of(error.kind) == 401,
        error.kind == ErrorKind::Forbidden <==> status_of(error.kind) == 403,
        error.kind == ErrorKind::NotFound <==> status_of(error.kind) == 404,
        error.kind == ErrorKind::Conflict <==> status_of(error.kind) == 409,
        error.kind == ErrorKind::Validation <==> status_of(error.kind) == 422,
        error.kind == ErrorKind::Database || error.kind == ErrorKind::Internal <==> status_of(
            error.kind,
        ) == 500,
        error.kind == ErrorKind::Unauthorized ==> code_of(error.kind) == "unauthorized"@,
        error.kind == ErrorKind::Forbidden ==> code_of(error.kind) == "forbidden"@,
        error.kind == ErrorKind::NotFound ==> code_of(error.kind) == "not_found"@,
        error.kind == ErrorKind::Conflict ==> code_of(error.kind) == "conflict"@,
        error.kind == ErrorKind::Validation ==> code_of(error.kind) == "invalid_request"@,
        error.kind == ErrorKind::Database ==> code_of(error.kind) == "database_error"@,
        error.kind == ErrorKind::Internal ==> code_of(error.kind) == "internal_error"@,
        status_of(error.kind) < 500 ==> public_message(error) == error.message,
        error.kind == ErrorKind::Database ==> public_message(error) == "database operation failed"@,
        error.kind == ErrorKind::Internal ==> public_message(error) == "internal server error"@,
{
}

} // verus!
