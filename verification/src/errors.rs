//! Error taxonomy: storage-level errors and the typed responses handed to
//! callers of the service layer.

use vstd::prelude::*;

use crate::token::TokenError;

verus! {

/// A storage operation failed.
#[derive(Clone, Copy, Debug, PartialEq, Eq, Structural)]
pub enum DaoError {
    /// The addressed row does not exist.
    NotFound,
    /// A digest-guarded write presented a stale digest.
    OutOfDateHash,
    /// A referenced row (a category) does not exist.
    ForeignKeyViolation,
    /// A freshly drawn identifier collided with an existing row.
    UniquenessViolation,
}

/// The typed error a service operation surfaces to its caller.  Signature
/// and lookup failures are deliberately conflated into `DoesNotExist` so
/// that callers cannot probe which check failed.
#[derive(Clone, Copy, Debug, PartialEq, Eq)]
pub enum HttpErrorResponse {
    DoesNotExist(&'static str),
    IncorrectlyFormed(&'static str),
    InvalidState(&'static str),
    OutOfDate(&'static str),
    ReadOnlyAccess(&'static str),
    ForeignKeyDoesNotExist(&'static str),
    InternalError(&'static str),
}

/// How a token failure surfaces to a caller: expiration is recoverable and
/// said plainly; a bad signature is conflated with absence.
pub fn token_error_response(e: TokenError) -> (r: HttpErrorResponse)
    ensures
        e == TokenError::Expired ==> r is OutOfDate,
        e == TokenError::BadSignature ==> r is DoesNotExist,
        e == TokenError::Malformed ==> r is IncorrectlyFormed,
{
    match e {
        TokenError::Expired => HttpErrorResponse::OutOfDate("Token expired"),
        TokenError::BadSignature => HttpErrorResponse::DoesNotExist("Token verification failed"),
        TokenError::Malformed => HttpErrorResponse::IncorrectlyFormed("Token is malformed"),
    }
}

} // verus!
