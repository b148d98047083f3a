//! The errors of the service.
use vstd::prelude::*;

verus! {

/// What went wrong; the strings carry the human-readable detail.
#[derive(Clone, Debug, PartialEq, Eq)]
pub enum ServiceError {
    Validation(String),
    InvalidCursor,
    ObjectAlreadyExists,
    ObjectNotFound,
    InvalidObjectKey,
    Storage(String),
    Serialization(String),
    Io(String),
    Configuration(String),
    IdGeneration(String),
    /// An idempotency key was used again with a different request.
    IdempotencyConflict,
}

/// A validation error with `message`.
pub fn validation_error(message: &str) -> (e: ServiceError)
    ensures
        e matches ServiceError::Validation(m) && m@ == message@,
{
    ServiceError::Validation(message.to_string())
}

} // verus!
