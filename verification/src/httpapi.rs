//! The HTTP face of the service: how a route's path and query become request
//! values, and how an error becomes a status code and a JSON body.
use crate::config::{parse_usize, parse_usize_spec};
use crate::error::ServiceError;
use crate::storage::b2::{is_slash_char, strip_leading_slashes};
use crate::text::{append_str, chars_of, string_of, trim_start_by};
use vstd::prelude::*;

verus! {

broadcast use vstd::string::group_string_axioms;

/// The JSON body of an error answer.
#[derive(Clone, Debug, PartialEq, Eq)]
pub struct ErrorBody {
    pub error: String,
    pub message: String,
}

pub fn error_body(error: &str, message: &str) -> (r: ErrorBody)
    ensures
        r.error@ == error@,
        r.message@ == message@,
{
    ErrorBody { error: error.to_string(), message: message.to_string() }
}

/// The status code and body that answer `error`, as the service reports it:
/// a validation problem or a bad cursor or key is the client's (400), a
/// missing object is 404, an existing one or an idempotency key reused with a
/// different request 409, anything else the server's (500, with no detail).
pub open spec fn error_answer(error: ServiceError) -> (u16, Seq<char>, Seq<char>) {
    match error {
        ServiceError::Validation(m) => (400, "validation_error"@, "validation error: "@ + m@),
        ServiceError::InvalidCursor => (400, "validation_error"@, "invalid cursor"@),
        ServiceError::ObjectNotFound => (404, "not_found"@, "object not found"@),
        ServiceError::ObjectAlreadyExists => (409, "already_exists"@, "object already exists"@),
        ServiceError::InvalidObjectKey => (400, "validation_error"@, "invalid object key"@),
        ServiceError::IdempotencyConflict => (
            409,
            "idempotency_conflict"@,
            "idempotency key was used with a different request"@,
        ),
        _ => (500, "internal_error"@, "internal server error"@),
    }
}

pub fn error_response(error: &ServiceError) -> (r: (u16, ErrorBody))
    ensures
        r.0 == error_answer(*error).0,
        r.1.error@ == error_answer(*error).1,
        r.1.message@ == error_answer(*error).2,
{
    match error {
        ServiceError::Validation(message) => {
            let mut text = chars_of("validation error: ");
            append_str(&mut text, message.as_str());
            (400, ErrorBody { error: "validation_error".to_string(), message: string_of(&text) })
        },
        ServiceError::InvalidCursor => (400, error_body("validation_error", "invalid cursor")),
        ServiceError::ObjectNotFound => (404, error_body("not_found", "object not found")),
        ServiceError::ObjectAlreadyExists => (
            409,
            error_body("already_exists", "object already exists"),
        ),
        ServiceError::InvalidObjectKey => (400, error_body("validation_error", "invalid object key")),
        ServiceError::IdempotencyConflict => (
            409,
            error_body("idempotency_conflict", "idempotency key was used with a different request"),
        ),
        _ => (500, error_body("internal_error", "internal server error")),
    }
}

/// The page size a listing route asks for: its `limit` query value as a
/// number, or 0 (the service's limit) when it is absent or not a number.
pub fn parse_limit(limit: Option<&str>) -> (r: usize)
    ensures
        match limit {
            None => r == 0,
            Some(v) => match parse_usize_spec(v@) {
                Some(n) => r == n,
                None => r == 0,
            },
        },
{
    match limit {
        None => 0,
        Some(v) => match parse_usize(v) {
            Some(n) => n,
            None => 0,
        },
    }
}

/// The id or key a `/{*target}` route names: the path's tail without its
/// leading slashes.
pub fn route_target(path: &str) -> (r: String)
    ensures
        r@ == trim_start_by(path@, |c: char| is_slash_char(c)),
{
    string_of(&strip_leading_slashes(&chars_of(path)))
}


/// Which errors are the client's: a validation problem, a bad cursor or a bad
/// key answer 400; a missing object 404; an existing object or a reused
/// idempotency key 409; everything else 500, whose body tells nothing of the
/// failure.
pub proof fn lemma_error_statuses(e: ServiceError)
    ensures
        (e is Validation || e is InvalidCursor || e is InvalidObjectKey) <==> error_answer(e).0
            == 400,
        e is ObjectNotFound <==> error_answer(e).0 == 404,
        (e is ObjectAlreadyExists || e is IdempotencyConflict) <==> error_answer(e).0 == 409,
        error_answer(e).0 == 500 ==> error_answer(e).1 == "internal_error"@ && error_answer(e).2
            == "internal server error"@,
        error_answer(e).0 == 400 || error_answer(e).0 == 404 || error_answer(e).0 == 409
            || error_answer(e).0 == 500,
{
}

} // verus!
