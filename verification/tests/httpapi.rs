use s3_message_service::error::ServiceError;
use s3_message_service::httpapi::{error_body, error_response, parse_limit, route_target};

#[test]
fn errors_map_to_status_and_body() {
    let (status, body) = error_response(&ServiceError::Validation("actorId is required".to_string()));
    assert_eq!(status, 400);
    assert_eq!(body.error, "validation_error");
    assert_eq!(body.message, "validation error: actorId is required");

    let (status, body) = error_response(&ServiceError::InvalidCursor);
    assert_eq!((status, body.message.as_str()), (400, "invalid cursor"));
    let (status, body) = error_response(&ServiceError::ObjectNotFound);
    assert_eq!((status, body.error.as_str()), (404, "not_found"));
    let (status, body) = error_response(&ServiceError::ObjectAlreadyExists);
    assert_eq!((status, body.error.as_str()), (409, "already_exists"));
    let (status, body) = error_response(&ServiceError::InvalidObjectKey);
    assert_eq!((status, body.message.as_str()), (400, "invalid object key"));
    let (status, body) = error_response(&ServiceError::IdempotencyConflict);
    assert_eq!((status, body.error.as_str()), (409, "idempotency_conflict"));
    let (status, body) = error_response(&ServiceError::Storage("disk".to_string()));
    assert_eq!(status, 500);
    assert_eq!(body.error, "internal_error");
    assert_eq!(body.message, "internal server error");
}

#[test]
fn error_body_carries_its_parts() {
    let body = error_body("bad_request", "expected value");
    assert_eq!(body.error, "bad_request");
    assert_eq!(body.message, "expected value");
}

#[test]
fn limits_parse_or_fall_back_to_zero() {
    assert_eq!(parse_limit(None), 0);
    assert_eq!(parse_limit(Some("25")), 25);
    assert_eq!(parse_limit(Some("ten")), 0);
    assert_eq!(parse_limit(Some("-3")), 0);
}

#[test]
fn route_targets_drop_leading_slashes() {
    assert_eq!(route_target("//messages/a.json"), "messages/a.json");
    assert_eq!(route_target("abc"), "abc");
}
