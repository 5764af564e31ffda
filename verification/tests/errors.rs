use htknow::api::error::ApiError;

#[test]
fn refused_requests_are_answered_with_their_status() {
    let b = ApiError::BadRequest("bad".to_string()).error_body();
    assert_eq!((b.code, b.error.as_str()), (400, "bad"));
    let b = ApiError::Unauthorized("who".to_string()).error_body();
    assert_eq!((b.code, b.error.as_str()), (401, "who"));
    let b = ApiError::Forbidden("no".to_string()).error_body();
    assert_eq!((b.code, b.error.as_str()), (403, "no"));
    let b = ApiError::NotFound("gone".to_string()).error_body();
    assert_eq!((b.code, b.error.as_str()), (404, "gone"));
    let b = ApiError::Internal("db locked at /var/x".to_string()).error_body();
    assert_eq!((b.code, b.error.as_str()), (500, "Internal server error"));
}

#[test]
fn errors_describe_themselves() {
    assert_eq!(ApiError::BadRequest("x".to_string()).describe(), "BadRequest: x");
    assert_eq!(ApiError::Internal("y".to_string()).describe(), "Internal error: y");
    assert_eq!(ApiError::NotFound(String::new()).describe(), "NotFound: ");
}

#[test]
fn error_constructors_keep_their_message() {
    assert!(matches!(ApiError::bad_request("b"), ApiError::BadRequest(m) if m == "b"));
    assert!(matches!(ApiError::not_found("n"), ApiError::NotFound(m) if m == "n"));
    assert!(matches!(ApiError::unauthorized("u"), ApiError::Unauthorized(m) if m == "u"));
    assert!(matches!(ApiError::forbidden("f"), ApiError::Forbidden(m) if m == "f"));
    assert!(matches!(ApiError::internal("i"), ApiError::Internal(m) if m == "i"));
}
