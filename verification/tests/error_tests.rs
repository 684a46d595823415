use comu::errors::AppError;

#[test]
fn error_messages_are_exact() {
    assert_eq!(
        AppError::DatabaseError("no route".to_string()).message(),
        "Database error: no route"
    );
    assert_eq!(AppError::Unauthorized.message(), "Unauthorized");
    assert_eq!(AppError::Forbidden.message(), "Forbidden");
    assert_eq!(
        AppError::BadRequest("bad json".to_string()).message(),
        "Bad request: bad json"
    );
    assert_eq!(
        AppError::NotFound("Post".to_string()).message(),
        "Not found: Post"
    );
}

#[test]
fn error_response_parts_are_exact() {
    let r = AppError::DatabaseError("no route".to_string()).response_parts();
    assert_eq!(r.code, 500);
    assert_eq!(r.message, "Database connection error");
    assert_eq!(r.details, Some("no route".to_string()));

    let r = AppError::Unauthorized.response_parts();
    assert_eq!(r.code, 401);
    assert_eq!(r.message, "Unauthorized");
    assert_eq!(r.details, None);

    let r = AppError::NotFound("Post".to_string()).response_parts();
    assert_eq!(r.code, 404);
    assert_eq!(r.message, "Post not found");

    let r = AppError::EnvVarError("JWT_SECRET".to_string()).response_parts();
    assert_eq!(r.code, 500);
    let r = AppError::Forbidden.response_parts();
    assert_eq!(r.code, 403);
    let r = AppError::BadRequest("x".to_string()).response_parts();
    assert_eq!(r.code, 400);
    let r = AppError::InternalServerError("x".to_string()).response_parts();
    assert_eq!(r.code, 500);
}
