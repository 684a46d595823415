use comu::claims::Claims;
use comu::codec::{mint, SigningContext};
use comu::middleware::{Header, JwtMiddleware, Request, RecordingHandler};

fn test_context() -> SigningContext {
    SigningContext::new(
        b"your_test_secret".to_vec(),
        "comu".to_string(),
        Some("doggy".to_string()),
    )
}

fn test_claims(now: i64, ttl: i64) -> Claims {
    Claims {
        sub: "user_id".to_string(),
        iss: "comu".to_string(),
        exp: now + ttl,
        iat: now,
        nbf: Some(now),
        aud: Some("doggy".to_string()),
        jti: "tok-mw".to_string(),
        role: vec!["user".to_string()],
        email: None,
    }
}

fn request_with(headers: Vec<(&str, String)>) -> Request {
    Request {
        headers: headers
            .into_iter()
            .map(|(n, v)| Header { name: n.to_string(), value: v })
            .collect(),
    }
}

#[test]
fn test_jwt_middleware_success() {
    let now: i64 = 1_700_000_000;
    let token = mint(&test_context(), &test_claims(now, 3600)).unwrap();
    let mw = JwtMiddleware::new(test_context());
    let mut service = mw.wrap(RecordingHandler::new(200, "Access granted".to_string()));
    let req = request_with(vec![("Authorization", format!("Bearer {}", token))]);
    let resp = service.call(&req, now);
    assert_eq!(resp.status, 200);
    assert_eq!(resp.body, "Access granted");
    assert_eq!(service.service.calls.len(), 1);
    assert_eq!(service.service.calls[0].sub, "user_id");
}

#[test]
fn test_jwt_middleware_failure() {
    let now: i64 = 1_700_000_000;
    let mw = JwtMiddleware::new(test_context());
    let mut service = mw.wrap(RecordingHandler::new(200, "Access granted".to_string()));
    let req = request_with(vec![("Authorization", "Bearer invalid_token".to_string())]);
    let resp = service.call(&req, now);
    assert_eq!(resp.status, 401);
    assert_eq!(resp.body, "{\"message\":\"Unauthorized\"}");
    assert_eq!(service.service.calls.len(), 0);
}

#[test]
fn missing_header_never_reaches_downstream() {
    let now: i64 = 1_700_000_000;
    let mw = JwtMiddleware::new(test_context());
    let mut service = mw.wrap(RecordingHandler::new(200, "Access granted".to_string()));
    let req = request_with(vec![("Content-Type", "application/json".to_string())]);
    let resp = service.call(&req, now);
    assert_eq!(resp.status, 401);
    assert_eq!(resp.body, "{\"message\":\"Unauthorized\"}");
    assert_eq!(service.service.calls.len(), 0);
}

#[test]
fn wrong_scheme_is_rejected_before_decoding() {
    let now: i64 = 1_700_000_000;
    let mw = JwtMiddleware::new(test_context());
    let mut service = mw.wrap(RecordingHandler::new(200, "Access granted".to_string()));
    let req = request_with(vec![("Authorization", "Token abc123".to_string())]);
    let resp = service.call(&req, now);
    assert_eq!(resp.status, 401);
    assert_eq!(service.service.calls.len(), 0);
    // lower-case scheme and a missing space are rejections too
    for v in ["bearer abc", "Bearer"] {
        let req = request_with(vec![("Authorization", v.to_string())]);
        assert_eq!(service.call(&req, now).status, 401);
    }
    assert_eq!(service.service.calls.len(), 0);
}

#[test]
fn expired_token_is_rejected_by_the_interceptor() {
    let now: i64 = 1_700_000_000;
    let token = mint(&test_context(), &test_claims(now, -1)).unwrap();
    let mw = JwtMiddleware::new(test_context());
    let mut service = mw.wrap(RecordingHandler::new(200, "Access granted".to_string()));
    let req = request_with(vec![("Authorization", format!("Bearer {}", token))]);
    let resp = service.call(&req, now);
    assert_eq!(resp.status, 401);
    assert_eq!(resp.body, "{\"message\":\"Unauthorized\"}");
    assert_eq!(service.service.calls.len(), 0);
}

#[test]
fn downstream_sees_each_valid_request_once() {
    let now: i64 = 1_700_000_000;
    let token = mint(&test_context(), &test_claims(now, 3600)).unwrap();
    let mw = JwtMiddleware::new(test_context());
    let mut service = mw.wrap(RecordingHandler::new(204, String::new()));
    let req = request_with(vec![("Authorization", format!("Bearer {}", token))]);
    assert_eq!(service.call(&req, now).status, 204);
    assert_eq!(service.call(&req, now).status, 204);
    assert_eq!(service.service.calls.len(), 2);
    assert_eq!(service.service.calls[1].jti, "tok-mw");
}
