use comu::claims::Claims;
use comu::codec::{
    generate_jwt, mint, validate_jwt, verify_at, MintError, SigningContext, VerifyError,
};

fn test_context() -> SigningContext {
    SigningContext::new(
        b"your_test_secret".to_vec(),
        "comu".to_string(),
        Some("doggy".to_string()),
    )
}

fn test_claims(now: i64, ttl: i64) -> Claims {
    Claims {
        sub: "u-1".to_string(),
        iss: "comu".to_string(),
        exp: now + ttl,
        iat: now,
        nbf: Some(now),
        aud: Some("doggy".to_string()),
        jti: "tok-1".to_string(),
        role: vec!["user".to_string()],
        email: Some("u1@example.com".to_string()),
    }
}

#[test]
fn mint_then_verify_returns_equal_claims() {
    let ctx = test_context();
    let now: i64 = 1_700_000_000;
    let claims = test_claims(now, 86_400);
    let token = mint(&ctx, &claims).unwrap();
    let got = verify_at(&ctx, &token, now).unwrap();
    assert_eq!(got.sub, "u-1");
    assert_eq!(got.iss, "comu");
    assert_eq!(got.exp, now + 86_400);
    assert_eq!(got.iat, now);
    assert_eq!(got.nbf, Some(now));
    assert_eq!(got.aud, Some("doggy".to_string()));
    assert_eq!(got.jti, "tok-1");
    assert_eq!(got.role, vec!["user".to_string()]);
    assert_eq!(got.email, Some("u1@example.com".to_string()));
    assert_eq!(got.exp - got.iat, 86_400);
}

#[test]
fn round_trip_keeps_unusual_text() {
    let ctx = test_context();
    let now: i64 = 1_700_000_000;
    let claims = Claims {
        sub: "u\u{142}tra \u{1F680}".to_string(),
        iss: "comu".to_string(),
        exp: now + 60,
        iat: now,
        nbf: None,
        aud: Some("doggy".to_string()),
        jti: "id-2".to_string(),
        role: vec!["r\u{f4}le".to_string(), "quote\"back\\slash".to_string()],
        email: Some("tab\tand\u{1}ctl@example.com".to_string()),
    };
    let token = mint(&ctx, &claims).unwrap();
    let got = verify_at(&ctx, &token, now).unwrap();
    assert_eq!(got.sub, claims.sub);
    assert_eq!(got.nbf, None);
    assert_eq!(got.role, claims.role);
    assert_eq!(got.email, claims.email);
}

#[test]
fn flipped_signature_byte_is_rejected() {
    let ctx = test_context();
    let now: i64 = 1_700_000_000;
    let token = mint(&ctx, &test_claims(now, 3600)).unwrap();
    let dot = token.rfind('.').unwrap();
    for i in dot + 1..token.len() {
        let mut bytes = token.clone().into_bytes();
        bytes[i] = if bytes[i] == b'A' { b'B' } else { b'A' };
        let tampered = String::from_utf8(bytes).unwrap();
        if tampered == token {
            continue;
        }
        assert_eq!(
            verify_at(&ctx, &tampered, now),
            Err(VerifyError::BadSignature)
        );
    }
}

#[test]
fn dot_in_signature_is_malformed() {
    let ctx = test_context();
    let now: i64 = 1_700_000_000;
    let token = mint(&ctx, &test_claims(now, 3600)).unwrap();
    let dot = token.rfind('.').unwrap();
    let mut bytes = token.into_bytes();
    bytes[dot + 1] = b'.';
    let tampered = String::from_utf8(bytes).unwrap();
    assert_eq!(verify_at(&ctx, &tampered, now), Err(VerifyError::Malformed));
}

#[test]
fn zero_or_negative_lifetime_is_expired_at_once() {
    let ctx = test_context();
    let now: i64 = 1_700_000_000;
    for ttl in [0i64, -1, -3600] {
        let token = mint(&ctx, &test_claims(now, ttl)).unwrap();
        assert_eq!(verify_at(&ctx, &token, now), Err(VerifyError::Expired));
    }
}

#[test]
fn foreign_issuer_is_rejected_despite_valid_signature() {
    let ctx = test_context();
    let now: i64 = 1_700_000_000;
    let mut claims = test_claims(now, 3600);
    claims.iss = "someone-else".to_string();
    let token = mint(&ctx, &claims).unwrap();
    assert_eq!(
        verify_at(&ctx, &token, now),
        Err(VerifyError::IssuerMismatch)
    );
}

#[test]
fn wrong_or_missing_audience_is_rejected() {
    let ctx = test_context();
    let now: i64 = 1_700_000_000;
    let mut claims = test_claims(now, 3600);
    claims.aud = Some("catty".to_string());
    let token = mint(&ctx, &claims).unwrap();
    assert_eq!(
        verify_at(&ctx, &token, now),
        Err(VerifyError::AudienceMismatch)
    );
    let mut claims2 = test_claims(now, 3600);
    claims2.aud = None;
    let token2 = mint(&ctx, &claims2).unwrap();
    assert_eq!(
        verify_at(&ctx, &token2, now),
        Err(VerifyError::AudienceMismatch)
    );
    let lax = SigningContext::new(b"your_test_secret".to_vec(), "comu".to_string(), None);
    let token3 = mint(&lax, &claims2).unwrap();
    assert!(verify_at(&lax, &token3, now).is_ok());
}

#[test]
fn not_yet_valid_token_is_rejected() {
    let ctx = test_context();
    let now: i64 = 1_700_000_000;
    let mut claims = test_claims(now, 3600);
    claims.nbf = Some(now + 100);
    let token = mint(&ctx, &claims).unwrap();
    assert_eq!(verify_at(&ctx, &token, now), Err(VerifyError::NotYetValid));
    assert!(verify_at(&ctx, &token, now + 100).is_ok());
}

#[test]
fn malformed_tokens_are_rejected() {
    let ctx = test_context();
    let now: i64 = 1_700_000_000;
    for bad in [
        "",
        "garbage",
        "a.b",
        "a.b.c.d",
        "notaheader.e30.c2ln",
        "...",
    ] {
        assert_eq!(verify_at(&ctx, bad, now), Err(VerifyError::Malformed));
    }
    let token = mint(&ctx, &test_claims(now, 3600)).unwrap();
    let first_dot = token.find('.').unwrap();
    let mut bytes = token.into_bytes();
    bytes[first_dot + 1] = b'!';
    let tampered = String::from_utf8(bytes).unwrap();
    assert_eq!(verify_at(&ctx, &tampered, now), Err(VerifyError::Malformed));
}

#[test]
fn mint_failures_are_exact() {
    let now: i64 = 1_700_000_000;
    let empty_secret = SigningContext::new(Vec::new(), "comu".to_string(), None);
    assert_eq!(
        mint(&empty_secret, &test_claims(now, 3600)),
        Err(MintError::MissingSecret)
    );
    let ctx = test_context();
    let mut claims = test_claims(now, 3600);
    claims.sub = String::new();
    assert_eq!(mint(&ctx, &claims), Err(MintError::InvalidClaims));
}

#[test]
fn issue_and_validate_with_real_clock_and_id() {
    let secret = "your_test_secret";
    let token = generate_jwt(
        secret,
        "u-1",
        86_400,
        vec!["user".to_string()],
        None,
    )
    .unwrap();
    let claims = validate_jwt(secret, &token).unwrap();
    assert_eq!(claims.sub, "u-1");
    assert_eq!(claims.role, vec!["user".to_string()]);
    assert_eq!(claims.exp - claims.iat, 86_400);
    assert_eq!(claims.jti.len(), 36);
    assert_eq!(generate_jwt("", "u-1", 60, vec![], None), Err(MintError::MissingSecret));
    assert_eq!(
        generate_jwt(secret, "", 60, vec![], None),
        Err(MintError::InvalidClaims)
    );
}

#[test]
fn negative_timestamps_survive_the_round_trip() {
    let ctx = test_context();
    let now: i64 = -5;
    let mut claims = test_claims(now, 10);
    claims.nbf = Some(-7);
    let token = mint(&ctx, &claims).unwrap();
    let got = verify_at(&ctx, &token, now).unwrap();
    assert_eq!(got.iat, -5);
    assert_eq!(got.nbf, Some(-7));
    assert_eq!(got.exp, 5);
}

#[test]
fn base64url_known_vectors() {
    assert_eq!(comu::base64url_encode(b""), b"".to_vec());
    assert_eq!(comu::base64url_encode(b"abc"), b"YWJj".to_vec());
    assert_eq!(comu::base64url_encode(b"ab"), b"YWI".to_vec());
    assert_eq!(comu::base64url_encode(&[0xfb, 0xff]), b"-_8".to_vec());
    assert_eq!(comu::base64url_decode(b"YWJj"), Some(b"abc".to_vec()));
    assert_eq!(comu::base64url_decode(b"YWI"), Some(b"ab".to_vec()));
    // non-zero trailing bits: not a canonical encoding
    assert_eq!(comu::base64url_decode(b"YWJ"), None);
    assert_eq!(comu::base64url_decode(b"YWJj="), None);
    assert_eq!(comu::base64url_decode(b"Y"), None);
}

#[test]
fn minted_tokens_are_real_signed_tokens() {
    let ctx = test_context();
    let now: i64 = 1_700_000_000;
    let token = mint(&ctx, &test_claims(now, 3600)).unwrap();

    let header = jsonwebtoken::decode_header(&token).unwrap();
    assert_eq!(header.alg, jsonwebtoken::Algorithm::HS256);
    assert_eq!(header.typ.as_deref(), Some("JWT"));

    let parts: Vec<&str> = token.split('.').collect();
    assert_eq!(parts.len(), 3);
    let message = format!("{}.{}", parts[0], parts[1]);
    let key = jsonwebtoken::DecodingKey::from_secret(b"your_test_secret");
    let ok = jsonwebtoken::crypto::verify(
        parts[2],
        message.as_bytes(),
        &key,
        jsonwebtoken::Algorithm::HS256,
    )
    .unwrap();
    assert!(ok);

    let wrong = jsonwebtoken::DecodingKey::from_secret(b"another_secret");
    let bad = jsonwebtoken::crypto::verify(
        parts[2],
        message.as_bytes(),
        &wrong,
        jsonwebtoken::Algorithm::HS256,
    )
    .unwrap();
    assert!(!bad);
}

#[test]
fn full_decode_with_outside_library_agrees() {
    let secret = "your_test_secret";
    let token = generate_jwt(secret, "u-9", 3600, vec!["admin".to_string()], None).unwrap();
    let mut validation = jsonwebtoken::Validation::new(jsonwebtoken::Algorithm::HS256);
    validation.set_issuer(&["comu"]);
    validation.set_audience(&["doggy"]);
    let data = jsonwebtoken::decode::<serde_json::Value>(
        &token,
        &jsonwebtoken::DecodingKey::from_secret(secret.as_bytes()),
        &validation,
    )
    .unwrap();
    assert_eq!(data.claims["sub"], serde_json::Value::String("u-9".to_string()));
    assert_eq!(
        data.claims["role"][0],
        serde_json::Value::String("admin".to_string())
    );
}
