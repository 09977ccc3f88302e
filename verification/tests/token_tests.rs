use authcore::token::authenticate;
use authcore::token::issue;
use authcore::token::verify_token;
use authcore::token::TOKEN_TTL_SECS;
use authcore::types::AuthError;
use authcore::types::Role;

fn bytes(s: &str) -> Vec<u8> {
    s.as_bytes().to_vec()
}

const SUB: &str = "550e8400-e29b-41d4-a716-446655440000";
const SECRET: &str = "SECRET-REDACTED";

#[test]
fn issue_then_verify_yields_claims_back() {
    let sub = bytes(SUB);
    let secret = bytes(SECRET);
    let now = 1_700_000_000i64;
    let token = issue(&sub, Role::Instructor, now, &secret);
    let caller = verify_token(&token, &secret, now).unwrap();
    assert_eq!(caller.subject, sub);
    assert_eq!(caller.role, Role::Instructor);
}

#[test]
fn verification_window_is_strict() {
    let sub = bytes(SUB);
    let secret = bytes(SECRET);
    let now = 1_700_000_000i64;
    let token = issue(&sub, Role::Student, now, &secret);
    let exp = now + TOKEN_TTL_SECS;
    // Any instant strictly before the expiration is accepted.
    assert!(verify_token(&token, &secret, now).is_ok());
    assert!(verify_token(&token, &secret, exp - 1).is_ok());
    // The expiration instant itself, and anything later, is not.
    assert_eq!(verify_token(&token, &secret, exp), Err(AuthError::Unauthenticated));
    assert_eq!(verify_token(&token, &secret, exp + 1), Err(AuthError::Unauthenticated));
}

#[test]
fn wrong_secret_is_rejected() {
    let sub = bytes(SUB);
    let now = 1_700_000_000i64;
    let token = issue(&sub, Role::Admin, now, &bytes("SECRET-REDACTED"));
    let r = verify_token(&token, &bytes("another-secret"), now);
    assert_eq!(r, Err(AuthError::Unauthenticated));
}

#[test]
fn tampering_with_any_byte_invalidates() {
    let sub = bytes(SUB);
    let secret = bytes(SECRET);
    let now = 1_700_000_000i64;
    let token = issue(&sub, Role::Student, now, &secret);
    for i in 0..token.len() {
        let mut forged = token.clone();
        // Flip one bit of one byte.
        forged[i] ^= 0x01;
        let r = verify_token(&forged, &secret, now);
        assert_eq!(r, Err(AuthError::Unauthenticated), "byte {} slipped through", i);
    }
}

#[test]
fn truncation_and_garbage_are_rejected() {
    let sub = bytes(SUB);
    let secret = bytes(SECRET);
    let now = 1_700_000_000i64;
    let token = issue(&sub, Role::Student, now, &secret);
    for cut in [0usize, 1, 36, 37, token.len() - 1] {
        let shorter: Vec<u8> = token[..cut].to_vec();
        assert_eq!(verify_token(&shorter, &secret, now), Err(AuthError::Unauthenticated));
    }
    assert_eq!(verify_token(&bytes(""), &secret, now), Err(AuthError::Unauthenticated));
    assert_eq!(verify_token(&bytes("not a token"), &secret, now), Err(AuthError::Unauthenticated));
}

#[test]
fn token_matches_the_jsonwebtoken_crate_byte_for_byte() {
    let sub = bytes(SUB);
    let secret = bytes(SECRET);
    let now = 1_700_000_000i64;
    let ours = issue(&sub, Role::Student, now, &secret);

    let claims_json = format!(
        "{{\"sub\":\"{}\",\"role\":\"Student\",\"exp\":{}}}",
        SUB,
        now + TOKEN_TTL_SECS
    );
    let raw = serde_json::value::RawValue::from_string(claims_json).unwrap();
    let theirs = jsonwebtoken::encode(
        &jsonwebtoken::Header::default(),
        &raw,
        &jsonwebtoken::EncodingKey::from_secret(&secret),
    )
    .unwrap();
    assert_eq!(String::from_utf8(ours).unwrap(), theirs);
}

#[test]
fn issued_token_passes_jsonwebtoken_validation() {
    let sub = bytes(SUB);
    let secret = bytes(SECRET);
    // The jsonwebtoken validator checks expiry against the system clock, so
    // issue against it too.
    let now = std::time::SystemTime::now()
        .duration_since(std::time::UNIX_EPOCH)
        .unwrap()
        .as_secs() as i64;
    let token = issue(&sub, Role::Instructor, now, &secret);
    let token_str = String::from_utf8(token).unwrap();
    let validation = jsonwebtoken::Validation::new(jsonwebtoken::Algorithm::HS256);
    let data = jsonwebtoken::decode::<serde_json::Value>(
        &token_str,
        &jsonwebtoken::DecodingKey::from_secret(&secret),
        &validation,
    )
    .unwrap();
    assert_eq!(data.claims.get("sub").unwrap().as_str().unwrap(), SUB);
    assert_eq!(data.claims.get("role").unwrap().as_str().unwrap(), "Instructor");
    assert_eq!(
        data.claims.get("exp").unwrap().as_i64().unwrap(),
        now + TOKEN_TTL_SECS
    );
}

#[test]
fn jsonwebtoken_issued_token_verifies_here() {
    let secret = bytes(SECRET);
    let now = 1_700_000_000i64;
    let claims_json = format!(
        "{{\"sub\":\"{}\",\"role\":\"Admin\",\"exp\":{}}}",
        SUB,
        now + 3600
    );
    let raw = serde_json::value::RawValue::from_string(claims_json).unwrap();
    let theirs = jsonwebtoken::encode(
        &jsonwebtoken::Header::default(),
        &raw,
        &jsonwebtoken::EncodingKey::from_secret(&secret),
    )
    .unwrap();
    let caller = verify_token(&theirs.into_bytes(), &secret, now).unwrap();
    assert_eq!(caller.subject, bytes(SUB));
    assert_eq!(caller.role, Role::Admin);
}

#[test]
fn bearer_header_controls_authentication() {
    let sub = bytes(SUB);
    let secret = bytes(SECRET);
    let now = 1_700_000_000i64;
    let token = issue(&sub, Role::Student, now, &secret);

    let mut header = bytes("Bearer ");
    header.extend_from_slice(&token);
    let caller = authenticate(Some(&header), &secret, now).unwrap();
    assert_eq!(caller.subject, sub);
    assert_eq!(caller.role, Role::Student);

    // Absent header, wrong marker, or bare token: all the same failure.
    assert_eq!(authenticate(None, &secret, now), Err(AuthError::Unauthenticated));
    let mut lower = bytes("bearer ");
    lower.extend_from_slice(&token);
    assert_eq!(authenticate(Some(&lower), &secret, now), Err(AuthError::Unauthenticated));
    assert_eq!(authenticate(Some(&token), &secret, now), Err(AuthError::Unauthenticated));
}
