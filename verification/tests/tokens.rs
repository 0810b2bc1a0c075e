//! Token lifecycle against the real signer: issue, verify, expire, tamper.

use budget_core::auth::{authenticate, issue_token, strip_bearer, verify_token, AuthError};

const SECRET: &[u8] = b"unit-test-signing-secret";
const NOW: u64 = 1_700_000_000;
const TTL: u64 = 7_776_000;

#[test]
fn issued_token_verifies() {
    let token = issue_token(42, NOW, SECRET);
    let claims = verify_token(&token, SECRET, NOW).expect("fresh token should verify");
    assert_eq!(claims.user_id, 42);
    assert_eq!(claims.exp, NOW + TTL);
}

#[test]
fn issued_token_claims_decode_independently() {
    let token = issue_token(7, NOW, SECRET);
    let key = jsonwebtoken::DecodingKey::from_secret(SECRET);
    let mut validation = jsonwebtoken::Validation::new(jsonwebtoken::Algorithm::HS256);
    validation.validate_exp = false;
    validation.required_spec_claims = std::collections::HashSet::new();
    let data = jsonwebtoken::decode::<serde_json::Value>(&token, &key, &validation)
        .expect("the library's own token should decode");
    assert_eq!(data.claims.get("user_id").and_then(|v| v.as_i64()), Some(7));
    assert_eq!(data.claims.get("exp").and_then(|v| v.as_u64()), Some(NOW + TTL));
}

#[test]
fn expired_token_rejected_as_expired() {
    let token = issue_token(42, NOW, SECRET);
    let late = NOW + TTL; // expiry must be strictly in the future
    assert_eq!(verify_token(&token, SECRET, late), Err(AuthError::ExpiredToken));
    assert_eq!(verify_token(&token, SECRET, NOW + TTL + 5), Err(AuthError::ExpiredToken));
}

#[test]
fn tampered_signature_rejected_as_invalid() {
    let token = issue_token(42, NOW, SECRET);
    let mut tampered = token.clone();
    let last = tampered.pop().expect("token is nonempty");
    tampered.push(if last == 'A' { 'B' } else { 'A' });
    assert_eq!(verify_token(&tampered, SECRET, NOW), Err(AuthError::InvalidToken));
}

#[test]
fn wrong_secret_rejected_as_invalid() {
    let token = issue_token(42, NOW, SECRET);
    assert_eq!(
        verify_token(&token, b"some-other-secret", NOW),
        Err(AuthError::InvalidToken)
    );
}

#[test]
fn garbage_token_rejected_as_invalid() {
    assert_eq!(verify_token("not-a-jwt", SECRET, NOW), Err(AuthError::InvalidToken));
    assert_eq!(verify_token("", SECRET, NOW), Err(AuthError::InvalidToken));
}

#[test]
fn missing_header_rejected_as_missing() {
    assert_eq!(authenticate(None, SECRET, NOW), Err(AuthError::MissingToken));
}

#[test]
fn bearer_header_authenticates() {
    let token = issue_token(9, NOW, SECRET);
    let header = format!("Bearer {}", token);
    let claims = authenticate(Some(&header), SECRET, NOW).expect("bearer header should pass");
    assert_eq!(claims.user_id, 9);
}

#[test]
fn bare_token_header_authenticates_too() {
    let token = issue_token(9, NOW, SECRET);
    let claims = authenticate(Some(&token), SECRET, NOW).expect("bare token should pass");
    assert_eq!(claims.user_id, 9);
}

#[test]
fn strip_bearer_removes_exactly_the_prefix() {
    assert_eq!(strip_bearer("Bearer abc.def.ghi"), "abc.def.ghi");
    assert_eq!(strip_bearer("abc.def.ghi"), "abc.def.ghi");
    assert_eq!(strip_bearer("bearer abc"), "bearer abc");
    assert_eq!(strip_bearer(""), "");
}

#[test]
fn auth_error_messages_are_fixed() {
    assert_eq!(AuthError::MissingToken.message(), "Authorization token is missing");
    assert_eq!(AuthError::InvalidToken.message(), "Authorization token is invalid");
    assert_eq!(AuthError::ExpiredToken.message(), "Authorization token is expired");
}
