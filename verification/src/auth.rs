//! The token service and the authorization middleware's decision.
//!
//! A bearer token encodes `(user_id, exp)` and is signed with the server's
//! symmetric secret. A token is accepted exactly when its signature matches
//! that secret and its expiry lies strictly in the future; the three refusal
//! kinds are told apart because clients react differently to each. The JWT
//! wire format itself is produced and checked by the `jsonwebtoken` crate
//! behind two trusted wrappers; everything decided *about* the decoded
//! claims is verified here.

use vstd::prelude::*;
use vstd::string::*;

verus! {

/// How long an issued token stays valid, in seconds: 90 days. A long,
/// "remember me"-style lifetime suits a personal single-user client better
/// than an hour-scale one; it is a configuration default, not a protocol
/// constant.
pub const TOKEN_TTL_SECS: u64 = 7_776_000;

/// The decoded, verified payload of a bearer token.
#[derive(Clone, Copy, PartialEq, Eq, Structural, Debug)]
pub struct Claims {
    pub user_id: i32,
    pub exp: u64,
}

/// Why a request carried no usable identity. The distinction matters to the
/// client: an expired token calls for a re-login, an invalid one is a hard
/// failure, a missing one means no credential was presented at all.
#[derive(Clone, Copy, PartialEq, Eq, Structural, Debug)]
pub enum AuthError {
    MissingToken,
    InvalidToken,
    ExpiredToken,
}

impl AuthError {
    /// The fixed client-facing message.
    pub fn message(&self) -> (msg: String)
        ensures
            msg@ == match self {
                AuthError::MissingToken => "Authorization token is missing"@,
                AuthError::InvalidToken => "Authorization token is invalid"@,
                AuthError::ExpiredToken => "Authorization token is expired"@,
            },
    {
        match self {
            AuthError::MissingToken => "Authorization token is missing".to_owned(),
            AuthError::InvalidToken => "Authorization token is invalid".to_owned(),
            AuthError::ExpiredToken => "Authorization token is expired".to_owned(),
        }
    }
}

/// The signed wire bytes that the JWT encoder produces for these claims
/// under this secret. A function of its arguments alone: same claims, same
/// secret, same token.
pub uninterp spec fn jwt_token_of(user_id: i64, exp: u64, secret: Seq<u8>) -> Seq<u8>;

/// What the JWT decoder recovers from these token bytes under this secret:
/// the claims if the signature matches and both fields are present, nothing
/// otherwise. A function of its arguments alone.
pub uninterp spec fn jwt_claims_of(token: Seq<u8>, secret: Seq<u8>) -> Option<(i64, u64)>;

/// Relies on `jsonwebtoken::encode` with an HS256 header: signing is
/// deterministic in the claims and the secret, and decoding the returned
/// token with the same secret yields the same claims back. For HS256 the
/// call cannot fail: the header's family matches by construction, the HMAC
/// signer accepts any key length and signs infallibly, and the fixed
/// two-field claims map always serializes. Determinism assumes the
/// process-default crypto provider, which holds because this crate pins the
/// `rust_crypto` feature and installs no custom `CryptoProvider`.
#[verifier::external_body]
fn jwt_encode(user_id: i64, exp: u64, secret: &[u8]) -> (r: Result<String, ()>)
    ensures
        r is Ok,
        r matches Ok(t) ==> vstd::utf8::encode_utf8(t@) == jwt_token_of(user_id, exp, secret@)
            && jwt_claims_of(vstd::utf8::encode_utf8(t@), secret@) == Some((user_id, exp)),
{
    let mut claims = serde_json::Map::new();
    claims.insert("user_id".to_owned(), serde_json::Value::from(user_id));
    claims.insert("exp".to_owned(), serde_json::Value::from(exp));
    let key = jsonwebtoken::EncodingKey::from_secret(secret);
    match jsonwebtoken::encode(&jsonwebtoken::Header::default(), &serde_json::Value::Object(claims), &key) {
        Ok(token) => Ok(token),
        Err(_) => Err(()),
    }
}

/// Relies on `jsonwebtoken::decode` with HS256 and expiry validation turned
/// off (expiry is judged by verified code instead): signature checking is
/// deterministic in the token bytes and the secret, and never reads the
/// clock. Determinism assumes the process-default crypto provider, which
/// holds because this crate pins the `rust_crypto` feature and installs no
/// custom `CryptoProvider`.
#[verifier::external_body]
fn jwt_decode(token: &str, secret: &[u8]) -> (r: Option<(i64, u64)>)
    ensures
        r == jwt_claims_of(token.spec_bytes(), secret@),
{
    let key = jsonwebtoken::DecodingKey::from_secret(secret);
    let mut validation = jsonwebtoken::Validation::new(jsonwebtoken::Algorithm::HS256);
    validation.validate_exp = false;
    validation.required_spec_claims = std::collections::HashSet::new();
    match jsonwebtoken::decode::<serde_json::Value>(token, &key, &validation) {
        Ok(data) => match (
            data.claims.get("user_id").and_then(|v| v.as_i64()),
            data.claims.get("exp").and_then(|v| v.as_u64()),
        ) {
            (Some(u), Some(e)) => Some((u, e)),
            _ => None,
        },
        Err(_) => None,
    }
}

/// The verdict on a decoded token: reject what did not decode, reject an
/// identity that fits no server-assigned id, reject a past expiry, accept
/// the rest. A token is valid if and only if its signature matches the
/// secret and its expiry is strictly in the future.
pub open spec fn spec_verify_token(decoded: Option<(i64, u64)>, now: u64) -> Result<
    Claims,
    AuthError,
> {
    match decoded {
        None => Err(AuthError::InvalidToken),
        Some((user_id, exp)) => if user_id < i32::MIN as i64 || user_id > i32::MAX as i64 {
            Err(AuthError::InvalidToken)
        } else if exp <= now {
            Err(AuthError::ExpiredToken)
        } else {
            Ok(Claims { user_id: user_id as i32, exp })
        },
    }
}

/// Parses and validates a bare token string against the secret and the
/// current time.
pub fn verify_token(token: &str, secret: &[u8], now: u64) -> (r: Result<Claims, AuthError>)
    ensures
        r == spec_verify_token(jwt_claims_of(token.spec_bytes(), secret@), now),
{
    match jwt_decode(token, secret) {
        None => Err(AuthError::InvalidToken),
        Some((user_id, exp)) => {
            if user_id < i32::MIN as i64 || user_id > i32::MAX as i64 {
                Err(AuthError::InvalidToken)
            } else if exp <= now {
                Err(AuthError::ExpiredToken)
            } else {
                Ok(Claims { user_id: user_id as i32, exp })
            }
        },
    }
}

/// An issued token comes back as the same identity: while the expiry lies
/// strictly ahead of the clock, verifying any token whose claims decode to
/// `(user_id, exp)` under the secret yields exactly those claims — so a
/// token minted by the signer for a user names that user and no other.
pub proof fn lemma_issue_verify_round_trip(
    user_id: i32,
    exp: u64,
    token: Seq<u8>,
    secret: Seq<u8>,
    now: u64,
)
    requires
        jwt_claims_of(token, secret) == Some((user_id as i64, exp)),
        now < exp,
    ensures
        spec_verify_token(jwt_claims_of(token, secret), now) == Ok::<Claims, AuthError>(
            Claims { user_id, exp },
        ),
{
}

/// The seven bytes of `"Bearer "` open this header value.
pub open spec fn spec_has_bearer_prefix(bytes: Seq<u8>) -> bool {
    &&& bytes.len() >= 7
    &&& bytes[0] == 66u8
    &&& bytes[1] == 101u8
    &&& bytes[2] == 97u8
    &&& bytes[3] == 114u8
    &&& bytes[4] == 101u8
    &&& bytes[5] == 114u8
    &&& bytes[6] == 32u8
}

/// The token carried by an `Authorization` header value: what follows a
/// `"Bearer "` prefix, or the whole value when the prefix (or a character
/// boundary after it) is absent.
pub open spec fn spec_bearer_token(bytes: Seq<u8>) -> Seq<u8> {
    if spec_has_bearer_prefix(bytes) && vstd::utf8::is_char_boundary(bytes, 7) {
        bytes.subrange(7, bytes.len() as int)
    } else {
        bytes
    }
}

/// Drops a leading `"Bearer "` from a header value.
pub fn strip_bearer<'a>(header: &'a str) -> (r: &'a str)
    ensures
        r.spec_bytes() == spec_bearer_token(header.spec_bytes()),
{
    let bytes = header.as_bytes();
    if bytes.len() >= 7 && bytes[0] == 66 && bytes[1] == 101 && bytes[2] == 97 && bytes[3] == 114
        && bytes[4] == 101 && bytes[5] == 114 && bytes[6] == 32 && header.is_char_boundary(7) {
        let (_, rest) = header.split_at(7);
        rest
    } else {
        header
    }
}

/// The authorization middleware's whole decision for one request: no header
/// means no credential; otherwise the bearer token is extracted and judged
/// against the secret and the clock. Handlers run only on `Ok`.
pub fn authenticate(authorization: Option<&String>, secret: &[u8], now: u64) -> (r: Result<
    Claims,
    AuthError,
>)
    ensures
        r == match authorization {
            None => Err::<Claims, AuthError>(AuthError::MissingToken),
            Some(h) => spec_verify_token(
                jwt_claims_of(spec_bearer_token(vstd::utf8::encode_utf8(h@)), secret@),
                now,
            ),
        },
{
    match authorization {
        None => Err(AuthError::MissingToken),
        Some(header) => {
            let token = strip_bearer(header.as_str());
            verify_token(token, secret, now)
        },
    }
}

/// The absolute expiry for a token issued now.
pub fn expires_at(now: u64) -> (r: u64)
    requires
        now + TOKEN_TTL_SECS <= u64::MAX,
    ensures
        r == now + TOKEN_TTL_SECS,
{
    now + TOKEN_TTL_SECS
}

/// Issues a signed token asserting `user_id` until 90 days from `now`.
/// HS256 signing is total, so issuance always yields a token whose claims
/// decode back to exactly this identity and expiry.
pub fn issue_token(user_id: i32, now: u64, secret: &[u8]) -> (r: String)
    requires
        now + TOKEN_TTL_SECS <= u64::MAX,
    ensures
        vstd::utf8::encode_utf8(r@) == jwt_token_of(
            user_id as i64,
            (now + TOKEN_TTL_SECS) as u64,
            secret@,
        ),
        jwt_claims_of(vstd::utf8::encode_utf8(r@), secret@) == Some(
            (user_id as i64, (now + TOKEN_TTL_SECS) as u64),
        ),
{
    let exp = expires_at(now);
    match jwt_encode(user_id as i64, exp, secret) {
        Ok(token) => token,
        Err(_) => {
            // The signer is total for HS256; this arm is unreachable.
            proof {
                assert(false);
            }
            String::new()
        },
    }
}

} // verus!
