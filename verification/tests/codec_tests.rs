use notekeeper::claims::{make_claims, SESSION_LIFETIME_SECONDS};
use notekeeper::codec::{issue, verify_token, TokenError};
use notekeeper::email::normalize_email;
use notekeeper::flow::{login_cookie, logout_cookie};
use notekeeper::gate::{auth_gate, extract_token, GateRejection};
use notekeeper::hashing::{hash_password, verify_password};

const SECRET: &[u8] = b"test-signing-secret";

#[test]
fn fresh_hash_verifies_and_rejects_wrong_password() {
    let h = hash_password("pw1").expect("hashing failed");
    assert!(verify_password("pw1", h.as_str()));
    assert!(!verify_password("pw2", h.as_str()));
    assert!(!verify_password("", h.as_str()));
}

#[test]
fn hashing_is_salted() {
    let h1 = hash_password("pw1").expect("hashing failed");
    let h2 = hash_password("pw1").expect("hashing failed");
    assert_ne!(h1, h2);
}

#[test]
fn verify_fails_closed_on_garbage_hash() {
    assert!(!verify_password("pw1", "not-a-hash-string"));
    assert!(!verify_password("pw1", ""));
}

#[test]
fn token_round_trip() {
    let claims = make_claims(7, String::from("a@x.com"), 1000);
    assert_eq!(claims.expires_at, 1000 + SESSION_LIFETIME_SECONDS);
    let token = issue(&claims, SECRET);
    let got = verify_token(token.as_str(), SECRET, 1500).expect("round trip failed");
    assert_eq!(got.subject, 7);
    assert_eq!(got.email, "a@x.com");
    assert_eq!(got.issued_at, 1000);
    assert_eq!(got.expires_at, 1000 + SESSION_LIFETIME_SECONDS);
}

#[test]
fn token_round_trip_with_dotted_email() {
    let claims = make_claims(42, String::from("first.last@sub.example.com"), 5);
    let token = issue(&claims, SECRET);
    let got = verify_token(token.as_str(), SECRET, 6).expect("round trip failed");
    assert_eq!(got.email, "first.last@sub.example.com");
    assert_eq!(got.subject, 42);
}

#[test]
fn tampering_any_byte_fails_verification() {
    let claims = make_claims(9, String::from("a@x.com"), 1000);
    let token = issue(&claims, SECRET);
    let chars: Vec<char> = token.chars().collect();
    for i in 0..chars.len() {
        let replacement = if chars[i] == 'Z' { 'Y' } else { 'Z' };
        let mut tampered = chars.clone();
        tampered[i] = replacement;
        let t: String = tampered.into_iter().collect();
        assert!(verify_token(t.as_str(), SECRET, 1500).is_err());
    }
}

#[test]
fn tampering_the_claims_is_a_signature_error() {
    let claims = make_claims(9, String::from("a@x.com"), 1000);
    let token = issue(&claims, SECRET);
    // The email is the token's tail; swap its last character.
    let mut chars: Vec<char> = token.chars().collect();
    let last = chars.len() - 1;
    chars[last] = if chars[last] == 'z' { 'y' } else { 'z' };
    let t: String = chars.into_iter().collect();
    assert_eq!(
        verify_token(t.as_str(), SECRET, 1500),
        Err(TokenError::BadSignature)
    );
}

#[test]
fn wrong_secret_is_a_signature_error() {
    let claims = make_claims(9, String::from("a@x.com"), 1000);
    let token = issue(&claims, SECRET);
    assert_eq!(
        verify_token(token.as_str(), b"another-secret", 1500),
        Err(TokenError::BadSignature)
    );
}

#[test]
fn expired_token_is_an_expiry_error_even_with_good_signature() {
    let claims = make_claims(9, String::from("a@x.com"), 1000);
    let token = issue(&claims, SECRET);
    assert_eq!(
        verify_token(token.as_str(), SECRET, claims.expires_at),
        Err(TokenError::Expired)
    );
    assert_eq!(
        verify_token(token.as_str(), SECRET, claims.expires_at + 1),
        Err(TokenError::Expired)
    );
    assert!(verify_token(token.as_str(), SECRET, claims.expires_at - 1).is_ok());
}

#[test]
fn garbage_tokens_are_malformed() {
    assert_eq!(
        verify_token("", SECRET, 0),
        Err(TokenError::Malformed)
    );
    assert_eq!(
        verify_token("no dots here", SECRET, 0),
        Err(TokenError::Malformed)
    );
    assert_eq!(
        verify_token("notanumber.payload", SECRET, 0),
        Err(TokenError::Malformed)
    );
    assert_eq!(
        verify_token("999.short", SECRET, 0),
        Err(TokenError::Malformed)
    );
}

#[test]
fn email_is_lowercased() {
    assert_eq!(normalize_email("A@X.CoM"), "a@x.com");
    assert_eq!(normalize_email("a@x.com"), "a@x.com");
    assert_eq!(normalize_email("MiXeD.CaSe+Tag@Example.ORG"), "mixed.case+tag@example.org");
}

#[test]
fn cookies_have_the_documented_attributes() {
    assert_eq!(
        login_cookie("abc"),
        "token=abc; Path=/; Max-Age=2419200; SameSite=Lax; HttpOnly"
    );
    assert_eq!(
        logout_cookie(),
        "token=; Path=/; Max-Age=0; SameSite=Lax; HttpOnly"
    );
}

#[test]
fn gate_rejects_a_missing_token_without_any_lookup() {
    assert_eq!(
        auth_gate(None, None, SECRET, 0),
        Err(GateRejection::MissingToken)
    );
    assert_eq!(
        auth_gate(None, Some("Basic abc"), SECRET, 0),
        Err(GateRejection::MissingToken)
    );
}

#[test]
fn gate_prefers_the_cookie_and_falls_back_to_bearer() {
    let claims = make_claims(3, String::from("a@x.com"), 100);
    let token = issue(&claims, SECRET);
    let bearer = format!("Bearer {}", token);

    let via_cookie = auth_gate(Some(token.as_str()), None, SECRET, 150).expect("cookie path");
    assert_eq!(via_cookie.subject, 3);

    let via_bearer = auth_gate(None, Some(bearer.as_str()), SECRET, 150).expect("bearer path");
    assert_eq!(via_bearer.subject, 3);

    // The cookie is the source of truth: a broken bearer header does not
    // shadow a good cookie.
    let mixed = auth_gate(Some(token.as_str()), Some("Bearer nonsense"), SECRET, 150);
    assert_eq!(mixed.expect("cookie wins").subject, 3);

    // And a good bearer cannot overrule a bad cookie.
    assert_eq!(
        auth_gate(Some("bad"), Some(bearer.as_str()), SECRET, 150),
        Err(GateRejection::InvalidToken)
    );
}

#[test]
fn gate_flattens_token_failures() {
    let claims = make_claims(3, String::from("a@x.com"), 100);
    let token = issue(&claims, SECRET);
    assert_eq!(
        auth_gate(Some(token.as_str()), None, SECRET, claims.expires_at),
        Err(GateRejection::InvalidToken)
    );
    assert_eq!(
        auth_gate(Some("garbage"), None, SECRET, 150),
        Err(GateRejection::InvalidToken)
    );
}

#[test]
fn extract_token_strips_the_bearer_prefix() {
    assert_eq!(extract_token(None, Some("Bearer abc.def")), Some(String::from("abc.def")));
    assert_eq!(extract_token(None, Some("Bearer ")), Some(String::from("")));
    assert_eq!(extract_token(None, Some("Bearerabc")), None);
    assert_eq!(extract_token(Some("tok"), Some("Bearer other")), Some(String::from("tok")));
    assert_eq!(extract_token(None, None), None);
}
