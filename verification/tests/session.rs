use onebrowser::session::{check_claims, Claims, InvalidTokenError, SessionCodec};
use onebrowser::user::UserId;

fn codec() -> SessionCodec {
    SessionCodec::new(b"a key for the tests".to_vec())
}

fn alice() -> UserId {
    UserId::new(0x550e8400_e29b_41d4_a716_446655440000)
}

#[test]
fn issued_token_verifies_before_expiry() {
    let codec = codec();
    let token = codec.issue(alice(), 1_000, 60).expect("the signer gives a token");
    let claims = codec.verify(&token, 1_000).expect("fresh token");
    assert_eq!(claims, Claims { user_id: alice(), exp: 1_060 });
    assert_eq!(codec.verify(&token, 1_059), Ok(Claims { user_id: alice(), exp: 1_060 }));
}

#[test]
fn token_is_rejected_at_and_after_expiry() {
    let codec = codec();
    let token = codec.issue(alice(), 1_000, 60).unwrap();
    assert_eq!(codec.verify(&token, 1_060), Err(InvalidTokenError));
    assert_eq!(codec.verify(&token, 1_061), Err(InvalidTokenError));
    assert_eq!(codec.verify(&token, u64::MAX), Err(InvalidTokenError));
}

#[test]
fn token_with_zero_ttl_is_never_valid() {
    let codec = codec();
    let token = codec.issue(alice(), 500, 0).unwrap();
    assert_eq!(codec.verify(&token, 500), Err(InvalidTokenError));
    assert_eq!(codec.verify(&token, 499), Ok(Claims { user_id: alice(), exp: 500 }));
}

#[test]
fn token_signed_with_another_key_is_rejected() {
    let token = codec().issue(alice(), 1_000, 60).unwrap();
    let other = SessionCodec::new(b"another key".to_vec());
    assert_eq!(other.verify(&token, 1_000), Err(InvalidTokenError));
}

#[test]
fn malformed_tokens_are_rejected() {
    let codec = codec();
    assert_eq!(codec.verify("", 0), Err(InvalidTokenError));
    assert_eq!(codec.verify("not a token", 0), Err(InvalidTokenError));
    assert_eq!(codec.verify("a.b.c", 0), Err(InvalidTokenError));
}

#[test]
fn tampered_token_is_rejected() {
    let codec = codec();
    let token = codec.issue(alice(), 1_000, 60).unwrap();
    let mut tampered = token.clone();
    let last = tampered.pop().unwrap();
    tampered.push(if last == 'A' { 'B' } else { 'A' });
    assert_eq!(codec.verify(&tampered, 1_000), Err(InvalidTokenError));
}

#[test]
fn token_is_not_its_own_claims() {
    let token = codec().issue(alice(), 1_000, 60).unwrap();
    assert_ne!(token, alice().to_text());
    assert_eq!(token.split('.').count(), 3);
}

#[test]
fn check_claims_needs_both_claims() {
    assert_eq!(check_claims(None, Some(10), 0), Err(InvalidTokenError));
    assert_eq!(check_claims(Some(alice()), None, 0), Err(InvalidTokenError));
    assert_eq!(check_claims(None, None, 0), Err(InvalidTokenError));
    assert_eq!(check_claims(Some(alice()), Some(10), 9), Ok(Claims { user_id: alice(), exp: 10 }));
    assert_eq!(check_claims(Some(alice()), Some(10), 10), Err(InvalidTokenError));
    assert_eq!(check_claims(Some(alice()), Some(0), 0), Err(InvalidTokenError));
}
