use onebrowser::auth::{authorize, bearer_token, resolve, Admission, Rejection, Resolution};
use onebrowser::session::SessionCodec;
use onebrowser::user::{User, UserId};

fn codec() -> SessionCodec {
    SessionCodec::new(b"guard key".to_vec())
}

fn alice() -> UserId {
    UserId::new(0x550e8400_e29b_41d4_a716_446655440000)
}

fn user(id: UserId) -> User {
    User {
        id,
        email: "alice@example.com".to_string(),
        avatar: "https://gravatar.com/avatar/0?d=retro".to_string(),
        created_at: 0,
    }
}

#[test]
fn bearer_token_is_the_second_word() {
    assert_eq!(bearer_token(b"Bearer abc.def.ghi"), Some("abc.def.ghi".to_string()));
    assert_eq!(bearer_token(b"  Bearer \t abc  "), Some("abc".to_string()));
    assert_eq!(bearer_token(b"Bearer\tabc"), Some("abc".to_string()));
    assert_eq!(bearer_token(b"Bearer abc def"), Some("abc".to_string()));
}

#[test]
fn header_without_a_credential_is_refused() {
    assert_eq!(bearer_token(b""), None);
    assert_eq!(bearer_token(b"   "), None);
    assert_eq!(bearer_token(b"Bearer"), None);
    assert_eq!(bearer_token(b"Bearer   "), None);
    assert_eq!(bearer_token(b"abc"), None);
}

#[test]
fn other_schemes_are_refused() {
    assert_eq!(bearer_token(b"Basic abc"), None);
    assert_eq!(bearer_token(b"bearer abc"), None);
    assert_eq!(bearer_token(b"Bearers abc"), None);
    assert_eq!(bearer_token(b"Beare abc"), None);
    assert_eq!(bearer_token(b"Token abc"), None);
}

#[test]
fn header_that_is_no_text_is_refused() {
    assert_eq!(bearer_token(b"Bearer ab\xffc"), None);
    assert_eq!(bearer_token(b"Bearer abc\n"), None);
    assert_eq!(bearer_token(b"Bearer abc\x7f"), None);
    assert_eq!(bearer_token(b"Bearer\x00abc"), None);
    assert_eq!(bearer_token("Bearer žába".as_bytes()), None);
}

#[test]
fn request_without_header_is_unauthenticated() {
    let admission = authorize(&codec(), None, 1_000);
    assert!(matches!(admission, Admission::Rejected(Rejection::Unauthenticated)));
}

#[test]
fn request_with_good_credential_asks_for_the_principal() {
    let codec = codec();
    let token = codec.issue(alice(), 1_000, 60).unwrap();
    let header = format!("Bearer {}", token);
    let admission = authorize(&codec, Some(header.as_bytes()), 1_030);
    assert!(matches!(admission, Admission::Resolving { user_id } if user_id == alice()));
}

#[test]
fn request_with_expired_credential_is_unauthenticated() {
    let codec = codec();
    let token = codec.issue(alice(), 1_000, 60).unwrap();
    let header = format!("Bearer {}", token);
    assert!(matches!(
        authorize(&codec, Some(header.as_bytes()), 1_060),
        Admission::Rejected(Rejection::Unauthenticated)
    ));
}

#[test]
fn request_with_bad_credential_is_unauthenticated() {
    let codec = codec();
    let token = SessionCodec::new(b"someone else".to_vec()).issue(alice(), 1_000, 60).unwrap();
    let header = format!("Bearer {}", token);
    for value in [header.as_bytes(), &b"Bearer nonsense"[..], &b"Basic abc"[..], &b""[..]] {
        assert!(matches!(
            authorize(&codec, Some(value), 1_000),
            Admission::Rejected(Rejection::Unauthenticated)
        ));
    }
}

#[test]
fn credential_under_another_scheme_is_not_read() {
    let codec = codec();
    let token = codec.issue(alice(), 1_000, 60).unwrap();
    let header = format!("Token {}", token);
    assert!(matches!(
        authorize(&codec, Some(header.as_bytes()), 1_000),
        Admission::Rejected(Rejection::Unauthenticated)
    ));
}

#[test]
fn found_principal_is_admitted() {
    let admission = resolve(Admission::Resolving { user_id: alice() }, Resolution::Found(user(alice())));
    assert!(matches!(admission, Admission::Admitted(u) if u.id == alice() && u.email == "alice@example.com"));
}

#[test]
fn unknown_principal_is_unauthenticated() {
    let admission = resolve(Admission::Resolving { user_id: alice() }, Resolution::NotFound);
    assert!(matches!(admission, Admission::Rejected(Rejection::Unauthenticated)));
}

#[test]
fn storage_failure_is_internal() {
    let admission = resolve(Admission::Resolving { user_id: alice() }, Resolution::Failed);
    assert!(matches!(admission, Admission::Rejected(Rejection::Internal)));
}

#[test]
fn another_principal_than_asked_for_is_internal() {
    let admission =
        resolve(Admission::Resolving { user_id: alice() }, Resolution::Found(user(UserId::new(1))));
    assert!(matches!(admission, Admission::Rejected(Rejection::Internal)));
}

#[test]
fn final_decisions_stand() {
    let rejected = resolve(
        Admission::Rejected(Rejection::Unauthenticated),
        Resolution::Found(user(alice())),
    );
    assert!(matches!(rejected, Admission::Rejected(Rejection::Unauthenticated)));
    let admitted = resolve(Admission::Admitted(user(alice())), Resolution::Failed);
    assert!(matches!(admitted, Admission::Admitted(u) if u.id == alice()));
}

#[test]
fn rejections_map_to_statuses() {
    assert_eq!(Rejection::Unauthenticated.status(), 401);
    assert_eq!(Rejection::Internal.status(), 500);
}
