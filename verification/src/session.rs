//! The session codec: issues the signed, time-bounded credential of a login
//! and verifies it on every protected request.
//!
//! A credential carries the principal's identifier and an expiry, in seconds
//! since the Unix epoch. The codec holds the signing key and touches neither
//! storage nor the clock: the current time is an argument.

use vstd::prelude::*;
use crate::text::text_of;
use crate::user::{hyphenated, UserId};

verus! {

/// The token that `jsonwebtoken::encode` returns for the default header
/// (HS256), the claims `{user_id, exp}` and the HMAC key `secret`; nothing
/// where it returns an error.
pub uninterp spec fn jwt_encoded(user_id: Seq<char>, exp: u64, secret: Seq<u8>) -> Option<
    Seq<char>,
>;

/// What `jsonwebtoken::decode` returns for a token and the HMAC key `secret`
/// when it accepts HS256 alone and leaves the expiry to the caller: nothing
/// where it returns an error, else the claim `user_id` where it is a string and
/// the claim `exp` where it is an unsigned integer.
pub uninterp spec fn jwt_decoded(token: Seq<char>, secret: Seq<u8>) -> Option<
    (Option<Seq<char>>, Option<u64>),
>;

/// The mathematical content of what the decoder hands over.
pub open spec fn raw_claims(raw: Option<(Option<String>, Option<u64>)>) -> Option<
    (Option<Seq<char>>, Option<u64>),
> {
    match raw {
        Some((Some(text), exp)) => Some((Some(text@), exp)),
        Some((None, exp)) => Some((None, exp)),
        None => None,
    }
}

/// Calls `jsonwebtoken::encode` with the default header, the two claims as a
/// JSON object and `EncodingKey::from_secret(secret)`. The contract only names
/// the outcome.
#[verifier::external_body]
fn sign_claims(user_id: &str, exp: u64, secret: &[u8]) -> (token: Option<String>)
    ensures
        text_of(token) == jwt_encoded(user_id@, exp, secret@),
{
    let mut claims = serde_json::Map::new();
    claims.insert("user_id".to_string(), serde_json::Value::from(user_id));
    claims.insert("exp".to_string(), serde_json::Value::from(exp));
    let key = jsonwebtoken::EncodingKey::from_secret(secret);
    jsonwebtoken::encode(&jsonwebtoken::Header::default(), &claims, &key).ok()
}

/// Calls `jsonwebtoken::decode` with `DecodingKey::from_secret(secret)` and a
/// validation that accepts HS256 and does not look at the clock, then picks the
/// two claims out of the JSON object. The contract only names the outcome.
#[verifier::external_body]
fn read_claims(token: &str, secret: &[u8]) -> (raw: Option<(Option<String>, Option<u64>)>)
    ensures
        raw_claims(raw) == jwt_decoded(token@, secret@),
{
    let key = jsonwebtoken::DecodingKey::from_secret(secret);
    let mut validation = jsonwebtoken::Validation::new(jsonwebtoken::Algorithm::HS256);
    validation.validate_exp = false;
    let data = jsonwebtoken::decode::<serde_json::Value>(token, &key, &validation).ok()?;
    let user_id = data.claims.get("user_id").and_then(|v| v.as_str()).map(|s| s.to_string());
    let exp = data.claims.get("exp").and_then(|v| v.as_u64());
    Some((user_id, exp))
}

/// The claim set of a session credential.
#[derive(Clone, Copy, Debug, PartialEq, Eq, Structural)]
pub struct Claims {
    pub user_id: UserId,
    pub exp: usize,
}

/// The one failure of verification. Bad structure, a bad signature and a past
/// expiry all end here: the caller does not learn which it was.
#[derive(Clone, Copy, Debug, PartialEq, Eq, Structural)]
pub struct InvalidTokenError;

/// The verdict on the claims read from a token at time `now`: they stand when
/// both are there, the expiry fits the machine word and lies after `now`.
pub open spec fn accepted(user_id: Option<UserId>, exp: Option<u64>, now: u64) -> Result<
    Claims,
    InvalidTokenError,
> {
    match (user_id, exp) {
        (Some(id), Some(e)) => if e <= usize::MAX && now < e {
            Ok(Claims { user_id: id, exp: e as usize })
        } else {
            Err(InvalidTokenError)
        },
        _ => Err(InvalidTokenError),
    }
}

/// The identifier that the claim `user_id` spells, if it is there and spells one.
pub open spec fn claimed_id(text: Option<Seq<char>>) -> Option<UserId> {
    match text {
        Some(t) => UserId::parsed(t),
        None => None,
    }
}

/// The verdict on a token at time `now` under the key `secret`.
pub open spec fn verified(token: Seq<char>, secret: Seq<u8>, now: u64) -> Result<
    Claims,
    InvalidTokenError,
> {
    match jwt_decoded(token, secret) {
        Some((text, exp)) => accepted(claimed_id(text), exp, now),
        None => Err(InvalidTokenError),
    }
}

/// Whether a token reads back, under `secret`, as exactly these claims.
pub open spec fn reads_back(token: Seq<char>, secret: Seq<u8>, claims: Claims) -> bool {
    match jwt_decoded(token, secret) {
        Some((text, exp)) => claimed_id(text) == Some(claims.user_id) && exp == Some(
            claims.exp as u64,
        ),
        None => false,
    }
}

/// The token issued for `claims` under `secret`: the signer's token, provided
/// that it reads back as those claims.
pub open spec fn issued(claims: Claims, secret: Seq<u8>) -> Option<Seq<char>> {
    match jwt_encoded(hyphenated(claims.user_id.value), claims.exp as u64, secret) {
        Some(token) => if reads_back(token, secret, claims) {
            Some(token)
        } else {
            None
        },
        None => None,
    }
}

/// Decides on the claims read from a token: rejects when one is missing, when
/// the expiry does not fit the machine word, and when `now` is at or past it.
pub fn check_claims(user_id: Option<UserId>, exp: Option<u64>, now: u64) -> (verdict: Result<
    Claims,
    InvalidTokenError,
>)
    ensures
        verdict == accepted(user_id, exp, now),
{
    match (user_id, exp) {
        (Some(id), Some(e)) => {
            if e <= usize::MAX as u64 && now < e {
                Ok(Claims { user_id: id, exp: e as usize })
            } else {
                Err(InvalidTokenError)
            }
        },
        _ => Err(InvalidTokenError),
    }
}

/// The codec with its key. The key is handed in at construction and never
/// changes.
pub struct SessionCodec {
    secret: Vec<u8>,
}

impl SessionCodec {
    /// The key that the codec signs and verifies with.
    pub closed spec fn secret(&self) -> Seq<u8> {
        self.secret@
    }

    pub fn new(secret: Vec<u8>) -> (codec: SessionCodec)
        ensures
            codec.secret() == secret@,
    {
        SessionCodec { secret }
    }

    fn read(&self, token: &str) -> (claims: (Option<UserId>, Option<u64>))
        ensures
            match jwt_decoded(token@, self.secret()) {
                Some((text, exp)) => claims == (claimed_id(text), exp),
                None => claims == (None::<UserId>, None::<u64>),
            },
    {
        match read_claims(token, self.secret.as_slice()) {
            Some((Some(text), exp)) => (UserId::parse(text.as_str()), exp),
            Some((None, exp)) => (None, exp),
            None => (None, None),
        }
    }

    /// Issues the credential of `principal` that expires `ttl` seconds after
    /// `now`. The token is handed out only if it reads back as the claims it
    /// was made for, so every token issued verifies, under the same key, at
    /// every time before its expiry, and names exactly `principal`.
    pub fn issue(&self, principal: UserId, now: u64, ttl: u64) -> (token: Option<String>)
        requires
            now + ttl <= usize::MAX,
        ensures
            text_of(token) == issued(
                Claims { user_id: principal, exp: (now + ttl) as usize },
                self.secret(),
            ),
            token matches Some(t) ==> forall|at: u64|
                at < now + ttl ==> #[trigger] verified(t@, self.secret(), at) == Ok::<
                    Claims,
                    InvalidTokenError,
                >(Claims { user_id: principal, exp: (now + ttl) as usize }),
    {
        let exp: u64 = now + ttl;
        let text = principal.to_text();
        match sign_claims(text.as_str(), exp, self.secret.as_slice()) {
            Some(token) => {
                let (id, read_exp) = self.read(token.as_str());
                let same_id = match id {
                    Some(id) => id.value == principal.value,
                    None => false,
                };
                let same_exp = match read_exp {
                    Some(e) => e == exp,
                    None => false,
                };
                if same_id && same_exp {
                    Some(token)
                } else {
                    None
                }
            },
            None => None,
        }
    }

    /// Verifies a credential at time `now`. The signature is checked before any
    /// claim is read; a token whose expiry is at or before `now` is rejected.
    pub fn verify(&self, token: &str, now: u64) -> (verdict: Result<Claims, InvalidTokenError>)
        ensures
            verdict == verified(token@, self.secret(), now),
    {
        let (id, exp) = self.read(token);
        check_claims(id, exp, now)
    }
}

/// Every token that is issued verifies under the key it was issued with, at
/// every time before its expiry, and the verdict names exactly the claims it
/// was issued for.
pub proof fn lemma_issued_token_verifies(
    claims: Claims,
    secret: Seq<u8>,
    token: Seq<char>,
    now: u64,
)
    requires
        issued(claims, secret) == Some(token),
        now < claims.exp,
    ensures
        verified(token, secret, now) == Ok::<Claims, InvalidTokenError>(claims),
{
}

/// No token verifies at or after the expiry it carries, whoever signed it: a
/// verdict in favour always names an expiry after `now`.
pub proof fn lemma_expired_token_rejected(token: Seq<char>, secret: Seq<u8>, now: u64)
    ensures
        verified(token, secret, now) matches Ok(claims) ==> now < claims.exp,
        (jwt_decoded(token, secret) matches Some((_, Some(exp))) && exp <= now) ==> verified(
            token,
            secret,
            now,
        ) is Err,
        jwt_decoded(token, secret) is None ==> verified(token, secret, now) is Err,
{
}

/// A token rejected at one time is rejected at every later time.
pub proof fn lemma_rejection_is_final(token: Seq<char>, secret: Seq<u8>, earlier: u64, later: u64)
    requires
        earlier <= later,
        verified(token, secret, earlier) is Err,
    ensures
        verified(token, secret, later) is Err,
{
}

/// A token that verifies at some time names the same claims at every earlier
/// time.
pub proof fn lemma_verdict_does_not_depend_on_time(
    token: Seq<char>,
    secret: Seq<u8>,
    earlier: u64,
    later: u64,
)
    requires
        earlier <= later,
        verified(token, secret, later) is Ok,
    ensures
        verified(token, secret, earlier) == verified(token, secret, later),
{
}

} // verus!
