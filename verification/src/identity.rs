//! The identity exchange: a provider's authorization code becomes a local
//! principal.
//!
//! The exchange talks to the identity provider twice and to storage once.
//! Those three steps are the caller's; what to do between them is decided
//! here. An `Exchange` says what the exchange is waiting for, and
//! `exchange_step` takes it from there once the caller reports how the step
//! went.

use vstd::prelude::*;
use vstd::utf8::encode_utf8;
use sha2::Digest;
use crate::session::{issued, Claims, SessionCodec};
use crate::text::{
    decimal, hex_lower, lemma_hex_lower_injective, push_decimal, push_hex, text_of,
};
use crate::user::{User, UserView};

verus! {

/// The SHA-256 digest of a byte string, as `sha2::Sha256` computes it.
pub uninterp spec fn sha256(data: Seq<u8>) -> Seq<u8>;

/// Calls `sha2::Sha256::digest`, which feeds `data` to a fresh hasher and
/// finalises it, and copies the 32 bytes of output.
#[verifier::external_body]
fn sha256_digest(data: &[u8]) -> (digest: Vec<u8>)
    ensures
        digest@ == sha256(data@),
{
    sha2::Sha256::digest(data).to_vec()
}

/// The provider's profile of the user who is signing in. `avatar` is the hash
/// of the avatar asset, where the user has one.
#[derive(Clone, Debug)]
pub struct Profile {
    pub id: u64,
    pub email: Option<String>,
    pub verified: bool,
    pub avatar: Option<String>,
}

/// The mathematical content of a `Profile`.
pub struct ProfileView {
    pub id: u64,
    pub email: Option<Seq<char>>,
    pub verified: bool,
    pub avatar: Option<Seq<char>>,
}

impl View for Profile {
    type V = ProfileView;

    open spec fn view(&self) -> ProfileView {
        ProfileView {
            id: self.id,
            email: text_of(self.email),
            verified: self.verified,
            avatar: text_of(self.avatar),
        }
    }
}

/// Why an exchange ended without a principal.
#[derive(Clone, Copy, Debug, PartialEq, Eq, Structural)]
pub enum AuthError {
    /// The identity provider could not be reached or answered with an error.
    Upstream,
    /// The profile has no verified e-mail address. This one is the user's to
    /// mend, not the provider's.
    MissingEmail,
    /// Storage failed to record the principal.
    Storage,
}

/// The address of the provider's consent page for a client.
pub open spec fn consent_page(client_id: Seq<char>, redirect_uri: Seq<char>) -> Seq<char> {
    "https://discord.com/oauth2/authorize?client_id="@ + client_id
        + "&response_type=code&redirect_uri="@ + redirect_uri + "&scope=identify+email"@
}

/// The value of the `Authorization` header that presents an access token to
/// the provider.
pub open spec fn provider_authorization(access_token: Seq<char>) -> Seq<char> {
    "Bearer "@ + access_token
}

/// The avatar of a profile. With an avatar asset it is the provider's CDN
/// address for (profile id, asset hash); without one it is the default-avatar
/// service's address for the SHA-256 digest of the e-mail address.
pub open spec fn avatar_of(profile_id: u64, asset: Option<Seq<char>>, email: Seq<char>) -> Seq<
    char,
> {
    match asset {
        Some(hash) => "https://cdn.discordapp.com/avatars/"@ + decimal(profile_id as nat) + "/"@
            + hash + ".png"@,
        None => "https://gravatar.com/avatar/"@ + hex_lower(sha256(encode_utf8(email)))
            + "?d=retro"@,
    }
}

/// The verified e-mail address of a profile.
pub open spec fn verified_email(profile: ProfileView) -> Option<Seq<char>> {
    if profile.verified {
        profile.email
    } else {
        None
    }
}

/// The address to send the browser to for the provider's consent page.
pub fn authorize_url(client_id: &str, redirect_uri: &str) -> (url: String)
    ensures
        url@ == consent_page(client_id@, redirect_uri@),
{
    let mut url = String::from_str("https://discord.com/oauth2/authorize?client_id=");
    url.append(client_id);
    url.append("&response_type=code&redirect_uri=");
    url.append(redirect_uri);
    url.append("&scope=identify+email");
    url
}

/// Derives the avatar of a profile. The result is a function of (profile id,
/// asset hash) when there is an asset hash, and of the e-mail address alone
/// when there is none.
pub fn derive_avatar(profile_id: u64, asset: Option<&str>, email: &str) -> (url: String)
    ensures
        url@ == avatar_of(
            profile_id,
            match asset {
                Some(hash) => Some(hash@),
                None => None,
            },
            email@,
        ),
{
    match asset {
        Some(hash) => {
            let mut url = String::from_str("https://cdn.discordapp.com/avatars/");
            push_decimal(&mut url, profile_id);
            url.append("/");
            url.append(hash);
            url.append(".png");
            url
        },
        None => {
            let digest = sha256_digest(email.as_bytes());
            let mut url = String::from_str("https://gravatar.com/avatar/");
            push_hex(&mut url, digest.as_slice());
            url.append("?d=retro");
            url
        },
    }
}

/// What an exchange is waiting for, or how it ended.
#[derive(Debug)]
pub enum Exchange {
    /// The provider is to trade this authorization code for an access token.
    AwaitingToken { code: String },
    /// The provider is to send the current user's profile to a request that
    /// carries this `Authorization` header.
    AwaitingProfile { authorization: String },
    /// Storage is to upsert the principal with this e-mail address.
    AwaitingUser { email: String, avatar: String },
    /// The exchange is over.
    Finished(Result<User, AuthError>),
}

/// The mathematical content of an `Exchange`.
pub enum ExchangeView {
    AwaitingToken { code: Seq<char> },
    AwaitingProfile { authorization: Seq<char> },
    AwaitingUser { email: Seq<char>, avatar: Seq<char> },
    Finished(Result<UserView, AuthError>),
}

impl View for Exchange {
    type V = ExchangeView;

    open spec fn view(&self) -> ExchangeView {
        match *self {
            Exchange::AwaitingToken { code } => ExchangeView::AwaitingToken { code: code@ },
            Exchange::AwaitingProfile { authorization } => ExchangeView::AwaitingProfile {
                authorization: authorization@,
            },
            Exchange::AwaitingUser { email, avatar } => ExchangeView::AwaitingUser {
                email: email@,
                avatar: avatar@,
            },
            Exchange::Finished(Ok(user)) => ExchangeView::Finished(Ok(user@)),
            Exchange::Finished(Err(error)) => ExchangeView::Finished(Err(error)),
        }
    }
}

/// How the step that an exchange was waiting for went.
#[derive(Debug)]
pub enum ExchangeEvent {
    /// The provider granted this access token.
    TokenGranted(String),
    /// The provider sent this profile.
    ProfileFetched(Profile),
    /// Storage recorded the principal and returned it.
    UserStored(User),
    /// The step failed.
    Failed,
}

/// The mathematical content of an `ExchangeEvent`.
pub enum ExchangeEventView {
    TokenGranted(Seq<char>),
    ProfileFetched(ProfileView),
    UserStored(UserView),
    Failed,
}

impl View for ExchangeEvent {
    type V = ExchangeEventView;

    open spec fn view(&self) -> ExchangeEventView {
        match *self {
            ExchangeEvent::TokenGranted(token) => ExchangeEventView::TokenGranted(token@),
            ExchangeEvent::ProfileFetched(profile) => ExchangeEventView::ProfileFetched(profile@),
            ExchangeEvent::UserStored(user) => ExchangeEventView::UserStored(user@),
            ExchangeEvent::Failed => ExchangeEventView::Failed,
        }
    }
}

/// Where an exchange goes from `state` on `event`.
///
/// An event that is not the success of the awaited step counts as its failure:
/// an upstream failure while the provider is awaited, a storage failure while
/// storage is. A profile without a verified e-mail address ends the exchange
/// before storage is asked for anything. A finished exchange stays as it is.
pub open spec fn exchange_next(state: ExchangeView, event: ExchangeEventView) -> ExchangeView {
    match state {
        ExchangeView::AwaitingToken { .. } => match event {
            ExchangeEventView::TokenGranted(token) => ExchangeView::AwaitingProfile {
                authorization: provider_authorization(token),
            },
            _ => ExchangeView::Finished(Err(AuthError::Upstream)),
        },
        ExchangeView::AwaitingProfile { .. } => match event {
            ExchangeEventView::ProfileFetched(profile) => match verified_email(profile) {
                Some(email) => ExchangeView::AwaitingUser {
                    email,
                    avatar: avatar_of(profile.id, profile.avatar, email),
                },
                None => ExchangeView::Finished(Err(AuthError::MissingEmail)),
            },
            _ => ExchangeView::Finished(Err(AuthError::Upstream)),
        },
        ExchangeView::AwaitingUser { .. } => match event {
            ExchangeEventView::UserStored(user) => ExchangeView::Finished(Ok(user)),
            _ => ExchangeView::Finished(Err(AuthError::Storage)),
        },
        ExchangeView::Finished(outcome) => ExchangeView::Finished(outcome),
    }
}

/// Starts the exchange of an authorization code.
pub fn exchange_begin(code: String) -> (state: Exchange)
    ensures
        state@ == (ExchangeView::AwaitingToken { code: code@ }),
{
    Exchange::AwaitingToken { code }
}

/// Takes an exchange one step further, given how the awaited step went.
pub fn exchange_step(state: Exchange, event: ExchangeEvent) -> (next: Exchange)
    ensures
        next@ == exchange_next(state@, event@),
{
    match state {
        Exchange::AwaitingToken { code: _ } => match event {
            ExchangeEvent::TokenGranted(token) => {
                let mut authorization = String::from_str("Bearer ");
                authorization.append(token.as_str());
                Exchange::AwaitingProfile { authorization }
            },
            _ => Exchange::Finished(Err(AuthError::Upstream)),
        },
        Exchange::AwaitingProfile { authorization: _ } => match event {
            ExchangeEvent::ProfileFetched(profile) => {
                let Profile { id, email, verified, avatar } = profile;
                match email {
                    Some(email) => {
                        if verified {
                            let asset = match &avatar {
                                Some(hash) => Some(hash.as_str()),
                                None => None,
                            };
                            let avatar_url = derive_avatar(id, asset, email.as_str());
                            Exchange::AwaitingUser { email, avatar: avatar_url }
                        } else {
                            Exchange::Finished(Err(AuthError::MissingEmail))
                        }
                    },
                    None => Exchange::Finished(Err(AuthError::MissingEmail)),
                }
            },
            _ => Exchange::Finished(Err(AuthError::Upstream)),
        },
        Exchange::AwaitingUser { email: _, avatar: _ } => match event {
            ExchangeEvent::UserStored(user) => Exchange::Finished(Ok(user)),
            _ => Exchange::Finished(Err(AuthError::Storage)),
        },
        Exchange::Finished(outcome) => Exchange::Finished(outcome),
    }
}

/// Where an exchange stands after a sequence of events, taken in order.
pub open spec fn exchange_run(state: ExchangeView, events: Seq<ExchangeEventView>) -> ExchangeView
    decreases events.len(),
{
    if events.len() == 0 {
        state
    } else {
        exchange_run(exchange_next(state, events[0]), events.drop_first())
    }
}

/// The answer to the browser at the end of a login.
#[derive(Debug)]
pub enum LoginReply {
    /// Send the browser to this address; it carries the session credential.
    Redirect(String),
    /// Answer with this status and this error text.
    Failure { status: u16, error: String },
}

/// The mathematical content of a `LoginReply`.
pub enum LoginReplyView {
    Redirect(Seq<char>),
    Failure { status: u16, error: Seq<char> },
}

impl View for LoginReply {
    type V = LoginReplyView;

    open spec fn view(&self) -> LoginReplyView {
        match *self {
            LoginReply::Redirect(url) => LoginReplyView::Redirect(url@),
            LoginReply::Failure { status, error } => LoginReplyView::Failure {
                status,
                error: error@,
            },
        }
    }
}

/// The text that tells the user why a login failed. Only a missing e-mail
/// address is explained; nothing of the provider's or storage's trouble is
/// passed on.
pub open spec fn failure_text(error: Option<AuthError>) -> Seq<char> {
    match error {
        Some(AuthError::MissingEmail) =>
            "The discord account doesn't have an email address linked to it."@,
        _ => "The sign-in could not be completed."@,
    }
}

/// The address of the application's sign-in page for a session credential.
pub open spec fn signin_page(token: Seq<char>) -> Seq<char> {
    "https://app.1browser.one/signin/discord?token="@ + token
}

/// The answer to a login that ended in `outcome`, where `token` is what the
/// codec issued for the principal. Every failure is answered with status 500.
pub open spec fn login_reply_of(
    outcome: Result<UserView, AuthError>,
    token: Option<Seq<char>>,
) -> LoginReplyView {
    match outcome {
        Ok(_) => match token {
            Some(t) => LoginReplyView::Redirect(signin_page(t)),
            None => LoginReplyView::Failure { status: 500, error: failure_text(None) },
        },
        Err(error) => LoginReplyView::Failure { status: 500, error: failure_text(Some(error)) },
    }
}

/// The content of the outcome of an exchange.
pub open spec fn outcome_view(outcome: Result<User, AuthError>) -> Result<UserView, AuthError> {
    match outcome {
        Ok(user) => Ok(user@),
        Err(error) => Err(error),
    }
}

fn failure(error: Option<AuthError>) -> (reply: LoginReply)
    ensures
        reply@ == (LoginReplyView::Failure { status: 500, error: failure_text(error) }),
{
    let text = match error {
        Some(AuthError::MissingEmail) =>
            "The discord account doesn't have an email address linked to it.",
        _ => "The sign-in could not be completed.",
    };
    LoginReply::Failure { status: 500, error: String::from_str(text) }
}

/// Answers a login, given how the exchange ended and the credential that was
/// issued for the principal, if one was.
pub fn reply_to_login(outcome: &Result<User, AuthError>, token: Option<String>) -> (reply:
    LoginReply)
    ensures
        reply@ == login_reply_of(outcome_view(*outcome), text_of(token)),
{
    match outcome {
        Ok(_) => match token {
            Some(t) => {
                let mut url = String::from_str("https://app.1browser.one/signin/discord?token=");
                url.append(t.as_str());
                LoginReply::Redirect(url)
            },
            None => failure(None),
        },
        Err(error) => failure(Some(*error)),
    }
}

/// Ends a login: issues the session credential of the principal, valid for
/// `ttl` seconds from `now`, and sends the browser to the application with it.
/// A failed exchange is answered with its error and no credential is issued.
pub fn login_reply(codec: &SessionCodec, outcome: &Result<User, AuthError>, now: u64, ttl: u64) -> (reply:
    LoginReply)
    requires
        now + ttl <= usize::MAX,
    ensures
        reply@ == login_reply_of(
            outcome_view(*outcome),
            match *outcome {
                Ok(user) => issued(
                    Claims { user_id: user.id, exp: (now + ttl) as usize },
                    codec.secret(),
                ),
                Err(_) => None,
            },
        ),
{
    let token = match outcome {
        Ok(user) => codec.issue(user.id, now, ttl),
        Err(_) => None,
    };
    reply_to_login(outcome, token)
}

/// With an avatar asset the avatar depends on the profile id and the asset
/// hash alone: the e-mail address plays no part.
pub proof fn lemma_avatar_with_asset_ignores_email(
    profile_id: u64,
    hash: Seq<char>,
    email: Seq<char>,
    other_email: Seq<char>,
)
    ensures
        avatar_of(profile_id, Some(hash), email) == avatar_of(profile_id, Some(hash), other_email),
{
}

/// Without an avatar asset the avatar depends on the e-mail address alone: the
/// profile id plays no part.
pub proof fn lemma_default_avatar_ignores_profile(
    profile_id: u64,
    other_id: u64,
    email: Seq<char>,
)
    ensures
        avatar_of(profile_id, None, email) == avatar_of(other_id, None, email),
{
}

/// Two e-mail addresses whose digests differ have different default avatars.
pub proof fn lemma_default_avatars_differ_with_digests(
    profile_id: u64,
    other_id: u64,
    email: Seq<char>,
    other_email: Seq<char>,
)
    requires
        sha256(encode_utf8(email)) != sha256(encode_utf8(other_email)),
    ensures
        avatar_of(profile_id, None, email) != avatar_of(other_id, None, other_email),
{
    let head = "https://gravatar.com/avatar/"@;
    let tail = "?d=retro"@;
    let a = hex_lower(sha256(encode_utf8(email)));
    let b = hex_lower(sha256(encode_utf8(other_email)));
    if head + a + tail == head + b + tail {
        assert((head + a + tail).len() == (head + b + tail).len());
        assert(a.len() == b.len());
        assert forall|i: int| 0 <= i < a.len() implies a[i] == b[i] by {
            assert((head + a + tail)[head.len() + i] == a[i]);
            assert((head + b + tail)[head.len() + i] == b[i]);
        }
        assert(a =~= b);
        lemma_hex_lower_injective(sha256(encode_utf8(email)), sha256(encode_utf8(other_email)));
    }
}

/// A finished exchange stays finished, with the same outcome, whatever is
/// reported to it afterwards.
pub proof fn lemma_finished_exchange_is_final(
    outcome: Result<UserView, AuthError>,
    events: Seq<ExchangeEventView>,
)
    ensures
        exchange_run(ExchangeView::Finished(outcome), events) == ExchangeView::Finished(outcome),
    decreases events.len(),
{
    if events.len() > 0 {
        lemma_finished_exchange_is_final(outcome, events.drop_first());
    }
}

/// A profile without a verified e-mail address ends the exchange with
/// `MissingEmail`: storage is never asked to record a principal, and nothing
/// that is reported afterwards changes the outcome.
pub proof fn lemma_missing_email_ends_exchange(
    code: Seq<char>,
    access_token: Seq<char>,
    profile: ProfileView,
    later: Seq<ExchangeEventView>,
)
    requires
        verified_email(profile) is None,
    ensures
        exchange_run(
            ExchangeView::AwaitingToken { code },
            seq![
                ExchangeEventView::TokenGranted(access_token),
                ExchangeEventView::ProfileFetched(profile),
            ] + later,
        ) == ExchangeView::Finished(Err(AuthError::MissingEmail)),
{
    let start = ExchangeView::AwaitingToken { code };
    let first = ExchangeEventView::TokenGranted(access_token);
    let second = ExchangeEventView::ProfileFetched(profile);
    let events = seq![first, second] + later;
    let after_first = exchange_next(start, first);
    let after_second = exchange_next(after_first, second);
    assert(events[0] == first);
    assert(events.drop_first()[0] == second);
    assert(events.drop_first().drop_first() =~= later);
    assert(exchange_run(start, events) == exchange_run(after_first, events.drop_first()));
    assert(exchange_run(after_first, events.drop_first()) == exchange_run(after_second, later));
    lemma_finished_exchange_is_final(Err(AuthError::MissingEmail), later);
}

/// An exchange asks storage for a principal only on a profile with a verified
/// e-mail address, and then with that address and the avatar derived for it.
pub proof fn lemma_storage_asked_only_with_verified_email(
    state: ExchangeView,
    event: ExchangeEventView,
)
    requires
        !(state is AwaitingUser),
        exchange_next(state, event) is AwaitingUser,
    ensures
        state is AwaitingProfile,
        event matches ExchangeEventView::ProfileFetched(profile) && verified_email(profile)
            matches Some(email) && exchange_next(state, event) == (ExchangeView::AwaitingUser {
            email,
            avatar: avatar_of(profile.id, profile.avatar, email),
        }),
{
}

/// An exchange ends with a principal only when storage has just returned it.
pub proof fn lemma_principal_comes_from_storage(state: ExchangeView, event: ExchangeEventView)
    requires
        !(state is Finished),
        exchange_next(state, event) matches ExchangeView::Finished(Ok(_)),
    ensures
        state is AwaitingUser,
        event matches ExchangeEventView::UserStored(user) && exchange_next(state, event) == (
        ExchangeView::Finished(Ok(user))),
{
}

} // verus!
