//! The guard of the protected routes.
//!
//! A request is let through when its `Authorization` header carries a bearer
//! credential that the session codec verifies and that names a principal whom
//! storage knows. The lookup is the caller's: `authorize` decides up to it,
//! `resolve` decides after it.

use vstd::prelude::*;
use vstd::slice::slice_subrange;
use crate::session::{verified, SessionCodec};
use crate::text::{ascii_text, push_ascii, text_of};
use crate::user::{User, UserId, UserView};

verus! {

/// Why a request is turned away.
#[derive(Clone, Copy, Debug, PartialEq, Eq, Structural)]
pub enum Rejection {
    /// The credential is missing, malformed, invalid or expired, or names a
    /// principal whom storage does not know.
    Unauthenticated,
    /// Storage failed while the principal was looked up.
    Internal,
}

impl Rejection {
    /// The HTTP status that answers the rejection.
    pub fn status(&self) -> (code: u16)
        ensures
            code == match *self {
                Rejection::Unauthenticated => 401u16,
                Rejection::Internal => 500u16,
            },
    {
        match self {
            Rejection::Unauthenticated => 401,
            Rejection::Internal => 500,
        }
    }
}

/// A space or a horizontal tab: the blanks that a header value can hold.
pub open spec fn is_blank(b: u8) -> bool {
    b == 32 || b == 9
}

/// Visible ASCII, or a horizontal tab.
pub open spec fn is_visible(b: u8) -> bool {
    32 <= b < 127 || b == 9
}

/// Whether a header value is text: every byte is visible ASCII or a tab.
pub open spec fn is_header_text(value: Seq<u8>) -> bool {
    forall|i: int| 0 <= i < value.len() ==> is_visible(#[trigger] value[i])
}

/// The first position at or after `from` that holds no blank, or the length.
pub open spec fn skip_blanks(value: Seq<u8>, from: int) -> int
    decreases value.len() - from,
{
    if 0 <= from < value.len() && is_blank(value[from]) {
        skip_blanks(value, from + 1)
    } else {
        from
    }
}

/// The first position at or after `from` that holds a blank, or the length.
pub open spec fn skip_word(value: Seq<u8>, from: int) -> int
    decreases value.len() - from,
{
    if 0 <= from < value.len() && !is_blank(value[from]) {
        skip_word(value, from + 1)
    } else {
        from
    }
}

/// Where the word of index `k` starts and ends. Words are the maximal runs of
/// bytes that are no blanks, counted from zero.
pub open spec fn word_bounds(value: Seq<u8>, k: nat) -> (int, int)
    decreases k,
{
    let from = if k == 0 {
        0
    } else {
        word_bounds(value, (k - 1) as nat).1
    };
    let start = skip_blanks(value, from);
    (start, skip_word(value, start))
}

/// The word of index `k`, where the value has that many words.
pub open spec fn word(value: Seq<u8>, k: nat) -> Option<Seq<u8>> {
    let (start, end) = word_bounds(value, k);
    if start < value.len() {
        Some(value.subrange(start, end))
    } else {
        None
    }
}

/// The name of the bearer scheme, `Bearer`.
pub open spec fn bearer_scheme() -> Seq<u8> {
    seq![66u8, 101u8, 97u8, 114u8, 101u8, 114u8]
}

/// The credential that an `Authorization` header value carries: the second
/// word, where the value is text and its first word is `Bearer`.
pub open spec fn bearer_of(value: Seq<u8>) -> Option<Seq<char>> {
    if is_header_text(value) && word(value, 0) == Some(bearer_scheme()) {
        match word(value, 1) {
            Some(token) => Some(ascii_text(token)),
            None => None,
        }
    } else {
        None
    }
}

fn check_header_text(value: &[u8]) -> (ok: bool)
    ensures
        ok == is_header_text(value@),
{
    let mut i: usize = 0;
    while i < value.len()
        invariant
            i <= value.len(),
            forall|j: int| 0 <= j < i ==> is_visible(#[trigger] value@[j]),
        decreases value.len() - i,
    {
        let b: u8 = value[i];
        if !(b >= 32 && b < 127 || b == 9) {
            return false;
        }
        i = i + 1;
    }
    true
}

fn blanks_end(value: &[u8], from: usize) -> (to: usize)
    requires
        from <= value.len(),
    ensures
        to == skip_blanks(value@, from as int),
        from <= to <= value.len(),
{
    let mut i: usize = from;
    while i < value.len() && (value[i] == 32 || value[i] == 9)
        invariant
            from <= i <= value.len(),
            skip_blanks(value@, from as int) == skip_blanks(value@, i as int),
        decreases value.len() - i,
    {
        i = i + 1;
    }
    i
}

fn word_end(value: &[u8], from: usize) -> (to: usize)
    requires
        from <= value.len(),
    ensures
        to == skip_word(value@, from as int),
        from <= to <= value.len(),
{
    let mut i: usize = from;
    while i < value.len() && !(value[i] == 32 || value[i] == 9)
        invariant
            from <= i <= value.len(),
            skip_word(value@, from as int) == skip_word(value@, i as int),
        decreases value.len() - i,
    {
        i = i + 1;
    }
    i
}

fn is_bearer(name: &[u8]) -> (yes: bool)
    ensures
        yes == (name@ == bearer_scheme()),
{
    let yes = name.len() == 6 && name[0] == 66 && name[1] == 101 && name[2] == 97 && name[3] == 114
        && name[4] == 101 && name[5] == 114;
    proof {
        if yes {
            assert(name@ =~= bearer_scheme());
        }
    }
    yes
}

/// Reads the bearer credential out of the value of an `Authorization` header.
pub fn bearer_token(value: &[u8]) -> (token: Option<String>)
    ensures
        text_of(token) == bearer_of(value@),
{
    if !check_header_text(value) {
        return None;
    }
    let first_start = blanks_end(value, 0);
    let first_end = word_end(value, first_start);
    let second_start = blanks_end(value, first_end);
    let second_end = word_end(value, second_start);
    proof {
        assert(word_bounds(value@, 0) == (first_start as int, first_end as int));
        assert(word_bounds(value@, 1) == (second_start as int, second_end as int));
    }
    if first_start >= value.len() || second_start >= value.len() {
        return None;
    }
    if !is_bearer(slice_subrange(value, first_start, first_end)) {
        return None;
    }
    let mut token = String::new();
    push_ascii(&mut token, slice_subrange(value, second_start, second_end));
    Some(token)
}

/// What storage answers when it is asked for a principal.
#[derive(Debug)]
pub enum Resolution {
    /// The principal exists.
    Found(User),
    /// No principal has that identifier.
    NotFound,
    /// Storage failed.
    Failed,
}

/// The mathematical content of a `Resolution`.
pub enum ResolutionView {
    Found(UserView),
    NotFound,
    Failed,
}

impl View for Resolution {
    type V = ResolutionView;

    open spec fn view(&self) -> ResolutionView {
        match *self {
            Resolution::Found(user) => ResolutionView::Found(user@),
            Resolution::NotFound => ResolutionView::NotFound,
            Resolution::Failed => ResolutionView::Failed,
        }
    }
}

/// How far a request has come at the guard.
#[derive(Debug)]
pub enum Admission {
    /// The credential is good; storage is to look this principal up.
    Resolving { user_id: UserId },
    /// The request goes on, with this principal attached.
    Admitted(User),
    /// The request is turned away.
    Rejected(Rejection),
}

/// The mathematical content of an `Admission`.
pub enum AdmissionView {
    Resolving { user_id: UserId },
    Admitted(UserView),
    Rejected(Rejection),
}

impl View for Admission {
    type V = AdmissionView;

    open spec fn view(&self) -> AdmissionView {
        match *self {
            Admission::Resolving { user_id } => AdmissionView::Resolving { user_id },
            Admission::Admitted(user) => AdmissionView::Admitted(user@),
            Admission::Rejected(rejection) => AdmissionView::Rejected(rejection),
        }
    }
}

/// The decision on a request before storage is asked: without a header, with
/// one that carries no bearer credential, or with a credential that does not
/// verify at `now`, the request is unauthenticated; otherwise the principal
/// that the credential names is to be looked up.
pub open spec fn admission_of(header: Option<Seq<u8>>, secret: Seq<u8>, now: u64) -> AdmissionView {
    match header {
        Some(value) => match bearer_of(value) {
            Some(token) => match verified(token, secret, now) {
                Ok(claims) => AdmissionView::Resolving { user_id: claims.user_id },
                Err(_) => AdmissionView::Rejected(Rejection::Unauthenticated),
            },
            None => AdmissionView::Rejected(Rejection::Unauthenticated),
        },
        None => AdmissionView::Rejected(Rejection::Unauthenticated),
    }
}

/// The decision once storage has answered. A principal who is found is
/// admitted, provided that it is the one asked for; one who is not found is
/// unauthenticated; a storage failure is an internal error. A decision that
/// was already final stands.
pub open spec fn resolved(admission: AdmissionView, resolution: ResolutionView) -> AdmissionView {
    match admission {
        AdmissionView::Resolving { user_id } => match resolution {
            ResolutionView::Found(user) => if user.id == user_id {
                AdmissionView::Admitted(user)
            } else {
                AdmissionView::Rejected(Rejection::Internal)
            },
            ResolutionView::NotFound => AdmissionView::Rejected(Rejection::Unauthenticated),
            ResolutionView::Failed => AdmissionView::Rejected(Rejection::Internal),
        },
        _ => admission,
    }
}

/// The content of an optional header value.
pub open spec fn header_bytes(header: Option<&[u8]>) -> Option<Seq<u8>> {
    match header {
        Some(value) => Some(value@),
        None => None,
    }
}

/// Decides on a request from the value of its `Authorization` header, if it
/// has one, at time `now`. Storage is not needed for this decision, and is to
/// be asked only where the result is `Resolving`.
pub fn authorize(codec: &SessionCodec, header: Option<&[u8]>, now: u64) -> (admission: Admission)
    ensures
        admission@ == admission_of(header_bytes(header), codec.secret(), now),
{
    let value = match header {
        Some(value) => value,
        None => { return Admission::Rejected(Rejection::Unauthenticated); },
    };
    let token = match bearer_token(value) {
        Some(token) => token,
        None => { return Admission::Rejected(Rejection::Unauthenticated); },
    };
    match codec.verify(token.as_str(), now) {
        Ok(claims) => Admission::Resolving { user_id: claims.user_id },
        Err(_) => Admission::Rejected(Rejection::Unauthenticated),
    }
}

/// Finishes the decision with storage's answer to the lookup.
pub fn resolve(admission: Admission, resolution: Resolution) -> (next: Admission)
    ensures
        next@ == resolved(admission@, resolution@),
{
    match admission {
        Admission::Resolving { user_id } => match resolution {
            Resolution::Found(user) => {
                if user.id.value == user_id.value {
                    Admission::Admitted(user)
                } else {
                    Admission::Rejected(Rejection::Internal)
                }
            },
            Resolution::NotFound => Admission::Rejected(Rejection::Unauthenticated),
            Resolution::Failed => Admission::Rejected(Rejection::Internal),
        },
        Admission::Admitted(user) => Admission::Admitted(user),
        Admission::Rejected(rejection) => Admission::Rejected(rejection),
    }
}

/// `skip_blanks` passes over blanks only and stops at the first byte that is
/// none, or at the end.
pub proof fn lemma_skip_blanks(value: Seq<u8>, from: int)
    requires
        0 <= from <= value.len(),
    ensures
        from <= skip_blanks(value, from) <= value.len(),
        forall|i: int| from <= i < skip_blanks(value, from) ==> is_blank(#[trigger] value[i]),
        skip_blanks(value, from) < value.len() ==> !is_blank(value[skip_blanks(value, from)]),
    decreases value.len() - from,
{
    if from < value.len() && is_blank(value[from]) {
        lemma_skip_blanks(value, from + 1);
    }
}

/// `skip_word` passes over bytes that are no blanks and stops at the first
/// blank, or at the end.
pub proof fn lemma_skip_word(value: Seq<u8>, from: int)
    requires
        0 <= from <= value.len(),
    ensures
        from <= skip_word(value, from) <= value.len(),
        forall|i: int| from <= i < skip_word(value, from) ==> !is_blank(#[trigger] value[i]),
        skip_word(value, from) < value.len() ==> is_blank(value[skip_word(value, from)]),
    decreases value.len() - from,
{
    if from < value.len() && !is_blank(value[from]) {
        lemma_skip_word(value, from + 1);
    }
}

/// The bounds of every word lie within the value, in order.
pub proof fn lemma_word_bounds(value: Seq<u8>, k: nat)
    ensures
        0 <= word_bounds(value, k).0 <= word_bounds(value, k).1 <= value.len(),
    decreases k,
{
    let from = if k == 0 {
        0
    } else {
        word_bounds(value, (k - 1) as nat).1
    };
    if k > 0 {
        lemma_word_bounds(value, (k - 1) as nat);
    }
    lemma_skip_blanks(value, from);
    lemma_skip_word(value, skip_blanks(value, from));
}

/// A word is a maximal run of bytes that are no blanks: it is not empty, holds
/// no blank, and has a blank or an edge of the value on either side.
pub proof fn lemma_word_is_maximal_run(value: Seq<u8>, k: nat)
    requires
        word(value, k) is Some,
    ensures
        ({
            let (start, end) = word_bounds(value, k);
            &&& 0 <= start < end <= value.len()
            &&& word(value, k) == Some(value.subrange(start, end))
            &&& forall|i: int| start <= i < end ==> !is_blank(#[trigger] value[i])
            &&& start == 0 || is_blank(value[start - 1])
            &&& end == value.len() || is_blank(value[end])
        }),
{
    let from = if k == 0 {
        0
    } else {
        word_bounds(value, (k - 1) as nat).1
    };
    if k > 0 {
        lemma_word_bounds(value, (k - 1) as nat);
        let earlier = if k == 1 {
            0
        } else {
            word_bounds(value, (k - 2) as nat).1
        };
        if k > 1 {
            lemma_word_bounds(value, (k - 2) as nat);
        }
        lemma_skip_blanks(value, earlier);
        lemma_skip_word(value, skip_blanks(value, earlier));
    }
    lemma_skip_blanks(value, from);
    let start = skip_blanks(value, from);
    lemma_skip_word(value, start);
}

/// A request without an `Authorization` header is unauthenticated, and
/// storage is not asked about it.
pub proof fn lemma_no_header_no_lookup(secret: Seq<u8>, now: u64)
    ensures
        admission_of(None, secret, now) == AdmissionView::Rejected(Rejection::Unauthenticated),
{
}

/// Before storage has answered, a request is never admitted and never fails
/// with an internal error: it is unauthenticated, or a lookup is due.
pub proof fn lemma_first_decision(header: Option<Seq<u8>>, secret: Seq<u8>, now: u64)
    ensures
        admission_of(header, secret, now) is Resolving || admission_of(header, secret, now)
            == AdmissionView::Rejected(Rejection::Unauthenticated),
{
}

/// Storage is asked only about the principal of a credential that verifies:
/// the header is there, carries a bearer credential, and the codec accepts it
/// at `now` with the identifier that is looked up.
pub proof fn lemma_lookup_only_for_verified_credential(
    header: Option<Seq<u8>>,
    secret: Seq<u8>,
    now: u64,
)
    requires
        admission_of(header, secret, now) is Resolving,
    ensures
        header matches Some(value) && bearer_of(value) matches Some(token) && verified(
            token,
            secret,
            now,
        ) matches Ok(claims) && admission_of(header, secret, now) == (AdmissionView::Resolving {
            user_id: claims.user_id,
        }) && now < claims.exp,
{
}

/// Whoever is admitted is the principal that the credential names.
pub proof fn lemma_admitted_is_the_principal_named(user_id: UserId, resolution: ResolutionView)
    requires
        resolved(AdmissionView::Resolving { user_id }, resolution) is Admitted,
    ensures
        resolution matches ResolutionView::Found(user) && user.id == user_id && resolved(
            AdmissionView::Resolving { user_id },
            resolution,
        ) == AdmissionView::Admitted(user),
{
}

/// A decision that is final is not changed by anything that storage says.
pub proof fn lemma_final_decision_stands(admission: AdmissionView, resolution: ResolutionView)
    requires
        !(admission is Resolving),
    ensures
        resolved(admission, resolution) == admission,
{
}

} // verus!
