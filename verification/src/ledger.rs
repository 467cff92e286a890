//! The conversation ledger: at most one turn per principal and article.
//!
//! The first message about an article fetches the article's readable text and
//! keeps it; every later message replaces the message and leaves the text as
//! it was first captured. Loading, fetching and saving are the caller's work:
//! a `Ledger` says which is due, and `ledger_step` goes on from the caller's
//! report. `ChatTable` states what the ledger expects of the relation behind
//! it.

use vstd::prelude::*;
use crate::user::UserId;

verus! {

/// One conversation turn. `created_at` counts microseconds since the Unix
/// epoch.
#[derive(Clone, Debug)]
pub struct Chat {
    pub user_id: UserId,
    pub article_url: String,
    pub article_content: String,
    pub message: String,
    pub created_at: i64,
}

/// The mathematical content of a `Chat`.
pub struct ChatView {
    pub user_id: UserId,
    pub article_url: Seq<char>,
    pub article_content: Seq<char>,
    pub message: Seq<char>,
    pub created_at: i64,
}

impl View for Chat {
    type V = ChatView;

    open spec fn view(&self) -> ChatView {
        ChatView {
            user_id: self.user_id,
            article_url: self.article_url@,
            article_content: self.article_content@,
            message: self.message@,
            created_at: self.created_at,
        }
    }
}

/// What identifies a turn: the principal and the article's address.
pub type ChatKey = (UserId, Seq<char>);

/// The key of a turn.
pub open spec fn key_of(row: ChatView) -> ChatKey {
    (row.user_id, row.article_url)
}

/// A turn with its message replaced.
pub open spec fn with_message(row: ChatView, message: Seq<char>) -> ChatView {
    ChatView {
        user_id: row.user_id,
        article_url: row.article_url,
        article_content: row.article_content,
        message,
        created_at: row.created_at,
    }
}

/// The relation after an upsert of `row`: a new key is inserted as given; on
/// a key that is already there only the message is overwritten.
pub open spec fn upserted(table: Map<ChatKey, ChatView>, row: ChatView) -> Map<ChatKey, ChatView> {
    let key = key_of(row);
    if table.dom().contains(key) {
        table.insert(key, with_message(table[key], row.message))
    } else {
        table.insert(key, row)
    }
}

/// The address at which the reader service serves the readable text of an
/// article.
pub open spec fn reader_page(article_url: Seq<char>) -> Seq<char> {
    "https://r.jina.ai/"@ + article_url
}

/// The address to fetch the readable text of an article from.
pub fn article_reader_url(article_url: &str) -> (url: String)
    ensures
        url@ == reader_page(article_url@),
{
    let mut url = String::from_str("https://r.jina.ai/");
    url.append(article_url);
    url
}

impl Chat {
    /// A copy with the same content.
    pub fn duplicate(&self) -> (copy: Chat)
        ensures
            copy@ == self@,
    {
        Chat {
            user_id: self.user_id,
            article_url: self.article_url.clone(),
            article_content: self.article_content.clone(),
            message: self.message.clone(),
            created_at: self.created_at,
        }
    }

    /// Upserts a turn: inserts it under a new key, with `now` as its creation
    /// time; under a key that is there, overwrites the message and nothing
    /// else.
    pub fn save(
        table: &mut ChatTable,
        user_id: UserId,
        article_url: &str,
        article_content: &str,
        message: &str,
        now: i64,
    )
        requires
            old(table).wf(),
        ensures
            final(table).wf(),
            final(table)@ == upserted(
                old(table)@,
                ChatView {
                    user_id,
                    article_url: article_url@,
                    article_content: article_content@,
                    message: message@,
                    created_at: now,
                },
            ),
    {
        table.upsert(
            Chat {
                user_id,
                article_url: String::from_str(article_url),
                article_content: String::from_str(article_content),
                message: String::from_str(message),
                created_at: now,
            },
        );
    }

    /// The turn of a principal about an article, if there is one.
    pub fn get(table: &ChatTable, user_id: UserId, article_url: &str) -> (turn: Option<Chat>)
        requires
            table.wf(),
        ensures
            match turn {
                Some(row) => table@.dom().contains((user_id, article_url@)) && row@ == table@[(
                    user_id,
                    article_url@,
                )],
                None => !table@.dom().contains((user_id, article_url@)),
            },
    {
        let url = String::from_str(article_url);
        match table.position(user_id, &url) {
            Some(i) => {
                proof {
                    table.lemma_row_is_entry(i as int);
                }
                Some(table.rows[i].duplicate())
            },
            None => None,
        }
    }
}

/// The chat relation as the ledger sees it: a set of turns, no two under the
/// same key.
pub struct ChatTable {
    rows: Vec<Chat>,
}

impl ChatTable {
    /// No two rows share a key.
    pub closed spec fn wf(&self) -> bool {
        forall|i: int, j: int|
            0 <= i < j < self.rows@.len() ==> key_of(#[trigger] self.rows@[i]@) != key_of(
                #[trigger] self.rows@[j]@,
            )
    }

    /// Whether row `i` is the row under `key`.
    pub closed spec fn holds(&self, i: int, key: ChatKey) -> bool {
        0 <= i < self.rows@.len() && key_of(self.rows@[i]@) == key
    }

    /// The relation as a map from keys to turns.
    pub closed spec fn view(&self) -> Map<ChatKey, ChatView> {
        Map::new(
            |key: ChatKey| exists|i: int| self.holds(i, key),
            |key: ChatKey| self.rows@[choose|i: int| self.holds(i, key)]@,
        )
    }

    /// Every turn is stored under its own key.
    pub proof fn lemma_rows_carry_their_key(&self, key: ChatKey)
        requires
            self@.dom().contains(key),
        ensures
            key_of(self@[key]) == key,
    {
        let i = choose|i: int| self.holds(i, key);
        assert(self.holds(i, key));
    }

    proof fn lemma_row_is_entry(&self, i: int)
        requires
            self.wf(),
            0 <= i < self.rows@.len(),
        ensures
            self@.dom().contains(key_of(self.rows@[i]@)),
            self@[key_of(self.rows@[i]@)] == self.rows@[i]@,
    {
        let key = key_of(self.rows@[i]@);
        assert(self.holds(i, key));
        let j = choose|j: int| self.holds(j, key);
        assert(self.holds(j, key));
        if i < j {
            assert(key_of(self.rows@[i]@) != key_of(self.rows@[j]@));
        }
        if j < i {
            assert(key_of(self.rows@[j]@) != key_of(self.rows@[i]@));
        }
    }

    /// The empty relation.
    pub fn new() -> (table: ChatTable)
        ensures
            table.wf(),
            table@ == Map::<ChatKey, ChatView>::empty(),
    {
        let table = ChatTable { rows: Vec::new() };
        proof {
            assert forall|key: ChatKey| !table@.dom().contains(key) by {
                if table@.dom().contains(key) {
                    let i = choose|i: int| table.holds(i, key);
                    assert(table.holds(i, key));
                }
            }
            assert(table@ =~= Map::<ChatKey, ChatView>::empty());
        }
        table
    }

    /// The number of turns.
    pub fn len(&self) -> (n: usize)
        requires
            self.wf(),
        ensures
            n == self@.dom().len(),
            self@.dom().finite(),
    {
        proof {
            self.lemma_domain_size(self.rows@.len() as int);
            assert(self.keys_below(self.rows@.len() as int) =~= self@.dom()) by {
                assert forall|key: ChatKey| self@.dom().contains(key) implies self.keys_below(
                    self.rows@.len() as int,
                ).contains(key) by {
                    let i = choose|i: int| self.holds(i, key);
                    assert(self.holds(i, key));
                }
                assert forall|key: ChatKey|
                    self.keys_below(self.rows@.len() as int).contains(key) implies self@.dom().contains(
                    key,
                ) by {
                    let i = choose|i: int| 0 <= i < self.rows@.len() && self.holds(i, key);
                    assert(self.holds(i, key));
                }
            }
        }
        self.rows.len()
    }

    spec fn keys_below(&self, n: int) -> Set<ChatKey> {
        Set::new(|key: ChatKey| exists|i: int| 0 <= i < n && self.holds(i, key))
    }

    proof fn lemma_domain_size(&self, n: int)
        requires
            self.wf(),
            0 <= n <= self.rows@.len(),
        ensures
            self.keys_below(n).finite(),
            self.keys_below(n).len() == n,
        decreases n,
    {
        if n == 0 {
            assert(self.keys_below(0) =~= Set::<ChatKey>::empty());
        } else {
            self.lemma_domain_size(n - 1);
            let key = key_of(self.rows@[n - 1]@);
            assert(self.holds(n - 1, key));
            assert(!self.keys_below(n - 1).contains(key)) by {
                if self.keys_below(n - 1).contains(key) {
                    let i = choose|i: int| 0 <= i < n - 1 && self.holds(i, key);
                    assert(key_of(self.rows@[i]@) != key_of(self.rows@[n - 1]@));
                }
            }
            assert(self.keys_below(n) =~= self.keys_below(n - 1).insert(key)) by {
                assert forall|k: ChatKey| self.keys_below(n).contains(k) implies self.keys_below(
                    n - 1,
                ).insert(key).contains(k) by {
                    let i = choose|i: int| 0 <= i < n && self.holds(i, k);
                    if i < n - 1 {
                        assert(self.holds(i, k));
                    }
                }
                assert forall|k: ChatKey|
                    self.keys_below(n - 1).insert(key).contains(k) implies self.keys_below(
                    n,
                ).contains(k) by {
                    if k == key {
                        assert(self.holds(n - 1, k));
                    } else {
                        let i = choose|i: int| 0 <= i < n - 1 && self.holds(i, k);
                        assert(self.holds(i, k));
                    }
                }
            }
        }
    }

    fn position(&self, user_id: UserId, article_url: &String) -> (at: Option<usize>)
        requires
            self.wf(),
        ensures
            match at {
                Some(i) => self.holds(i as int, (user_id, article_url@)),
                None => !self@.dom().contains((user_id, article_url@)),
            },
    {
        let mut i: usize = 0;
        while i < self.rows.len()
            invariant
                i <= self.rows@.len(),
                forall|j: int| 0 <= j < i ==> !self.holds(j, (user_id, article_url@)),
            decreases self.rows@.len() - i,
        {
            if self.rows[i].user_id.value == user_id.value && self.rows[i].article_url
                == *article_url {
                return Some(i);
            }
            i = i + 1;
        }
        proof {
            if self@.dom().contains((user_id, article_url@)) {
                let j = choose|j: int| self.holds(j, (user_id, article_url@));
                assert(self.holds(j, (user_id, article_url@)));
            }
        }
        None
    }

    fn upsert(&mut self, row: Chat)
        requires
            old(self).wf(),
        ensures
            final(self).wf(),
            final(self)@ == upserted(old(self)@, row@),
    {
        let ghost key = key_of(row@);
        let ghost before = *self;
        match self.position(row.user_id, &row.article_url) {
            Some(i) => {
                let kept = self.rows[i].duplicate();
                let replaced = Chat {
                    user_id: kept.user_id,
                    article_url: kept.article_url,
                    article_content: kept.article_content,
                    message: row.message,
                    created_at: kept.created_at,
                };
                self.rows.set(i, replaced);
                proof {
                    before.lemma_row_is_entry(i as int);
                    assert(self.rows@[i as int]@ == with_message(before@[key], row@.message));
                    assert forall|j: int| 0 <= j < self.rows@.len() implies key_of(
                        #[trigger] self.rows@[j]@,
                    ) == key_of(before.rows@[j]@) by {}
                    assert(self.wf()) by {
                        assert forall|a: int, b: int| 0 <= a < b < self.rows@.len() implies key_of(
                            #[trigger] self.rows@[a]@,
                        ) != key_of(#[trigger] self.rows@[b]@) by {
                            assert(key_of(before.rows@[a]@) != key_of(before.rows@[b]@));
                        }
                    }
                    let target = upserted(before@, row@);
                    assert forall|k: ChatKey| self@.dom().contains(k) <==> target.dom().contains(
                        k,
                    ) by {
                        if self@.dom().contains(k) {
                            let j = choose|j: int| self.holds(j, k);
                            assert(self.holds(j, k));
                            assert(before.holds(j, k));
                        }
                        if target.dom().contains(k) {
                            if k == key {
                                assert(self.holds(i as int, k));
                            } else {
                                let j = choose|j: int| before.holds(j, k);
                                assert(before.holds(j, k));
                                assert(self.holds(j, k));
                            }
                        }
                    }
                    assert forall|k: ChatKey| self@.dom().contains(k) implies self@[k]
                        == target[k] by {
                        let j = choose|j: int| self.holds(j, k);
                        assert(self.holds(j, k));
                        self.lemma_row_is_entry(j);
                        before.lemma_row_is_entry(j);
                    }
                    assert(self@ =~= target);
                }
            },
            None => {
                self.rows.push(row);
                proof {
                    let n = before.rows@.len() as int;
                    assert forall|j: int| 0 <= j < n implies self.rows@[j] == before.rows@[j] by {}
                    assert(self.wf()) by {
                        assert forall|a: int, b: int| 0 <= a < b < self.rows@.len() implies key_of(
                            #[trigger] self.rows@[a]@,
                        ) != key_of(#[trigger] self.rows@[b]@) by {
                            if b < n {
                                assert(key_of(before.rows@[a]@) != key_of(before.rows@[b]@));
                            } else {
                                if key_of(self.rows@[a]@) == key {
                                    assert(before.holds(a, key));
                                }
                            }
                        }
                    }
                    let target = upserted(before@, row@);
                    assert forall|k: ChatKey| self@.dom().contains(k) <==> target.dom().contains(
                        k,
                    ) by {
                        if self@.dom().contains(k) {
                            let j = choose|j: int| self.holds(j, k);
                            assert(self.holds(j, k));
                            if j < n {
                                assert(before.holds(j, k));
                            }
                        }
                        if target.dom().contains(k) {
                            if k == key {
                                assert(self.holds(n, k));
                            } else {
                                let j = choose|j: int| before.holds(j, k);
                                assert(before.holds(j, k));
                                assert(self.holds(j, k));
                            }
                        }
                    }
                    assert forall|k: ChatKey| self@.dom().contains(k) implies self@[k]
                        == target[k] by {
                        let j = choose|j: int| self.holds(j, k);
                        assert(self.holds(j, k));
                        self.lemma_row_is_entry(j);
                        if j < n {
                            before.lemma_row_is_entry(j);
                        }
                    }
                    assert(self@ =~= target);
                }
            },
        }
    }
}

/// Why the ledger could not hand out a turn.
#[derive(Clone, Copy, Debug, PartialEq, Eq, Structural)]
pub enum LedgerError {
    /// The readable text of the article could not be fetched.
    Fetch,
    /// Storage failed while the turn was loaded or saved.
    Storage,
}

/// What the ledger is waiting for, or how it ended.
#[derive(Debug)]
pub enum Ledger {
    /// Storage is to load the turn of this principal about this article.
    Loading { user_id: UserId, article_url: String, message: String },
    /// The reader service is to fetch the readable text of the article.
    Fetching { user_id: UserId, article_url: String, message: String },
    /// Storage is to upsert this turn.
    Saving { turn: Chat },
    /// The ledger is done.
    Finished(Result<Chat, LedgerError>),
}

/// The mathematical content of a `Ledger`.
pub enum LedgerView {
    Loading { user_id: UserId, article_url: Seq<char>, message: Seq<char> },
    Fetching { user_id: UserId, article_url: Seq<char>, message: Seq<char> },
    Saving { turn: ChatView },
    Finished(Result<ChatView, LedgerError>),
}

impl View for Ledger {
    type V = LedgerView;

    open spec fn view(&self) -> LedgerView {
        match *self {
            Ledger::Loading { user_id, article_url, message } => LedgerView::Loading {
                user_id,
                article_url: article_url@,
                message: message@,
            },
            Ledger::Fetching { user_id, article_url, message } => LedgerView::Fetching {
                user_id,
                article_url: article_url@,
                message: message@,
            },
            Ledger::Saving { turn } => LedgerView::Saving { turn: turn@ },
            Ledger::Finished(Ok(turn)) => LedgerView::Finished(Ok(turn@)),
            Ledger::Finished(Err(error)) => LedgerView::Finished(Err(error)),
        }
    }
}

/// How the step that the ledger was waiting for went.
#[derive(Debug)]
pub enum LedgerEvent {
    /// Storage holds this turn.
    Found(Chat),
    /// Storage holds no turn under the key.
    NotFound,
    /// The reader service returned this text, at this time.
    Fetched { content: String, now: i64 },
    /// Storage took the upsert.
    Saved,
    /// The step failed.
    Failed,
}

/// The mathematical content of a `LedgerEvent`.
pub enum LedgerEventView {
    Found(ChatView),
    NotFound,
    Fetched { content: Seq<char>, now: i64 },
    Saved,
    Failed,
}

impl View for LedgerEvent {
    type V = LedgerEventView;

    open spec fn view(&self) -> LedgerEventView {
        match *self {
            LedgerEvent::Found(turn) => LedgerEventView::Found(turn@),
            LedgerEvent::NotFound => LedgerEventView::NotFound,
            LedgerEvent::Fetched { content, now } => LedgerEventView::Fetched {
                content: content@,
                now,
            },
            LedgerEvent::Saved => LedgerEventView::Saved,
            LedgerEvent::Failed => LedgerEventView::Failed,
        }
    }
}

/// Where the ledger goes from `state` on `event`.
///
/// A turn that is found keeps its text and its creation time and takes the
/// new message; only a turn that is truly not there is created, from the
/// fetched text. Whatever else is reported counts as the failure of the
/// awaited step: a storage failure while loading or saving, a fetch failure
/// while fetching. A turn found under another key than the one asked for is a
/// storage failure too. A finished ledger stays as it is.
pub open spec fn ledger_next(state: LedgerView, event: LedgerEventView) -> LedgerView {
    match state {
        LedgerView::Loading { user_id, article_url, message } => match event {
            LedgerEventView::Found(turn) => if key_of(turn) == (user_id, article_url) {
                LedgerView::Saving { turn: with_message(turn, message) }
            } else {
                LedgerView::Finished(Err(LedgerError::Storage))
            },
            LedgerEventView::NotFound => LedgerView::Fetching { user_id, article_url, message },
            _ => LedgerView::Finished(Err(LedgerError::Storage)),
        },
        LedgerView::Fetching { user_id, article_url, message } => match event {
            LedgerEventView::Fetched { content, now } => LedgerView::Saving {
                turn: ChatView {
                    user_id,
                    article_url,
                    article_content: content,
                    message,
                    created_at: now,
                },
            },
            _ => LedgerView::Finished(Err(LedgerError::Fetch)),
        },
        LedgerView::Saving { turn } => match event {
            LedgerEventView::Saved => LedgerView::Finished(Ok(turn)),
            _ => LedgerView::Finished(Err(LedgerError::Storage)),
        },
        LedgerView::Finished(outcome) => LedgerView::Finished(outcome),
    }
}

/// Starts the ledger for a message of a principal about an article.
pub fn ledger_begin(user_id: UserId, article_url: &str, message: &str) -> (state: Ledger)
    ensures
        state@ == (LedgerView::Loading { user_id, article_url: article_url@, message: message@ }),
{
    Ledger::Loading {
        user_id,
        article_url: String::from_str(article_url),
        message: String::from_str(message),
    }
}

/// Takes the ledger one step further, given how the awaited step went.
pub fn ledger_step(state: Ledger, event: LedgerEvent) -> (next: Ledger)
    ensures
        next@ == ledger_next(state@, event@),
{
    match state {
        Ledger::Loading { user_id, article_url, message } => match event {
            LedgerEvent::Found(turn) => {
                if turn.user_id.value == user_id.value && turn.article_url == article_url {
                    Ledger::Saving {
                        turn: Chat {
                            user_id: turn.user_id,
                            article_url: turn.article_url,
                            article_content: turn.article_content,
                            message,
                            created_at: turn.created_at,
                        },
                    }
                } else {
                    Ledger::Finished(Err(LedgerError::Storage))
                }
            },
            LedgerEvent::NotFound => Ledger::Fetching { user_id, article_url, message },
            _ => Ledger::Finished(Err(LedgerError::Storage)),
        },
        Ledger::Fetching { user_id, article_url, message } => match event {
            LedgerEvent::Fetched { content, now } => Ledger::Saving {
                turn: Chat {
                    user_id,
                    article_url,
                    article_content: content,
                    message,
                    created_at: now,
                },
            },
            _ => Ledger::Finished(Err(LedgerError::Fetch)),
        },
        Ledger::Saving { turn } => match event {
            LedgerEvent::Saved => Ledger::Finished(Ok(turn)),
            _ => Ledger::Finished(Err(LedgerError::Storage)),
        },
        Ledger::Finished(outcome) => Ledger::Finished(outcome),
    }
}

/// What one call of the ledger makes of the relation `table`, and what it
/// returns. `fetched` is the text that the reader service has for the
/// article, or nothing where the fetch fails; it matters only where the
/// relation holds no turn under the key.
pub open spec fn ledger_outcome(
    table: Map<ChatKey, ChatView>,
    user_id: UserId,
    article_url: Seq<char>,
    message: Seq<char>,
    fetched: Option<Seq<char>>,
    now: i64,
) -> (Map<ChatKey, ChatView>, Result<ChatView, LedgerError>) {
    let key = (user_id, article_url);
    if table.dom().contains(key) {
        let turn = with_message(table[key], message);
        (table.insert(key, turn), Ok(turn))
    } else {
        match fetched {
            Some(content) => {
                let turn = ChatView {
                    user_id,
                    article_url,
                    article_content: content,
                    message,
                    created_at: now,
                };
                (table.insert(key, turn), Ok(turn))
            },
            None => (table, Err(LedgerError::Fetch)),
        }
    }
}

/// The content of what the ledger returns.
pub open spec fn turn_view(outcome: Result<Chat, LedgerError>) -> Result<ChatView, LedgerError> {
    match outcome {
        Ok(turn) => Ok(turn@),
        Err(error) => Err(error),
    }
}

/// The content of an optional text.
pub open spec fn fetched_view(fetched: Option<&str>) -> Option<Seq<char>> {
    match fetched {
        Some(text) => Some(text@),
        None => None,
    }
}

/// Loads the turn of a principal about an article or creates it, and records
/// the message, against a relation held in memory. `fetched` is what the
/// reader service has for the article; it is used only where no turn exists.
pub fn get_or_create_chat_history(
    table: &mut ChatTable,
    user_id: UserId,
    article_url: &str,
    message: &str,
    fetched: Option<&str>,
    now: i64,
) -> (outcome: Result<Chat, LedgerError>)
    requires
        old(table).wf(),
    ensures
        final(table).wf(),
        (final(table)@, turn_view(outcome)) == ledger_outcome(
            old(table)@,
            user_id,
            article_url@,
            message@,
            fetched_view(fetched),
            now,
        ),
{
    let state = ledger_begin(user_id, article_url, message);
    let loaded = match Chat::get(table, user_id, article_url) {
        Some(turn) => {
            proof {
                table.lemma_rows_carry_their_key((user_id, article_url@));
            }
            LedgerEvent::Found(turn)
        },
        None => LedgerEvent::NotFound,
    };
    let state = ledger_step(state, loaded);
    let state = match state {
        Ledger::Fetching { user_id, article_url, message } => {
            let event = match fetched {
                Some(text) => LedgerEvent::Fetched { content: String::from_str(text), now },
                None => LedgerEvent::Failed,
            };
            ledger_step(Ledger::Fetching { user_id, article_url, message }, event)
        },
        other => other,
    };
    let state = match state {
        Ledger::Saving { turn } => {
            Chat::save(
                table,
                turn.user_id,
                turn.article_url.as_str(),
                turn.article_content.as_str(),
                turn.message.as_str(),
                turn.created_at,
            );
            proof {
                assert(table@ =~= ledger_outcome(
                    old(table)@,
                    user_id,
                    article_url@,
                    message@,
                    fetched_view(fetched),
                    now,
                ).0);
            }
            ledger_step(Ledger::Saving { turn }, LedgerEvent::Saved)
        },
        other => other,
    };
    match state {
        Ledger::Finished(outcome) => outcome,
        _ => Err(LedgerError::Storage),
    }
}

/// Two messages in a row about one article: after the second call the
/// relation holds the second message, and the text is the one that the first
/// call stored or found, in the relation and in what both calls return.
pub proof fn lemma_second_message_replaces_first(
    table: Map<ChatKey, ChatView>,
    user_id: UserId,
    article_url: Seq<char>,
    first_message: Seq<char>,
    second_message: Seq<char>,
    first_fetch: Option<Seq<char>>,
    second_fetch: Option<Seq<char>>,
    first_now: i64,
    second_now: i64,
)
    requires
        ledger_outcome(table, user_id, article_url, first_message, first_fetch, first_now).1 is Ok,
    ensures
        ({
            let key = (user_id, article_url);
            let first = ledger_outcome(
                table,
                user_id,
                article_url,
                first_message,
                first_fetch,
                first_now,
            );
            let second = ledger_outcome(
                first.0,
                user_id,
                article_url,
                second_message,
                second_fetch,
                second_now,
            );
            &&& first.0.dom().contains(key)
            &&& first.0[key].message == first_message
            &&& first.1 == Ok::<ChatView, LedgerError>(first.0[key])
            &&& second.0.dom().contains(key)
            &&& second.0[key].message == second_message
            &&& second.1 == Ok::<ChatView, LedgerError>(second.0[key])
            &&& second.0[key].article_content == first.0[key].article_content
            &&& second.0[key].created_at == first.0[key].created_at
            &&& !table.dom().contains(key) ==> first_fetch == Some(first.0[key].article_content)
            &&& table.dom().contains(key) ==> first.0[key].article_content
                == table[key].article_content
        }),
{
}

/// A call of the ledger touches no turn but the one it is about, and never
/// removes a turn.
pub proof fn lemma_other_turns_untouched(
    table: Map<ChatKey, ChatView>,
    user_id: UserId,
    article_url: Seq<char>,
    message: Seq<char>,
    fetched: Option<Seq<char>>,
    now: i64,
    other: ChatKey,
)
    requires
        other != (user_id, article_url),
    ensures
        ({
            let after = ledger_outcome(table, user_id, article_url, message, fetched, now).0;
            &&& after.dom().contains(other) == table.dom().contains(other)
            &&& table.dom().contains(other) ==> after[other] == table[other]
            &&& table.dom().contains((user_id, article_url)) ==> after.dom().contains(
                (user_id, article_url),
            )
        }),
{
}

/// Where the fetch fails on first contact, nothing is recorded.
pub proof fn lemma_failed_fetch_records_nothing(
    table: Map<ChatKey, ChatView>,
    user_id: UserId,
    article_url: Seq<char>,
    message: Seq<char>,
    now: i64,
)
    requires
        !table.dom().contains((user_id, article_url)),
    ensures
        ledger_outcome(table, user_id, article_url, message, None, now) == (
            table,
            Err::<ChatView, LedgerError>(LedgerError::Fetch),
        ),
{
}

/// An upsert repeated changes nothing, and of two upserts under one key the
/// later message stands while the text of the earlier one stays.
pub proof fn lemma_upsert_converges(table: Map<ChatKey, ChatView>, first: ChatView, second: ChatView)
    requires
        key_of(first) == key_of(second),
    ensures
        upserted(upserted(table, first), first) == upserted(table, first),
        upserted(upserted(table, first), second).dom() == upserted(table, first).dom(),
        upserted(upserted(table, first), second)[key_of(first)] == with_message(
            upserted(table, first)[key_of(first)],
            second.message,
        ),
{
    let key = key_of(first);
    let once = upserted(table, first);
    assert(once.dom().contains(key));
    assert(upserted(once, first) =~= once);
    assert(upserted(once, second).dom() =~= once.dom());
}

/// The machine, told what the relation holds and what the reader service has,
/// ends as `ledger_outcome` says and asks storage for exactly that upsert.
pub proof fn lemma_ledger_follows_relation(
    table: Map<ChatKey, ChatView>,
    user_id: UserId,
    article_url: Seq<char>,
    message: Seq<char>,
    content: Seq<char>,
    now: i64,
)
    requires
        forall|key: ChatKey| table.dom().contains(key) ==> key_of(#[trigger] table[key]) == key,
    ensures
        ({
            let key = (user_id, article_url);
            let start = LedgerView::Loading { user_id, article_url, message };
            let loaded = if table.dom().contains(key) {
                ledger_next(start, LedgerEventView::Found(table[key]))
            } else {
                ledger_next(
                    ledger_next(start, LedgerEventView::NotFound),
                    LedgerEventView::Fetched { content, now },
                )
            };
            let expected = ledger_outcome(table, user_id, article_url, message, Some(content), now);
            &&& loaded matches LedgerView::Saving { turn } && upserted(table, turn) == expected.0
                && ledger_next(loaded, LedgerEventView::Saved) == LedgerView::Finished(expected.1)
        }),
{
    let key = (user_id, article_url);
    if table.dom().contains(key) {
        assert(key_of(table[key]) == key);
    }
}

} // verus!
