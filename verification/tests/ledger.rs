use onebrowser::ledger::{
    article_reader_url, get_or_create_chat_history, ledger_begin, ledger_step, Chat, ChatTable,
    Ledger, LedgerError, LedgerEvent,
};
use onebrowser::user::UserId;

fn alice() -> UserId {
    UserId::new(1)
}

fn bob() -> UserId {
    UserId::new(2)
}

const URL: &str = "https://example.com/article";

#[test]
fn reader_address() {
    assert_eq!(article_reader_url(URL), "https://r.jina.ai/https://example.com/article");
    assert_eq!(article_reader_url(""), "https://r.jina.ai/");
}

#[test]
fn second_message_replaces_the_first_and_the_text_stays() {
    let mut table = ChatTable::new();
    let first =
        get_or_create_chat_history(&mut table, alice(), URL, "first", Some("the text"), 10).unwrap();
    assert_eq!(first.article_content, "the text");
    assert_eq!(first.message, "first");
    assert_eq!(first.created_at, 10);

    let second =
        get_or_create_chat_history(&mut table, alice(), URL, "second", Some("another text"), 20)
            .unwrap();
    assert_eq!(second.article_content, "the text");
    assert_eq!(second.message, "second");
    assert_eq!(second.created_at, 10);

    let stored = Chat::get(&table, alice(), URL).unwrap();
    assert_eq!(stored.message, "second");
    assert_eq!(stored.article_content, "the text");
    assert_eq!(stored.user_id, alice());
    assert_eq!(stored.article_url, URL);
    assert_eq!(table.len(), 1);
}

#[test]
fn second_message_needs_no_fetch() {
    let mut table = ChatTable::new();
    get_or_create_chat_history(&mut table, alice(), URL, "first", Some("the text"), 10).unwrap();
    let second = get_or_create_chat_history(&mut table, alice(), URL, "second", None, 20).unwrap();
    assert_eq!(second.article_content, "the text");
    assert_eq!(second.message, "second");
}

#[test]
fn failed_fetch_on_first_contact_records_nothing() {
    let mut table = ChatTable::new();
    let outcome = get_or_create_chat_history(&mut table, alice(), URL, "first", None, 10);
    assert_eq!(outcome.err(), Some(LedgerError::Fetch));
    assert_eq!(table.len(), 0);
    assert!(Chat::get(&table, alice(), URL).is_none());
}

#[test]
fn turns_of_other_principals_and_articles_are_untouched() {
    let mut table = ChatTable::new();
    get_or_create_chat_history(&mut table, alice(), URL, "a1", Some("text"), 1).unwrap();
    get_or_create_chat_history(&mut table, bob(), URL, "b1", Some("text for bob"), 2).unwrap();
    get_or_create_chat_history(&mut table, alice(), "https://example.com/2", "a2", Some("t2"), 3)
        .unwrap();
    get_or_create_chat_history(&mut table, alice(), URL, "a3", None, 4).unwrap();
    assert_eq!(table.len(), 3);
    assert_eq!(Chat::get(&table, alice(), URL).unwrap().message, "a3");
    let bobs = Chat::get(&table, bob(), URL).unwrap();
    assert_eq!(bobs.message, "b1");
    assert_eq!(bobs.article_content, "text for bob");
    assert_eq!(Chat::get(&table, alice(), "https://example.com/2").unwrap().message, "a2");
    assert!(Chat::get(&table, bob(), "https://example.com/2").is_none());
}

#[test]
fn save_inserts_then_overwrites_the_message_only() {
    let mut table = ChatTable::new();
    Chat::save(&mut table, alice(), URL, "text", "m1", 5);
    Chat::save(&mut table, alice(), URL, "newer text", "m2", 9);
    let stored = Chat::get(&table, alice(), URL).unwrap();
    assert_eq!(stored.message, "m2");
    assert_eq!(stored.article_content, "text");
    assert_eq!(stored.created_at, 5);
    assert_eq!(table.len(), 1);
    Chat::save(&mut table, alice(), URL, "newer text", "m2", 9);
    assert_eq!(table.len(), 1);
    assert_eq!(Chat::get(&table, alice(), URL).unwrap().message, "m2");
}

#[test]
fn empty_table_holds_nothing() {
    let table = ChatTable::new();
    assert_eq!(table.len(), 0);
    assert!(Chat::get(&table, alice(), URL).is_none());
}

fn found() -> Chat {
    Chat {
        user_id: alice(),
        article_url: URL.to_string(),
        article_content: "kept text".to_string(),
        message: "old".to_string(),
        created_at: 7,
    }
}

#[test]
fn ledger_creates_a_turn_on_first_contact() {
    let state = ledger_begin(alice(), URL, "hello");
    assert!(matches!(&state, Ledger::Loading { user_id, article_url, message }
        if *user_id == alice() && article_url == URL && message == "hello"));
    let state = ledger_step(state, LedgerEvent::NotFound);
    assert!(matches!(&state, Ledger::Fetching { user_id, article_url, message }
        if *user_id == alice() && article_url == URL && message == "hello"));
    let state =
        ledger_step(state, LedgerEvent::Fetched { content: "fresh text".to_string(), now: 42 });
    match &state {
        Ledger::Saving { turn } => {
            assert_eq!(turn.user_id, alice());
            assert_eq!(turn.article_url, URL);
            assert_eq!(turn.article_content, "fresh text");
            assert_eq!(turn.message, "hello");
            assert_eq!(turn.created_at, 42);
        }
        other => panic!("expected an upsert, got {:?}", other),
    }
    let state = ledger_step(state, LedgerEvent::Saved);
    assert!(matches!(state, Ledger::Finished(Ok(turn))
        if turn.article_content == "fresh text" && turn.message == "hello"));
}

#[test]
fn ledger_keeps_the_text_of_a_turn_that_exists() {
    let state = ledger_step(ledger_begin(alice(), URL, "new"), LedgerEvent::Found(found()));
    match &state {
        Ledger::Saving { turn } => {
            assert_eq!(turn.article_content, "kept text");
            assert_eq!(turn.message, "new");
            assert_eq!(turn.created_at, 7);
        }
        other => panic!("expected an upsert, got {:?}", other),
    }
    let state = ledger_step(state, LedgerEvent::Saved);
    assert!(matches!(state, Ledger::Finished(Ok(turn)) if turn.message == "new"));
}

#[test]
fn load_failure_is_a_storage_error_and_no_creation() {
    let state = ledger_step(ledger_begin(alice(), URL, "m"), LedgerEvent::Failed);
    assert!(matches!(state, Ledger::Finished(Err(LedgerError::Storage))));
}

#[test]
fn fetch_failure_is_a_fetch_error() {
    let state = ledger_step(ledger_begin(alice(), URL, "m"), LedgerEvent::NotFound);
    let state = ledger_step(state, LedgerEvent::Failed);
    assert!(matches!(state, Ledger::Finished(Err(LedgerError::Fetch))));
}

#[test]
fn save_failure_is_a_storage_error() {
    let state = ledger_step(ledger_begin(alice(), URL, "m"), LedgerEvent::Found(found()));
    let state = ledger_step(state, LedgerEvent::Failed);
    assert!(matches!(state, Ledger::Finished(Err(LedgerError::Storage))));
}

#[test]
fn turn_under_another_key_is_a_storage_error() {
    let state = ledger_step(ledger_begin(bob(), URL, "m"), LedgerEvent::Found(found()));
    assert!(matches!(state, Ledger::Finished(Err(LedgerError::Storage))));
    let state = ledger_step(
        ledger_begin(alice(), "https://example.com/other", "m"),
        LedgerEvent::Found(found()),
    );
    assert!(matches!(state, Ledger::Finished(Err(LedgerError::Storage))));
}

#[test]
fn finished_ledger_stays_as_it_is() {
    let state = Ledger::Finished(Err(LedgerError::Fetch));
    let state = ledger_step(state, LedgerEvent::Saved);
    assert!(matches!(state, Ledger::Finished(Err(LedgerError::Fetch))));
    let state = ledger_step(Ledger::Finished(Ok(found())), LedgerEvent::Failed);
    assert!(matches!(state, Ledger::Finished(Ok(turn)) if turn.message == "old"));
}
