use onebrowser::completion::{
    chat, chat_reply, completion_call, relay, replay, summary, ChatReply, Push, Relay, Upstream,
};
use onebrowser::ledger::{Chat, Ledger, LedgerError};
use onebrowser::requests::{ChatRequest, SummaryRequest};
use onebrowser::user::UserId;

const SYSTEM_FOR_HELLO: &str = "Summarize the key points of the following text concisely.
The summary should be in the same language as the original text.
Use plain text without any special characters or formatting.
Avoid repeating the text verbatim.
Instead, synthesize the key ideas into a brief, coherent summary.
Also, ignore any links or descriptions of images in the text.
Content to summarize:

hello
";

fn texts(pushes: &[Push]) -> Vec<String> {
    pushes
        .iter()
        .map(|push| match push {
            Push::Nothing => "nothing".to_string(),
            Push::Event(text) => format!("event:{}", text),
            Push::Last(text) => format!("last:{}", text),
            Push::Error => "error".to_string(),
            Push::Close => "close".to_string(),
            Push::Release => "release".to_string(),
        })
        .collect()
}

#[test]
fn summary_call_has_the_fixed_model_and_two_messages() {
    let call = summary(&SummaryRequest { content: "hello".to_string() });
    assert_eq!(call.model, "gpt-4-turbo");
    assert_eq!(call.system, SYSTEM_FOR_HELLO);
    assert_eq!(call.human, "hello");
}

#[test]
fn completion_call_keeps_the_content_verbatim() {
    let call = completion_call("two\n  lines {x}");
    assert!(call.system.ends_with("Content to summarize:\n\ntwo\n  lines {x}\n"));
    assert_eq!(call.human, "two\n  lines {x}");
    let empty = completion_call("");
    assert!(empty.system.ends_with("Content to summarize:\n\n\n"));
    assert_eq!(empty.human, "");
}

#[test]
fn two_chunks_then_close_give_two_events_in_order() {
    let events = vec![
        Upstream::Opened,
        Upstream::Chunk("Hel".to_string()),
        Upstream::Chunk("lo".to_string()),
        Upstream::Ended,
    ];
    let (state, pushes) = replay(Relay::Opening, events);
    assert_eq!(state, Relay::Closed);
    assert_eq!(texts(&pushes), vec!["event:Hel", "event:lo", "close"]);
}

#[test]
fn each_chunk_is_pushed_at_once() {
    let (state, push) = relay(Relay::Opening, Upstream::Opened);
    assert_eq!(state, Relay::Streaming);
    assert!(matches!(push, Push::Nothing));
    let (state, push) = relay(state, Upstream::Chunk("Hel".to_string()));
    assert_eq!(state, Relay::Streaming);
    assert!(matches!(push, Push::Event(text) if text == "Hel"));
    let (state, push) = relay(state, Upstream::Chunk("".to_string()));
    assert_eq!(state, Relay::Streaming);
    assert!(matches!(push, Push::Event(text) if text.is_empty()));
    let (state, push) = relay(state, Upstream::Ended);
    assert_eq!(state, Relay::Closed);
    assert!(matches!(push, Push::Close));
}

#[test]
fn open_failure_gives_one_last_event() {
    let (state, pushes) = replay(
        Relay::Opening,
        vec![Upstream::OpenFailed, Upstream::Chunk("late".to_string()), Upstream::Ended],
    );
    assert_eq!(state, Relay::Closed);
    assert_eq!(texts(&pushes), vec!["last:The completion service is unavailable."]);
}

#[test]
fn chunk_error_is_passed_on_and_ends_the_stream() {
    let (state, pushes) = replay(
        Relay::Opening,
        vec![
            Upstream::Opened,
            Upstream::Chunk("a".to_string()),
            Upstream::ChunkFailed,
            Upstream::Chunk("b".to_string()),
            Upstream::Ended,
        ],
    );
    assert_eq!(state, Relay::Closed);
    assert_eq!(texts(&pushes), vec!["event:a", "error"]);
}

#[test]
fn upstream_failure_after_opening_is_a_stream_error() {
    let (state, push) = relay(Relay::Streaming, Upstream::OpenFailed);
    assert_eq!(state, Relay::Closed);
    assert!(matches!(push, Push::Error));
}

#[test]
fn client_gone_releases_the_upstream_and_discards_the_rest() {
    let (state, pushes) = replay(
        Relay::Opening,
        vec![
            Upstream::Opened,
            Upstream::Chunk("a".to_string()),
            Upstream::ClientGone,
            Upstream::Chunk("b".to_string()),
            Upstream::ChunkFailed,
            Upstream::Ended,
            Upstream::ClientGone,
        ],
    );
    assert_eq!(state, Relay::Closed);
    assert_eq!(texts(&pushes), vec!["event:a", "release"]);
    let (state, pushes) = replay(Relay::Opening, vec![Upstream::ClientGone]);
    assert_eq!(state, Relay::Closed);
    assert_eq!(texts(&pushes), vec!["release"]);
}

#[test]
fn closed_relay_pushes_nothing() {
    for event in [
        Upstream::Opened,
        Upstream::OpenFailed,
        Upstream::Chunk("x".to_string()),
        Upstream::ChunkFailed,
        Upstream::Ended,
        Upstream::ClientGone,
    ] {
        let (state, push) = relay(Relay::Closed, event);
        assert_eq!(state, Relay::Closed);
        assert!(matches!(push, Push::Nothing));
    }
}

#[test]
fn replay_of_nothing_pushes_nothing() {
    let (state, pushes) = replay(Relay::Opening, vec![]);
    assert_eq!(state, Relay::Opening);
    assert!(pushes.is_empty());
    let (state, pushes) = replay(Relay::Streaming, vec![Upstream::Opened]);
    assert_eq!(state, Relay::Streaming);
    assert!(pushes.is_empty());
}

#[test]
fn two_streams_receive_their_own_chunks() {
    let (_, first) = replay(
        Relay::Opening,
        vec![Upstream::Opened, Upstream::Chunk("a1".to_string()), Upstream::Chunk("a2".to_string())],
    );
    let (_, second) = replay(
        Relay::Opening,
        vec![Upstream::Opened, Upstream::Chunk("b1".to_string()), Upstream::Ended],
    );
    // The same events, taken in turns.
    let mut one = Relay::Opening;
    let mut two = Relay::Opening;
    let mut first_turns = Vec::new();
    let mut second_turns = Vec::new();
    let arrivals = vec![
        (true, Upstream::Opened),
        (false, Upstream::Opened),
        (false, Upstream::Chunk("b1".to_string())),
        (true, Upstream::Chunk("a1".to_string())),
        (false, Upstream::Ended),
        (true, Upstream::Chunk("a2".to_string())),
    ];
    for (to_first, event) in arrivals {
        if to_first {
            let (next, push) = relay(one, event);
            one = next;
            if !matches!(push, Push::Nothing) {
                first_turns.push(push);
            }
        } else {
            let (next, push) = relay(two, event);
            two = next;
            if !matches!(push, Push::Nothing) {
                second_turns.push(push);
            }
        }
    }
    assert_eq!(texts(&first_turns), texts(&first));
    assert_eq!(texts(&second_turns), texts(&second));
    assert_eq!(texts(&first), vec!["event:a1", "event:a2"]);
    assert_eq!(texts(&second), vec!["event:b1", "close"]);
}

fn request(user_id: &str) -> ChatRequest {
    ChatRequest {
        user_id: user_id.to_string(),
        article_url: "https://example.com/a".to_string(),
        message: "what is this about?".to_string(),
    }
}

#[test]
fn chat_starts_the_ledger_for_the_named_principal() {
    let start = chat(&request("550e8400-e29b-41d4-a716-446655440000"));
    match start {
        Ok(Ledger::Loading { user_id, article_url, message }) => {
            assert_eq!(user_id, UserId::new(0x550e8400_e29b_41d4_a716_446655440000));
            assert_eq!(article_url, "https://example.com/a");
            assert_eq!(message, "what is this about?");
        }
        other => panic!("expected the ledger to start, got {:?}", other),
    }
}

#[test]
fn chat_with_malformed_user_id_is_turned_down() {
    assert!(chat(&request("not-a-uuid")).is_err());
    assert!(chat(&request("")).is_err());
}

#[test]
fn chat_reply_streams_the_completion_of_the_stored_message() {
    let turn = Chat {
        user_id: UserId::new(1),
        article_url: "https://example.com/a".to_string(),
        article_content: "the article".to_string(),
        message: "hello".to_string(),
        created_at: 0,
    };
    match chat_reply(&Ok(turn)) {
        ChatReply::Stream(call) => {
            assert_eq!(call.model, "gpt-4-turbo");
            assert_eq!(call.system, SYSTEM_FOR_HELLO);
            assert_eq!(call.human, "hello");
        }
        other => panic!("expected a stream, got {:?}", other),
    }
}

#[test]
fn chat_reply_on_ledger_failure_is_one_terminal_event() {
    for error in [LedgerError::Fetch, LedgerError::Storage] {
        match chat_reply(&Err(error)) {
            ChatReply::Terminal(text) => assert_eq!(text, "Failed to get or create chat history."),
            other => panic!("expected a terminal event, got {:?}", other),
        }
    }
}
