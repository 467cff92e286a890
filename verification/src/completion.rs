//! The completion proxy: what is asked of the language model, and how its
//! answer is relayed to the client as push events.
//!
//! The upstream call and the connection to the client are the caller's. The
//! library fixes the call (model and messages) and decides, chunk by chunk,
//! what is pushed and when the stream ends.

use vstd::prelude::*;
use crate::ledger::{
    ledger_begin, turn_view, Chat, ChatView, Ledger, LedgerError, LedgerView,
};
use crate::requests::{ChatRequest, SummaryRequest};
use crate::user::UserId;

verus! {

/// One streaming completion call: the model and the two messages of the
/// conversation.
#[derive(Clone, Debug)]
pub struct CompletionCall {
    pub model: String,
    pub system: String,
    pub human: String,
}

/// The mathematical content of a `CompletionCall`.
pub struct CompletionCallView {
    pub model: Seq<char>,
    pub system: Seq<char>,
    pub human: Seq<char>,
}

impl View for CompletionCall {
    type V = CompletionCallView;

    open spec fn view(&self) -> CompletionCallView {
        CompletionCallView { model: self.model@, system: self.system@, human: self.human@ }
    }
}

/// The instruction that precedes the content in the system message.
pub open spec fn summary_preamble() -> Seq<char> {
    "Summarize the key points of the following text concisely.\nThe summary should be in the same language as the original text.\nUse plain text without any special characters or formatting.\nAvoid repeating the text verbatim.\nInstead, synthesize the key ideas into a brief, coherent summary.\nAlso, ignore any links or descriptions of images in the text.\nContent to summarize:\n\n"@
}

/// The completion call for a content: the fixed model, the instruction with
/// the content as the system message, and the content as the human message.
pub open spec fn completion_for(content: Seq<char>) -> CompletionCallView {
    CompletionCallView {
        model: "gpt-4-turbo"@,
        system: summary_preamble() + content + "\n"@,
        human: content,
    }
}

/// Builds the completion call for a content.
pub fn completion_call(content: &str) -> (call: CompletionCall)
    ensures
        call@ == completion_for(content@),
{
    let mut system = String::from_str(
        "Summarize the key points of the following text concisely.\nThe summary should be in the same language as the original text.\nUse plain text without any special characters or formatting.\nAvoid repeating the text verbatim.\nInstead, synthesize the key ideas into a brief, coherent summary.\nAlso, ignore any links or descriptions of images in the text.\nContent to summarize:\n\n",
    );
    system.append(content);
    system.append("\n");
    CompletionCall {
        model: String::from_str("gpt-4-turbo"),
        system,
        human: String::from_str(content),
    }
}

/// The completion call that answers a summary request.
pub fn summary(request: &SummaryRequest) -> (call: CompletionCall)
    ensures
        call@ == completion_for(request.content@),
{
    completion_call(request.content.as_str())
}

/// A chat request whose `user_id` spells no identifier.
#[derive(Clone, Copy, Debug, PartialEq, Eq, Structural)]
pub struct MalformedRequest;

/// Takes up a chat request: the ledger is to obtain or create the turn of the
/// principal that the request names. A request that names no principal is
/// turned down before anything is asked of storage.
pub fn chat(request: &ChatRequest) -> (start: Result<Ledger, MalformedRequest>)
    ensures
        match UserId::parsed(request.user_id@) {
            Some(user_id) => start matches Ok(state) && state@ == (LedgerView::Loading {
                user_id,
                article_url: request.article_url@,
                message: request.message@,
            }),
            None => start is Err,
        },
{
    match request.principal() {
        Some(user_id) => Ok(
            ledger_begin(user_id, request.article_url.as_str(), request.message.as_str()),
        ),
        None => Err(MalformedRequest),
    }
}

/// How a chat request is answered once the ledger is done.
#[derive(Debug)]
pub enum ChatReply {
    /// Open this completion call and relay it.
    Stream(CompletionCall),
    /// Push one event with this text and end the stream.
    Terminal(String),
}

/// The mathematical content of a `ChatReply`.
pub enum ChatReplyView {
    Stream(CompletionCallView),
    Terminal(Seq<char>),
}

impl View for ChatReply {
    type V = ChatReplyView;

    open spec fn view(&self) -> ChatReplyView {
        match *self {
            ChatReply::Stream(call) => ChatReplyView::Stream(call@),
            ChatReply::Terminal(text) => ChatReplyView::Terminal(text@),
        }
    }
}

/// The answer to a chat request: with a turn, the completion of its message;
/// without one, a single event that says so, and no completion call.
pub open spec fn chat_reply_of(outcome: Result<ChatView, LedgerError>) -> ChatReplyView {
    match outcome {
        Ok(turn) => ChatReplyView::Stream(completion_for(turn.message)),
        Err(_) => ChatReplyView::Terminal("Failed to get or create chat history."@),
    }
}

/// Answers a chat request, given how the ledger ended.
pub fn chat_reply(outcome: &Result<Chat, LedgerError>) -> (reply: ChatReply)
    ensures
        reply@ == chat_reply_of(turn_view(*outcome)),
{
    match outcome {
        Ok(turn) => ChatReply::Stream(completion_call(turn.message.as_str())),
        Err(_) => ChatReply::Terminal(String::from_str("Failed to get or create chat history.")),
    }
}

/// Where a relay stands.
#[derive(Clone, Copy, Debug, PartialEq, Eq, Structural)]
pub enum Relay {
    /// The upstream call has been made; nothing has come back yet.
    Opening,
    /// Chunks are being forwarded.
    Streaming,
    /// The stream to the client has ended.
    Closed,
}

/// What the upstream, or the client, did.
#[derive(Debug)]
pub enum Upstream {
    /// The completion stream is open.
    Opened,
    /// The completion stream could not be opened.
    OpenFailed,
    /// The next chunk of text.
    Chunk(String),
    /// A chunk arrived as an error.
    ChunkFailed,
    /// The upstream closed the stream.
    Ended,
    /// The client disconnected.
    ClientGone,
}

/// The mathematical content of an `Upstream`.
pub enum UpstreamView {
    Opened,
    OpenFailed,
    Chunk(Seq<char>),
    ChunkFailed,
    Ended,
    ClientGone,
}

impl View for Upstream {
    type V = UpstreamView;

    open spec fn view(&self) -> UpstreamView {
        match *self {
            Upstream::Opened => UpstreamView::Opened,
            Upstream::OpenFailed => UpstreamView::OpenFailed,
            Upstream::Chunk(text) => UpstreamView::Chunk(text@),
            Upstream::ChunkFailed => UpstreamView::ChunkFailed,
            Upstream::Ended => UpstreamView::Ended,
            Upstream::ClientGone => UpstreamView::ClientGone,
        }
    }
}

/// What the relay does towards the client.
#[derive(Debug)]
pub enum Push {
    /// Nothing.
    Nothing,
    /// Push one event with this text; the stream stays open.
    Event(String),
    /// Push one last event with this text and end the stream cleanly.
    Last(String),
    /// Pass a stream error on, so that the transport closes the connection.
    Error,
    /// End the stream cleanly.
    Close,
    /// Stop forwarding and release the upstream stream.
    Release,
}

/// The mathematical content of a `Push`.
pub enum PushView {
    Nothing,
    Event(Seq<char>),
    Last(Seq<char>),
    Error,
    Close,
    Release,
}

impl View for Push {
    type V = PushView;

    open spec fn view(&self) -> PushView {
        match *self {
            Push::Nothing => PushView::Nothing,
            Push::Event(text) => PushView::Event(text@),
            Push::Last(text) => PushView::Last(text@),
            Push::Error => PushView::Error,
            Push::Close => PushView::Close,
            Push::Release => PushView::Release,
        }
    }
}

/// What the client is told when the completion stream cannot be opened.
pub open spec fn unavailable_text() -> Seq<char> {
    "The completion service is unavailable."@
}

/// What a relay in `state` does on `event`, and where it stands afterwards.
///
/// Every chunk is pushed at once as one event with the chunk's text. A stream
/// that cannot be opened is answered with one last event and a clean end. A
/// chunk that arrives as an error, or any upstream failure after the first
/// chunk, is passed on as a stream error. When the client is gone the
/// upstream stream is released. A closed relay discards whatever still
/// arrives; nothing is retried.
pub open spec fn relay_next(state: Relay, event: UpstreamView) -> (Relay, PushView) {
    match state {
        Relay::Closed => (Relay::Closed, PushView::Nothing),
        _ => match event {
            UpstreamView::Opened => (Relay::Streaming, PushView::Nothing),
            UpstreamView::OpenFailed => if state == Relay::Opening {
                (Relay::Closed, PushView::Last(unavailable_text()))
            } else {
                (Relay::Closed, PushView::Error)
            },
            UpstreamView::Chunk(text) => (Relay::Streaming, PushView::Event(text)),
            UpstreamView::ChunkFailed => (Relay::Closed, PushView::Error),
            UpstreamView::Ended => (Relay::Closed, PushView::Close),
            UpstreamView::ClientGone => (Relay::Closed, PushView::Release),
        },
    }
}

/// Relays one event.
pub fn relay(state: Relay, event: Upstream) -> (step: (Relay, Push))
    ensures
        (step.0, step.1@) == relay_next(state, event@),
{
    match state {
        Relay::Closed => (Relay::Closed, Push::Nothing),
        _ => match event {
            Upstream::Opened => (Relay::Streaming, Push::Nothing),
            Upstream::OpenFailed => {
                if state == Relay::Opening {
                    (
                        Relay::Closed,
                        Push::Last(String::from_str("The completion service is unavailable.")),
                    )
                } else {
                    (Relay::Closed, Push::Error)
                }
            },
            Upstream::Chunk(text) => (Relay::Streaming, Push::Event(text)),
            Upstream::ChunkFailed => (Relay::Closed, Push::Error),
            Upstream::Ended => (Relay::Closed, Push::Close),
            Upstream::ClientGone => (Relay::Closed, Push::Release),
        },
    }
}

/// What a relay pushes over a sequence of events, in order, and where it
/// stands at the end. Steps that push nothing leave no trace.
pub open spec fn relay_run(state: Relay, events: Seq<UpstreamView>) -> (Relay, Seq<PushView>)
    decreases events.len(),
{
    if events.len() == 0 {
        (state, Seq::empty())
    } else {
        let (next, push) = relay_next(state, events[0]);
        let (last, rest) = relay_run(next, events.drop_first());
        if push is Nothing {
            (last, rest)
        } else {
            (last, seq![push] + rest)
        }
    }
}

/// The content of a sequence of events.
pub open spec fn events_view(events: Seq<Upstream>) -> Seq<UpstreamView> {
    Seq::new(events.len(), |i: int| events[i]@)
}

/// The content of a sequence of pushes.
pub open spec fn pushes_view(pushes: Seq<Push>) -> Seq<PushView> {
    Seq::new(pushes.len(), |i: int| pushes[i]@)
}

/// Relays a recorded sequence of events from `state` on and collects what is
/// pushed.
pub fn replay(state: Relay, events: Vec<Upstream>) -> (out: (Relay, Vec<Push>))
    ensures
        (out.0, pushes_view(out.1@)) == relay_run(state, events_view(events@)),
{
    let ghost all = events_view(events@);
    let mut events = events;
    let mut pushes: Vec<Push> = Vec::new();
    let mut current = state;
    let mut reversed: Vec<Upstream> = Vec::new();
    while events.len() > 0
        invariant
            events@.len() + reversed@.len() == all.len(),
            forall|i: int| 0 <= i < events@.len() ==> (#[trigger] events@[i])@ == all[i],
            forall|i: int|
                0 <= i < reversed@.len() ==> (#[trigger] reversed@[i])@ == all[all.len() - 1 - i],
        decreases events@.len(),
    {
        let event = events.pop().unwrap();
        reversed.push(event);
    }
    let ghost done: int = 0;
    proof {
        assert(all.skip(0) =~= all);
        let (last, rest) = relay_run(state, all);
        assert(pushes_view(pushes@) + rest =~= rest);
    }
    while reversed.len() > 0
        invariant
            0 <= done <= all.len(),
            reversed@.len() == all.len() - done,
            forall|i: int|
                0 <= i < reversed@.len() ==> (#[trigger] reversed@[i])@ == all[all.len() - 1 - i],
            relay_run(state, all) == ({
                let (last, rest) = relay_run(current, all.skip(done));
                (last, pushes_view(pushes@) + rest)
            }),
        decreases reversed@.len(),
    {
        let event = reversed.pop().unwrap();
        let ghost before = pushes_view(pushes@);
        proof {
            let remaining = all.skip(done);
            assert(remaining[0] == all[done]);
            assert(remaining.drop_first() =~= all.skip(done + 1));
            assert(event@ == all[done]);
        }
        let (next, push) = relay(current, event);
        match push {
            Push::Nothing => {},
            other => {
                pushes.push(other);
                proof {
                    assert(pushes_view(pushes@) =~= before + seq![other@]);
                    let (last, rest) = relay_run(next, all.skip(done + 1));
                    assert(before + (seq![other@] + rest) =~= (before + seq![other@]) + rest);
                }
            },
        }
        current = next;
        proof {
            done = done + 1;
        }
    }
    proof {
        assert(all.skip(all.len() as int) =~= Seq::<UpstreamView>::empty());
        assert(pushes_view(pushes@) + Seq::<PushView>::empty() =~= pushes_view(pushes@));
    }
    (current, pushes)
}

/// The events of a run of chunks.
pub open spec fn chunk_events(chunks: Seq<Seq<char>>) -> Seq<UpstreamView> {
    Seq::new(chunks.len(), |i: int| UpstreamView::Chunk(chunks[i]))
}

/// The pushes that forward a run of chunks.
pub open spec fn chunk_pushes(chunks: Seq<Seq<char>>) -> Seq<PushView> {
    Seq::new(chunks.len(), |i: int| PushView::Event(chunks[i]))
}

/// A closed relay pushes nothing and stays closed, whatever still arrives.
pub proof fn lemma_closed_relay_is_silent(events: Seq<UpstreamView>)
    ensures
        relay_run(Relay::Closed, events) == (Relay::Closed, Seq::<PushView>::empty()),
    decreases events.len(),
{
    if events.len() > 0 {
        lemma_closed_relay_is_silent(events.drop_first());
    }
}

/// An open relay forwards a run of chunks one event per chunk, in order, and
/// what ends the run ends the stream: whatever arrives later is discarded.
pub proof fn lemma_chunks_then_end(
    state: Relay,
    chunks: Seq<Seq<char>>,
    ending: UpstreamView,
    later: Seq<UpstreamView>,
)
    requires
        state != Relay::Closed,
        ending is Ended || ending is ChunkFailed || ending is ClientGone,
    ensures
        relay_run(state, chunk_events(chunks) + seq![ending] + later) == (
            Relay::Closed,
            chunk_pushes(chunks) + seq![relay_next(Relay::Streaming, ending).1],
        ),
    decreases chunks.len(),
{
    let events = chunk_events(chunks) + seq![ending] + later;
    if chunks.len() == 0 {
        assert(events[0] == ending);
        assert(events.drop_first() =~= later);
        lemma_closed_relay_is_silent(later);
        assert(chunk_pushes(chunks) + seq![relay_next(Relay::Streaming, ending).1] =~= seq![
            relay_next(state, ending).1,
        ] + Seq::<PushView>::empty());
    } else {
        let rest = chunks.drop_first();
        assert(events[0] == UpstreamView::Chunk(chunks[0]));
        assert(events.drop_first() =~= chunk_events(rest) + seq![ending] + later);
        lemma_chunks_then_end(Relay::Streaming, rest, ending, later);
        assert(seq![PushView::Event(chunks[0])] + (chunk_pushes(rest) + seq![
            relay_next(Relay::Streaming, ending).1,
        ]) =~= chunk_pushes(chunks) + seq![relay_next(Relay::Streaming, ending).1]);
    }
}

/// An upstream that opens, emits chunks and closes produces exactly one push
/// event per chunk, with the chunks' texts in order, and then the end of the
/// stream.
pub proof fn lemma_chunks_forwarded_in_order(chunks: Seq<Seq<char>>)
    ensures
        relay_run(
            Relay::Opening,
            seq![UpstreamView::Opened] + chunk_events(chunks) + seq![UpstreamView::Ended],
        ) == (Relay::Closed, chunk_pushes(chunks) + seq![PushView::Close]),
{
    let events = seq![UpstreamView::Opened] + chunk_events(chunks) + seq![UpstreamView::Ended];
    assert(events[0] == UpstreamView::Opened);
    assert(events.drop_first() =~= chunk_events(chunks) + seq![UpstreamView::Ended]
        + Seq::<UpstreamView>::empty());
    lemma_chunks_then_end(
        Relay::Streaming,
        chunks,
        UpstreamView::Ended,
        Seq::<UpstreamView>::empty(),
    );
}

/// A stream that cannot be opened is answered with exactly one last event,
/// and nothing after it.
pub proof fn lemma_open_failure_is_answered_once(later: Seq<UpstreamView>)
    ensures
        relay_run(Relay::Opening, seq![UpstreamView::OpenFailed] + later) == (
            Relay::Closed,
            seq![PushView::Last(unavailable_text())],
        ),
{
    let events = seq![UpstreamView::OpenFailed] + later;
    assert(events[0] == UpstreamView::OpenFailed);
    assert(events.drop_first() =~= later);
    lemma_closed_relay_is_silent(later);
    assert(seq![PushView::Last(unavailable_text())] + Seq::<PushView>::empty() =~= seq![
        PushView::Last(unavailable_text()),
    ]);
}

/// The events of one of two streams, picked out of the order in which the
/// events of both arrived. An event is marked with `true` where it belongs to
/// the first stream.
pub open spec fn own_events(arrivals: Seq<(bool, UpstreamView)>, first: bool) -> Seq<UpstreamView>
    decreases arrivals.len(),
{
    if arrivals.len() == 0 {
        Seq::empty()
    } else if arrivals[0].0 == first {
        seq![arrivals[0].1] + own_events(arrivals.drop_first(), first)
    } else {
        own_events(arrivals.drop_first(), first)
    }
}

/// A push put before the pushes that follow it, unless it is none.
pub open spec fn pushed_before(push: PushView, rest: Seq<PushView>) -> Seq<PushView> {
    if push is Nothing {
        rest
    } else {
        seq![push] + rest
    }
}

/// What two clients receive when two relays run side by side and each event
/// is handed to the relay of its own stream, in the order of arrival.
pub open spec fn side_by_side(first: Relay, second: Relay, arrivals: Seq<(bool, UpstreamView)>) -> (
    Seq<PushView>,
    Seq<PushView>,
)
    decreases arrivals.len(),
{
    if arrivals.len() == 0 {
        (Seq::empty(), Seq::empty())
    } else if arrivals[0].0 {
        let (next, push) = relay_next(first, arrivals[0].1);
        let (mine, other) = side_by_side(next, second, arrivals.drop_first());
        (pushed_before(push, mine), other)
    } else {
        let (next, push) = relay_next(second, arrivals[0].1);
        let (other, mine) = side_by_side(first, next, arrivals.drop_first());
        (other, pushed_before(push, mine))
    }
}

/// Two streams side by side never mix: in whatever order their events
/// arrive, each client receives what the relay of its own upstream pushes,
/// and nothing of the other's.
pub proof fn lemma_streams_do_not_mix(
    first: Relay,
    second: Relay,
    arrivals: Seq<(bool, UpstreamView)>,
)
    ensures
        side_by_side(first, second, arrivals) == (
            relay_run(first, own_events(arrivals, true)).1,
            relay_run(second, own_events(arrivals, false)).1,
        ),
    decreases arrivals.len(),
{
    if arrivals.len() > 0 {
        let rest = arrivals.drop_first();
        if arrivals[0].0 {
            let (next, push) = relay_next(first, arrivals[0].1);
            lemma_streams_do_not_mix(next, second, rest);
            let own = own_events(arrivals, true);
            assert(own[0] == arrivals[0].1);
            assert(own.drop_first() =~= own_events(rest, true));
        } else {
            let (next, push) = relay_next(second, arrivals[0].1);
            lemma_streams_do_not_mix(first, next, rest);
            let own = own_events(arrivals, false);
            assert(own[0] == arrivals[0].1);
            assert(own.drop_first() =~= own_events(rest, false));
        }
    }
}

} // verus!
