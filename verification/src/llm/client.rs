//! The decisions of the completion client: what is sent for a message, and
//! which events the answers of the remote service are turned into.

use crate::error::ChatError;
use crate::llm::message::stream_views;
use crate::llm::message::ContentView;
use crate::llm::message::Message;
use crate::llm::message::MessageContent;
use crate::llm::message::MessageView;
use crate::llm::message::Role;
use crate::llm::message::StreamMessage;
use crate::llm::message::StreamMessageView;
use crate::time::current_time;
use crate::time::Timestamp;
use vstd::prelude::*;
use vstd::string::StringExecFns;

verus! {

/// The text to submit for `message`. Only plain text can be sent: any other
/// content is refused with `UnsupportedContent`.
pub fn prompt_text(message: &Message) -> (r: Result<String, ChatError>)
    ensures
        message@.content is Text ==> r is Ok && ContentView::Text(r->Ok_0@) == message@.content,
        !(message@.content is Text) ==> r == Err::<String, ChatError>(
            ChatError::UnsupportedContent,
        ),
{
    match &message.content {
        MessageContent::Text(text) => Ok(text.clone()),
        _ => Err(ChatError::UnsupportedContent),
    }
}

/// The text to submit for a conversation: that of its first message.
pub fn first_prompt_text(messages: &Vec<Message>) -> (r: Result<String, ChatError>)
    requires
        messages@.len() > 0,
    ensures
        messages@[0]@.content is Text ==> r is Ok && ContentView::Text(r->Ok_0@)
            == messages@[0]@.content,
        !(messages@[0]@.content is Text) ==> r == Err::<String, ChatError>(
            ChatError::UnsupportedContent,
        ),
{
    prompt_text(&messages[0])
}

/// One choice of an answer that arrives while a completion is streamed.
#[derive(Clone, Debug, PartialEq, Eq)]
pub struct ChoiceDelta {
    /// The next fragment of the reply, if the choice brings one.
    pub content: Option<String>,
    /// The choice gives a reason for finishing: the reply is complete.
    pub finished: bool,
}

/// What the transport hands over while a completion is streamed.
#[derive(Clone, Debug, PartialEq, Eq)]
pub enum TransportEvent {
    /// An answer with its choices.
    Response(Vec<ChoiceDelta>),
    /// The exchange broke down, for the reason given.
    Failure(String),
    /// The stream ended.
    Closed,
}

/// The fragment that a choice brings; empty where it brings none.
pub open spec fn delta_text(choice: ChoiceDelta) -> Seq<char> {
    match choice.content {
        Some(text) => text@,
        None => Seq::empty(),
    }
}

/// The finished reply with the text `text`, stamped `now`.
pub open spec fn assistant_message(text: Seq<char>, now: Timestamp) -> MessageView {
    MessageView { role: Role::Assistant, content: ContentView::Text(text), timestamp: now }
}

/// The reason reported where the stream ends before the reply is complete.
pub open spec fn closed_early_text() -> Seq<char> {
    "Stream ended before the reply was complete"@
}

/// The events that the choices of one answer give rise to, when `content` was
/// gathered before: every fragment that is not empty becomes a `Chunk`, and
/// the first choice that finishes ends the reply with `Done`, which carries
/// everything gathered up to and including that choice. Choices behind it are
/// not looked at.
pub open spec fn reply_events(content: Seq<char>, choices: Seq<ChoiceDelta>, now: Timestamp) -> Seq<
    StreamMessageView,
>
    decreases choices.len(),
{
    if choices.len() == 0 {
        Seq::empty()
    } else {
        let text = delta_text(choices[0]);
        let chunk = if text.len() > 0 {
            seq![StreamMessageView::Chunk(text)]
        } else {
            Seq::empty()
        };
        if choices[0].finished {
            chunk.push(StreamMessageView::Done(assistant_message(content + text, now)))
        } else {
            chunk + reply_events(content + text, choices.drop_first(), now)
        }
    }
}

/// The text gathered after the choices of one answer, when `content` was
/// gathered before.
pub open spec fn reply_content(content: Seq<char>, choices: Seq<ChoiceDelta>) -> Seq<char>
    decreases choices.len(),
{
    if choices.len() == 0 {
        content
    } else if choices[0].finished {
        content + delta_text(choices[0])
    } else {
        reply_content(content + delta_text(choices[0]), choices.drop_first())
    }
}

/// One of the choices finishes the reply.
pub open spec fn reply_finished(choices: Seq<ChoiceDelta>) -> bool {
    exists|i: int| 0 <= i < choices.len() && (#[trigger] choices[i]).finished
}

/// The state of one streamed reply, as mathematical values.
pub struct ReplyView {
    /// The text gathered so far.
    pub content: Seq<char>,
    /// A terminal event was emitted: nothing more will be.
    pub finished: bool,
}

impl ReplyView {
    /// The state in which a request starts.
    pub open spec fn start() -> ReplyView {
        ReplyView { content: Seq::empty(), finished: false }
    }

    /// The events emitted when `event` arrives at `now`.
    pub open spec fn events(self, event: TransportEvent, now: Timestamp) -> Seq<StreamMessageView> {
        if self.finished {
            Seq::empty()
        } else {
            match event {
                TransportEvent::Response(choices) => reply_events(self.content, choices@, now),
                TransportEvent::Failure(reason) => seq![StreamMessageView::Error(reason@)],
                TransportEvent::Closed => seq![StreamMessageView::Error(closed_early_text())],
            }
        }
    }

    /// The state after `event` arrived.
    pub open spec fn after(self, event: TransportEvent) -> ReplyView {
        if self.finished {
            self
        } else {
            match event {
                TransportEvent::Response(choices) => ReplyView {
                    content: reply_content(self.content, choices@),
                    finished: reply_finished(choices@),
                },
                TransportEvent::Failure(_) => ReplyView { finished: true, ..self },
                TransportEvent::Closed => ReplyView { finished: true, ..self },
            }
        }
    }

    /// The state after each of `arrivals` arrived in turn.
    pub open spec fn after_all(self, arrivals: Seq<(TransportEvent, Timestamp)>) -> ReplyView
        decreases arrivals.len(),
    {
        if arrivals.len() == 0 {
            self
        } else {
            self.after_all(arrivals.drop_last()).after(arrivals.last().0)
        }
    }

    /// Everything emitted while each of `arrivals` arrived in turn, an
    /// arrival giving the event and the time.
    pub open spec fn trace(self, arrivals: Seq<(TransportEvent, Timestamp)>) -> Seq<
        StreamMessageView,
    >
        decreases arrivals.len(),
    {
        if arrivals.len() == 0 {
            Seq::empty()
        } else {
            self.trace(arrivals.drop_last()) + self.after_all(arrivals.drop_last()).events(
                arrivals.last().0,
                arrivals.last().1,
            )
        }
    }
}

/// The fragments of the `Chunk` events of `events`, joined in their order.
pub open spec fn chunk_text(events: Seq<StreamMessageView>) -> Seq<char>
    decreases events.len(),
{
    if events.len() == 0 {
        Seq::empty()
    } else {
        chunk_text(events.drop_last()) + match events.last() {
            StreamMessageView::Chunk(text) => text,
            _ => Seq::empty(),
        }
    }
}

/// The fragments of two runs of events joined are the fragments of the first
/// followed by those of the second.
pub proof fn lemma_chunk_text_concat(a: Seq<StreamMessageView>, b: Seq<StreamMessageView>)
    ensures
        chunk_text(a + b) == chunk_text(a) + chunk_text(b),
    decreases b.len(),
{
    if b.len() == 0 {
        assert(a + b =~= a);
        assert(chunk_text(a) + chunk_text(b) =~= chunk_text(a));
    } else {
        lemma_chunk_text_concat(a, b.drop_last());
        assert((a + b).drop_last() =~= a + b.drop_last());
        assert((a + b).last() == b.last());
        let tail = match b.last() {
            StreamMessageView::Chunk(text) => text,
            _ => Seq::empty(),
        };
        assert(chunk_text(a + b) == chunk_text(a + b.drop_last()) + tail);
        assert((chunk_text(a) + chunk_text(b.drop_last())) + tail =~= chunk_text(a) + (chunk_text(
            b.drop_last(),
        ) + tail));
    }
}

/// The events of one answer: only the last of them can be terminal, and it is
/// exactly where a choice finishes; it is then `Done` with everything
/// gathered. No fragment is empty, and the fragments, joined behind what was
/// gathered before, are what is gathered afterwards.
pub proof fn lemma_reply_events_shape(content: Seq<char>, choices: Seq<ChoiceDelta>, now: Timestamp)
    ensures
        forall|i: int|
            0 <= i < reply_events(content, choices, now).len() && (#[trigger] reply_events(
                content,
                choices,
                now,
            )[i]).is_terminal() ==> i == reply_events(content, choices, now).len() - 1,
        forall|i: int|
            0 <= i < reply_events(content, choices, now).len() ==> match #[trigger] reply_events(
                content,
                choices,
                now,
            )[i] {
                StreamMessageView::Chunk(text) => text.len() > 0,
                StreamMessageView::Done(_) => true,
                StreamMessageView::Error(_) => false,
            },
        reply_finished(choices) <==> reply_events(content, choices, now).len() > 0
            && reply_events(content, choices, now).last().is_terminal(),
        reply_finished(choices) ==> reply_events(content, choices, now).last()
            == StreamMessageView::Done(assistant_message(reply_content(content, choices), now)),
        content + chunk_text(reply_events(content, choices, now)) == reply_content(
            content,
            choices,
        ),
    decreases choices.len(),
{
    let events = reply_events(content, choices, now);
    if choices.len() == 0 {
        assert(content + chunk_text(events) =~= content);
    } else {
        let text = delta_text(choices[0]);
        let chunk = if text.len() > 0 {
            seq![StreamMessageView::Chunk(text)]
        } else {
            Seq::empty()
        };
        assert(chunk_text(chunk) =~= text) by {
            if text.len() > 0 {
                assert(chunk.drop_last() =~= Seq::<StreamMessageView>::empty());
                assert(chunk_text(chunk.drop_last()) =~= Seq::<char>::empty());
                assert(chunk.last() == StreamMessageView::Chunk(text));
                assert(Seq::<char>::empty() + text =~= text);
            }
        }
        if choices[0].finished {
            let done = StreamMessageView::Done(assistant_message(content + text, now));
            assert(events == chunk.push(done));
            assert(events.drop_last() =~= chunk);
            assert(chunk_text(events) =~= text);
        } else {
            let rest = choices.drop_first();
            let later = reply_events(content + text, rest, now);
            lemma_reply_events_shape(content + text, rest, now);
            lemma_chunk_text_concat(chunk, later);
            assert(events == chunk + later);
            assert(content + (text + chunk_text(later)) =~= (content + text) + chunk_text(later));
            assert forall|i: int| 0 <= i < events.len() && (#[trigger] events[i]).is_terminal()
                implies i == events.len() - 1 by {
                if i >= chunk.len() {
                    assert(events[i] == later[i - chunk.len()]);
                }
            }
            assert forall|i: int| 0 <= i < events.len() implies match #[trigger] events[i] {
                StreamMessageView::Chunk(text) => text.len() > 0,
                StreamMessageView::Done(_) => true,
                StreamMessageView::Error(_) => false,
            } by {
                if i >= chunk.len() {
                    assert(events[i] == later[i - chunk.len()]);
                }
            }
            if reply_finished(choices) {
                let k = choose|k: int| 0 <= k < choices.len() && (#[trigger] choices[k]).finished;
                assert(rest[k - 1] == choices[k]);
                assert(reply_finished(rest));
            }
            if reply_finished(rest) {
                let k = choose|k: int| 0 <= k < rest.len() && (#[trigger] rest[k]).finished;
                assert(choices[k + 1] == rest[k]);
                assert(reply_finished(choices));
                assert(events.last() == later.last());
            }
            if later.len() > 0 {
                assert(events.last() == later.last());
            }
        }
    }
}

/// Over a whole request, whatever the transport delivers and whenever: at
/// most one terminal event is emitted and nothing follows it; no `Chunk` is
/// empty; and a `Done` carries, as the text of an assistant message, exactly
/// the fragments of the `Chunk` events before it, joined in their order.
pub proof fn lemma_trace_ends_once(arrivals: Seq<(TransportEvent, Timestamp)>)
    ensures
        forall|i: int|
            0 <= i < ReplyView::start().trace(arrivals).len() && (#[trigger] ReplyView::start().trace(
                arrivals,
            )[i]).is_terminal() ==> i == ReplyView::start().trace(arrivals).len() - 1,
        forall|i: int|
            0 <= i < ReplyView::start().trace(arrivals).len() ==> (
            #[trigger] ReplyView::start().trace(arrivals)[i] matches StreamMessageView::Chunk(text)
                ==> text.len() > 0),
        ReplyView::start().after_all(arrivals).finished <==> ReplyView::start().trace(
            arrivals,
        ).len() > 0 && ReplyView::start().trace(arrivals).last().is_terminal(),
        !ReplyView::start().after_all(arrivals).finished ==> ReplyView::start().after_all(
            arrivals,
        ).content == chunk_text(ReplyView::start().trace(arrivals)),
        ReplyView::start().trace(arrivals).len() > 0 ==> (ReplyView::start().trace(
            arrivals,
        ).last() matches StreamMessageView::Done(message) ==> message.role == Role::Assistant
            && message.content == ContentView::Text(
            chunk_text(ReplyView::start().trace(arrivals)),
        )),
    decreases arrivals.len(),
{
    let start = ReplyView::start();
    let trace = start.trace(arrivals);
    if arrivals.len() > 0 {
        let earlier = arrivals.drop_last();
        let (event, now) = arrivals.last();
        lemma_trace_ends_once(earlier);
        let before = start.trace(earlier);
        let state = start.after_all(earlier);
        let added = state.events(event, now);
        assert(trace == before + added);
        if state.finished {
            assert(trace =~= before);
        } else {
            lemma_chunk_text_concat(before, added);
            match event {
                TransportEvent::Response(choices) => {
                    lemma_reply_events_shape(state.content, choices@, now);
                },
                TransportEvent::Failure(reason) => {
                    assert(chunk_text(added.drop_last()) =~= Seq::<char>::empty());
                },
                TransportEvent::Closed => {
                    assert(chunk_text(added.drop_last()) =~= Seq::<char>::empty());
                },
            }
            assert forall|i: int| 0 <= i < trace.len() && (#[trigger] trace[i]).is_terminal()
                implies i == trace.len() - 1 by {
                if i < before.len() {
                    assert(trace[i] == before[i]);
                } else {
                    assert(trace[i] == added[i - before.len()]);
                }
            }
            assert forall|i: int| 0 <= i < trace.len() implies (
            #[trigger] trace[i] matches StreamMessageView::Chunk(text) ==> text.len() > 0) by {
                if i < before.len() {
                    assert(trace[i] == before[i]);
                } else {
                    assert(trace[i] == added[i - before.len()]);
                }
            }
            if added.len() > 0 {
                assert(trace.last() == added.last());
            } else {
                assert(trace =~= before);
            }
        }
    } else {
        assert(chunk_text(trace) =~= Seq::<char>::empty());
    }
}

/// Turns what the transport delivers for one request into stream events.
pub struct StreamingReply {
    content: String,
    finished: bool,
}

impl View for StreamingReply {
    type V = ReplyView;

    closed spec fn view(&self) -> ReplyView {
        ReplyView { content: self.content@, finished: self.finished }
    }
}

impl StreamingReply {
    /// The state in which a request starts: nothing gathered, not finished.
    pub fn new() -> (r: Self)
        ensures
            r@ == ReplyView::start(),
    {
        StreamingReply { content: String::new(), finished: false }
    }

    /// Whether a terminal event was emitted.
    pub fn is_finished(&self) -> (r: bool)
        ensures
            r == self@.finished,
    {
        self.finished
    }

    /// The text gathered so far.
    pub fn content(&self) -> (r: &String)
        ensures
            r@ == self@.content,
    {
        &self.content
    }

    /// Takes in `event` and returns the stream events to deliver for it, in
    /// their order. A `Done` among them is stamped with the current time.
    pub fn handle(&mut self, event: TransportEvent) -> (out: Vec<StreamMessage>)
        ensures
            final(self)@ == old(self)@.after(event),
            exists|now: Timestamp| stream_views(out@) == old(self)@.events(event, now),
            old(self)@.finished ==> out@.len() == 0,
    {
        let now = current_time();
        let out = self.handle_at(event, now);
        assert(stream_views(out@).len() == out@.len());
        out
    }

    /// Takes in `event` and returns the stream events to deliver for it, in
    /// their order. A `Done` among them is stamped `now`.
    pub fn handle_at(&mut self, event: TransportEvent, now: Timestamp) -> (out: Vec<StreamMessage>)
        ensures
            final(self)@ == old(self)@.after(event),
            stream_views(out@) == old(self)@.events(event, now),
    {
        let mut out: Vec<StreamMessage> = Vec::new();
        if self.finished {
            assert(stream_views(out@) =~= Seq::<StreamMessageView>::empty());
            return out;
        }
        match event {
            TransportEvent::Response(choices) => {
                out = self.absorb(&choices, now);
            },
            TransportEvent::Failure(reason) => {
                out.push(StreamMessage::Error(reason));
                self.finished = true;
                assert(stream_views(out@) =~= seq![StreamMessageView::Error(reason@)]);
            },
            TransportEvent::Closed => {
                let reason = "Stream ended before the reply was complete".to_owned();
                out.push(StreamMessage::Error(reason));
                self.finished = true;
                assert(stream_views(out@) =~= seq![StreamMessageView::Error(closed_early_text())]);
            },
        }
        out
    }

    /// Gathers the fragments of `choices` and returns the events for them.
    fn absorb(&mut self, choices: &Vec<ChoiceDelta>, now: Timestamp) -> (out: Vec<StreamMessage>)
        requires
            !old(self)@.finished,
        ensures
            stream_views(out@) == reply_events(old(self)@.content, choices@, now),
            final(self)@.content == reply_content(old(self)@.content, choices@),
            final(self)@.finished == reply_finished(choices@),
    {
        let ghost start = self.content@;
        let mut out: Vec<StreamMessage> = Vec::new();
        let mut i: usize = 0;
        proof {
            assert(choices@.skip(0) =~= choices@);
            assert(stream_views(out@) =~= Seq::<StreamMessageView>::empty());
            assert(stream_views(out@) + reply_events(start, choices@, now) =~= reply_events(
                start,
                choices@,
                now,
            ));
        }
        while i < choices.len()
            invariant
                i <= choices@.len(),
                !self.finished,
                start == old(self)@.content,
                reply_events(start, choices@, now) == stream_views(out@) + reply_events(
                    self.content@,
                    choices@.skip(i as int),
                    now,
                ),
                reply_content(start, choices@) == reply_content(
                    self.content@,
                    choices@.skip(i as int),
                ),
                forall|j: int| 0 <= j < i ==> !(#[trigger] choices@[j]).finished,
            decreases choices@.len() - i,
        {
            let ghost before = self.content@;
            let ghost emitted = stream_views(out@);
            let ghost rest = choices@.skip(i as int);
            proof {
                assert(rest[0] == choices@[i as int]);
                assert(rest.drop_first() =~= choices@.skip(i + 1));
            }
            let choice = &choices[i];
            match &choice.content {
                Some(text) => {
                    if !text.as_str().is_empty() {
                        self.content.append(text.as_str());
                        out.push(StreamMessage::Chunk(text.clone()));
                        proof {
                            assert(stream_views(out@) =~= emitted + seq![
                                StreamMessageView::Chunk(text@),
                            ]);
                        }
                    } else {
                        proof {
                            assert(before + text@ =~= before);
                        }
                    }
                },
                None => {
                    proof {
                        assert(before + Seq::<char>::empty() =~= before);
                    }
                },
            }
            assert(self.content@ == before + delta_text(*choice));
            if choice.finished {
                let ghost chunks = stream_views(out@);
                let message = Message {
                    role: Role::Assistant,
                    content: MessageContent::Text(self.content.clone()),
                    timestamp: now,
                };
                out.push(StreamMessage::Done(message));
                self.finished = true;
                proof {
                    assert(stream_views(out@) =~= chunks.push(
                        StreamMessageView::Done(assistant_message(self.content@, now)),
                    ));
                    assert(reply_events(start, choices@, now) =~= stream_views(out@));
                }
                return out;
            }
            proof {
                assert(reply_events(start, choices@, now) =~= stream_views(out@) + reply_events(
                    self.content@,
                    choices@.skip(i + 1),
                    now,
                ));
            }
            i += 1;
        }
        proof {
            assert(choices@.skip(i as int) =~= Seq::<ChoiceDelta>::empty());
            assert(stream_views(out@) + Seq::<StreamMessageView>::empty() =~= stream_views(out@));
        }
        out
    }
}

/// The fragment of the first choice, if there is a first choice and it
/// brings one.
pub open spec fn first_fragment(choices: Seq<ChoiceDelta>) -> Option<Seq<char>> {
    if choices.len() > 0 && choices[0].content is Some {
        Some(choices[0].content->0@)
    } else {
        None
    }
}

/// The reason reported for a transport failure while a reply is collected.
pub open spec fn stream_error_text(reason: Seq<char>) -> Seq<char> {
    "Stream error: "@ + reason
}

/// Gathers, for a request whose reply is wanted in one piece, the fragments
/// of the first choice of every answer.
pub struct CollectedReply {
    text: String,
}

impl View for CollectedReply {
    type V = Seq<char>;

    closed spec fn view(&self) -> Seq<char> {
        self.text@
    }
}

impl CollectedReply {
    /// Nothing gathered yet.
    pub fn new() -> (r: Self)
        ensures
            r@ == Seq::<char>::empty(),
    {
        CollectedReply { text: String::new() }
    }

    /// Takes in `event`. The fragment of an answer's first choice is added to
    /// the reply and handed back as a `Chunk` for whoever listens; a failure
    /// of the transport is returned as an error and leaves the reply as it is.
    pub fn take(&mut self, event: &TransportEvent) -> (r: Result<Option<StreamMessage>, ChatError>)
        ensures
            match *event {
                TransportEvent::Response(choices) => match first_fragment(choices@) {
                    Some(text) => final(self)@ == old(self)@ + text && r is Ok && r->Ok_0 is Some
                        && r->Ok_0->0@ == StreamMessageView::Chunk(text),
                    None => final(self)@ == old(self)@ && r == Ok::<
                        Option<StreamMessage>,
                        ChatError,
                    >(None),
                },
                TransportEvent::Failure(reason) => final(self)@ == old(self)@ && r is Err && (
                r->Err_0 matches ChatError::TransportFailure(text) && text@ == stream_error_text(
                    reason@,
                )),
                TransportEvent::Closed => final(self)@ == old(self)@ && r == Ok::<
                    Option<StreamMessage>,
                    ChatError,
                >(None),
            },
    {
        match event {
            TransportEvent::Response(choices) => {
                if choices.len() > 0 {
                    match &choices[0].content {
                        Some(text) => {
                            self.text.append(text.as_str());
                            Ok(Some(StreamMessage::Chunk(text.clone())))
                        },
                        None => Ok(None),
                    }
                } else {
                    Ok(None)
                }
            },
            TransportEvent::Failure(reason) => {
                let text = "Stream error: ".to_owned().concat(reason.as_str());
                Err(ChatError::TransportFailure(text))
            },
            TransportEvent::Closed => Ok(None),
        }
    }

    /// The reply gathered so far.
    pub fn text(&self) -> (r: &String)
        ensures
            r@ == self@,
    {
        &self.text
    }

    /// Gives up the collector for the reply it gathered.
    pub fn into_text(self) -> (r: String)
        ensures
            r@ == self@,
    {
        self.text
    }
}

} // verus!
