//! The coordination of one streamed request with the session it belongs to.

use crate::chat::session_manager::lemma_deleted_is_wf;
use crate::chat::session_manager::lemma_with_session_is_wf;
use crate::chat::session_manager::ManagerView;
use crate::chat::session_manager::SessionManager;
use crate::llm::client::chunk_text;
use crate::llm::message::stream_views;
use crate::llm::message::ContentView;
use crate::llm::message::Message;
use crate::llm::message::MessageContent;
use crate::llm::message::MessageView;
use crate::llm::message::Role;
use crate::llm::message::StreamMessage;
use crate::time::current_time;
use crate::time::Timestamp;
use crate::ui::state::ChatState;
use vstd::prelude::*;
use vstd::string::StringExecFns;

verus! {

/// What the display is told about a request under way.
#[derive(Clone, Debug, PartialEq, Eq)]
pub enum ChatMessage {
    StreamChunk(String),
}

/// Where a request stands.
#[derive(Clone, Copy, Debug, PartialEq, Eq, Structural)]
pub enum Phase {
    /// No request is outstanding.
    Idle,
    /// A request was submitted and no fragment has arrived yet.
    Sending,
    /// Fragments are arriving.
    Streaming,
}

/// The state of the coordinator, as mathematical values.
pub struct ChatView {
    pub phase: Phase,
    /// The text received so far for the outstanding request. It is shown as a
    /// provisional reply and is no part of any session.
    pub pending: Option<Seq<char>>,
    /// The identifier of the session that the outstanding request belongs to.
    pub session: Option<Seq<char>>,
    /// The reason of the last failure.
    pub error: Option<Seq<char>>,
}

impl ChatView {
    /// Pending text and an owning session exist exactly while a request is
    /// outstanding, and nothing is pending before the first fragment.
    pub open spec fn wf(self) -> bool {
        &&& self.phase is Idle <==> self.pending is None
        &&& self.phase is Idle <==> self.session is None
        &&& self.phase is Sending ==> self.pending == Some(Seq::<char>::empty())
    }

    /// The state without a request and without an error.
    pub open spec fn idle() -> ChatView {
        ChatView { phase: Phase::Idle, pending: None, session: None, error: None }
    }

    /// A request is outstanding.
    pub open spec fn is_sending(self) -> bool {
        !(self.phase is Idle)
    }

    /// `input` can be sent: it is not empty, no request is outstanding, and a
    /// session is active to take the message.
    pub open spec fn can_send(self, input: Seq<char>, registry: ManagerView) -> bool {
        input.len() > 0 && self.phase is Idle && registry.current is Some
    }

    /// The state after a request was submitted for the session `session`.
    pub open spec fn sent(self, session: Seq<char>) -> ChatView {
        ChatView {
            phase: Phase::Sending,
            pending: Some(Seq::empty()),
            session: Some(session),
            error: self.error,
        }
    }

    /// The state after `event` arrived. Without a request outstanding an
    /// event changes nothing. A fragment is added to the pending text; either
    /// terminal event drops the pending text and ends the request, and a
    /// failure leaves its reason.
    pub open spec fn received(self, event: StreamMessage) -> ChatView {
        if self.phase is Idle {
            self
        } else {
            match event {
                StreamMessage::Chunk(text) => ChatView {
                    phase: Phase::Streaming,
                    pending: Some(self.pending->0 + text@),
                    ..self
                },
                StreamMessage::Done(_) => ChatView {
                    phase: Phase::Idle,
                    pending: None,
                    session: None,
                    error: self.error,
                },
                StreamMessage::Error(reason) => ChatView {
                    phase: Phase::Idle,
                    pending: None,
                    session: None,
                    error: Some(reason@),
                },
            }
        }
    }

    /// `event`, arriving in this state, commits its message to `registry`:
    /// it is `Done`, a request is outstanding, and the session that the
    /// request belongs to is still registered.
    pub open spec fn commits(self, registry: ManagerView, event: StreamMessage) -> bool {
        &&& self.is_sending()
        &&& event is Done
        &&& self.session is Some
        &&& registry.contains(self.session->0)
    }

    /// What `registry` holds after `event` arrived at `now`: the finished
    /// message is appended to the session of the request where the event
    /// commits, and nothing changes where it does not.
    pub open spec fn committed(self, registry: ManagerView, event: StreamMessage, now: Timestamp)
        -> ManagerView {
        if self.commits(registry, event) {
            registry.appended_to(self.session->0, event->Done_0, now)
        } else {
            registry
        }
    }

    /// The state after each of `events` arrived in turn.
    pub open spec fn received_all(self, events: Seq<StreamMessage>) -> ChatView
        decreases events.len(),
    {
        if events.len() == 0 {
            self
        } else {
            self.received_all(events.drop_last()).received(events.last())
        }
    }

    /// What `registry` holds after each of `events` arrived in turn at `now`.
    pub open spec fn committed_all(
        self,
        registry: ManagerView,
        events: Seq<StreamMessage>,
        now: Timestamp,
    ) -> ManagerView
        decreases events.len(),
    {
        if events.len() == 0 {
            registry
        } else {
            self.received_all(events.drop_last()).committed(
                self.committed_all(registry, events.drop_last(), now),
                events.last(),
                now,
            )
        }
    }
}

/// The message that is sent for the input `text` at `now`.
pub open spec fn user_message(text: Seq<char>, now: Timestamp) -> MessageView {
    MessageView { role: Role::User, content: ContentView::Text(text), timestamp: now }
}

/// Bridges one request into the session it was made for: it buffers the
/// fragments that arrive, commits the finished reply, and reports a failure.
pub struct Chat {
    streaming_content: Option<String>,
    session_id: Option<String>,
    streaming: bool,
    state: ChatState,
}

impl View for Chat {
    type V = ChatView;

    closed spec fn view(&self) -> ChatView {
        ChatView {
            phase: if !self.state.is_sending {
                Phase::Idle
            } else if self.streaming {
                Phase::Streaming
            } else {
                Phase::Sending
            },
            pending: match self.streaming_content {
                Some(text) => Some(text@),
                None => None,
            },
            session: match self.session_id {
                Some(id) => Some(id@),
                None => None,
            },
            error: match self.state.error {
                Some(reason) => Some(reason@),
                None => None,
            },
        }
    }
}

impl Chat {
    /// The coordinator is well formed: see [`ChatView::wf`].
    pub open spec fn wf(&self) -> bool {
        self@.wf()
    }

    /// A coordinator without a request and without an error.
    pub fn new() -> (c: Self)
        ensures
            c.wf(),
            c@ == ChatView::idle(),
    {
        Chat {
            streaming_content: None,
            session_id: None,
            streaming: false,
            state: ChatState { is_sending: false, error: None },
        }
    }

    /// Where the request stands.
    pub fn phase(&self) -> (p: Phase)
        ensures
            p == self@.phase,
    {
        if !self.state.is_sending {
            Phase::Idle
        } else if self.streaming {
            Phase::Streaming
        } else {
            Phase::Sending
        }
    }

    /// Whether a request is outstanding.
    pub fn is_sending(&self) -> (r: bool)
        ensures
            r == self@.is_sending(),
    {
        self.state.is_sending
    }

    /// The flag and the error that the display shows.
    pub fn state(&self) -> (s: &ChatState)
        ensures
            s.is_sending == self@.is_sending(),
            s.error is Some <==> self@.error is Some,
            s.error matches Some(reason) ==> self@.error == Some(reason@),
    {
        &self.state
    }

    /// The text received so far for the outstanding request.
    pub fn streaming_content(&self) -> (r: Option<&String>)
        ensures
            r is Some <==> self@.pending is Some,
            r matches Some(text) ==> self@.pending == Some(text@),
    {
        self.streaming_content.as_ref()
    }

    /// The text received so far, if the outstanding request belongs to the
    /// session under `id`: what is pending is shown with that session only.
    pub fn pending_for(&self, id: &str) -> (r: Option<&String>)
        ensures
            r is Some <==> self@.pending is Some && self@.session == Some(id@),
            r matches Some(text) ==> self@.pending == Some(text@),
    {
        match &self.session_id {
            Some(owner) => {
                if *owner == id.to_owned() {
                    self.streaming_content.as_ref()
                } else {
                    None
                }
            },
            None => None,
        }
    }

    /// The reason of the last failure.
    pub fn error(&self) -> (r: Option<&String>)
        ensures
            r is Some <==> self@.error is Some,
            r matches Some(reason) ==> self@.error == Some(reason@),
    {
        self.state.error.as_ref()
    }

    /// The identifier of the session that the outstanding request belongs to.
    pub fn session_id(&self) -> (r: Option<&String>)
        ensures
            r is Some <==> self@.session is Some,
            r matches Some(id) ==> self@.session == Some(id@),
    {
        self.session_id.as_ref()
    }

    /// Whether `input` can be sent now.
    pub fn can_send(&self, input: &str, manager: &SessionManager) -> (r: bool)
        ensures
            r == self@.can_send(input@, manager@),
    {
        !input.is_empty() && !self.state.is_sending && manager.current_session_id().is_some()
    }

    /// Submits `input` as a message of the user, stamped with the current
    /// time: see [`Chat::begin_send_at`].
    pub fn begin_send(&mut self, input: &mut String, manager: &mut SessionManager) -> (r: Option<
        Message,
    >)
        requires
            old(self).wf(),
            old(manager).wf(),
        ensures
            final(self).wf(),
            final(manager).wf(),
            r is Some <==> old(self)@.can_send(old(input)@, old(manager)@),
            r matches Some(message) ==> message@.role == Role::User && message@.content
                == ContentView::Text(old(input)@) && final(input)@ == Seq::<char>::empty()
                && final(manager)@ == old(manager)@.appended_to(
                old(manager)@.current->0,
                message,
                message.timestamp,
            ) && final(self)@ == old(self)@.sent(old(manager)@.current->0),
            r is None ==> *final(input) == *old(input) && final(manager)@ == old(manager)@
                && final(self)@ == old(self)@,
    {
        let now = current_time();
        self.begin_send_at(input, manager, now)
    }

    /// Submits `input` as a message of the user, stamped `now`.
    ///
    /// Where `input` can be sent, the message is appended to the active
    /// session, `input` is emptied, the request is recorded as outstanding for
    /// that session with nothing pending yet, and the message is returned for
    /// the completion client. Where it cannot, nothing changes and `None` is
    /// returned.
    pub fn begin_send_at(
        &mut self,
        input: &mut String,
        manager: &mut SessionManager,
        now: Timestamp,
    ) -> (r: Option<Message>)
        requires
            old(self).wf(),
            old(manager).wf(),
        ensures
            final(self).wf(),
            final(manager).wf(),
            r is Some <==> old(self)@.can_send(old(input)@, old(manager)@),
            r matches Some(message) ==> message@ == user_message(old(input)@, now) && final(input)@
                == Seq::<char>::empty() && final(manager)@ == old(manager)@.appended_to(
                old(manager)@.current->0,
                message,
                now,
            ) && final(self)@ == old(self)@.sent(old(manager)@.current->0),
            r is None ==> *final(input) == *old(input) && final(manager)@ == old(manager)@
                && final(self)@ == old(self)@,
    {
        if input.as_str().is_empty() || self.state.is_sending {
            return None;
        }
        let session_id = match manager.current_session_id() {
            Some(id) => id.clone(),
            None => {
                return None;
            },
        };
        let message = Message {
            role: Role::User,
            content: MessageContent::Text(input.clone()),
            timestamp: now,
        };
        *input = String::new();
        let _ = manager.add_message_to_current_at(message.clone(), now);
        self.state.is_sending = true;
        self.streaming = false;
        self.streaming_content = Some(String::new());
        self.session_id = Some(session_id);
        Some(message)
    }

    /// Takes in `event`, stamping a commit with the current time: see
    /// [`Chat::handle_event_at`].
    pub fn handle_event(&mut self, manager: &mut SessionManager, event: StreamMessage)
        requires
            old(self).wf(),
            old(manager).wf(),
        ensures
            final(self).wf(),
            final(manager).wf(),
            final(self)@ == old(self)@.received(event),
            exists|now: Timestamp|
                final(manager)@ == old(self)@.committed(old(manager)@, event, now),
            !old(self)@.commits(old(manager)@, event) ==> final(manager)@ == old(manager)@,
    {
        let now = current_time();
        self.handle_event_at(manager, event, now);
    }

    /// Takes in `event` at `now`.
    ///
    /// A fragment is added to the pending text and touches no session. `Done`
    /// appends its message, once, to the session that the request was made
    /// for, if that session is still registered, and is dropped if it is not;
    /// then the pending text is cleared and the request is over. `Error` clears
    /// the pending text without committing any of it, keeps the reason and
    /// ends the request. Without a request outstanding the event is dropped.
    pub fn handle_event_at(
        &mut self,
        manager: &mut SessionManager,
        event: StreamMessage,
        now: Timestamp,
    )
        requires
            old(self).wf(),
            old(manager).wf(),
        ensures
            final(self).wf(),
            final(manager).wf(),
            final(self)@ == old(self)@.received(event),
            final(manager)@ == old(self)@.committed(old(manager)@, event, now),
    {
        if !self.state.is_sending {
            return ;
        }
        match event {
            StreamMessage::Chunk(text) => {
                match &mut self.streaming_content {
                    Some(content) => {
                        content.append(text.as_str());
                    },
                    None => {},
                }
                self.streaming = true;
            },
            StreamMessage::Done(message) => {
                match &self.session_id {
                    Some(id) => {
                        let _ = manager.add_message_to_at(id.as_str(), message, now);
                    },
                    None => {},
                }
                self.finish();
            },
            StreamMessage::Error(reason) => {
                self.finish();
                self.state.error = Some(reason);
            },
        }
    }

    /// Takes in every event of `events` in turn at `now`, as
    /// [`Chat::handle_event_at`] does.
    pub fn handle_events_at(
        &mut self,
        manager: &mut SessionManager,
        events: Vec<StreamMessage>,
        now: Timestamp,
    )
        requires
            old(self).wf(),
            old(manager).wf(),
        ensures
            final(self).wf(),
            final(manager).wf(),
            final(self)@ == old(self)@.received_all(events@),
            final(manager)@ == old(self)@.committed_all(old(manager)@, events@, now),
    {
        let mut i: usize = 0;
        while i < events.len()
            invariant
                i <= events@.len(),
                self.wf(),
                manager.wf(),
                self@ == old(self)@.received_all(events@.take(i as int)),
                manager@ == old(self)@.committed_all(old(manager)@, events@.take(i as int), now),
            decreases events@.len() - i,
        {
            proof {
                assert(events@.take(i + 1).drop_last() =~= events@.take(i as int));
                assert(events@.take(i + 1).last() == events@[i as int]);
            }
            self.handle_event_at(manager, events[i].clone(), now);
            i += 1;
        }
        proof {
            assert(events@.take(i as int) =~= events@);
        }
    }

    /// Ends the request: nothing is pending and no session is waited for.
    fn finish(&mut self)
        ensures
            final(self).state.error == old(self).state.error,
            !final(self).state.is_sending,
            !final(self).streaming,
            final(self).streaming_content is None,
            final(self).session_id is None,
    {
        self.streaming_content = None;
        self.session_id = None;
        self.streaming = false;
        self.state.is_sending = false;
    }
}

/// A finished reply that arrives after the session of its request was
/// deleted is dropped: the registry is left exactly as the deletion left it,
/// and the deleted session is not registered again.
pub proof fn lemma_done_after_delete_is_dropped(
    chat: ChatView,
    registry: ManagerView,
    message: Message,
    now: Timestamp,
)
    requires
        chat.wf(),
        registry.wf(),
        chat.session is Some,
    ensures
        chat.committed(registry.deleted(chat.session->0), StreamMessage::Done(message), now)
            == registry.deleted(chat.session->0),
        !registry.deleted(chat.session->0).contains(chat.session->0),
{
    lemma_deleted_is_wf(registry, chat.session->0);
}

/// Only a finished reply reaches a session: a fragment or a failure leaves
/// the registry as it is, whatever is pending, and a failure keeps its reason
/// for display.
pub proof fn lemma_partial_text_is_never_committed(
    chat: ChatView,
    registry: ManagerView,
    event: StreamMessage,
    now: Timestamp,
)
    requires
        !(event is Done),
    ensures
        chat.committed(registry, event, now) == registry,
        chat.is_sending() ==> (event matches StreamMessage::Error(reason) ==> chat.received(
            event,
        ).error == Some(reason@) && chat.received(event).pending is None),
{
}

/// While only fragments arrive nothing is committed, however many they are:
/// the registry stays as it is, the request stays outstanding for the same
/// session, and the pending text grows by the fragments in the order of their
/// arrival.
pub proof fn lemma_fragments_only_grow_the_pending_text(
    chat: ChatView,
    registry: ManagerView,
    events: Seq<StreamMessage>,
    now: Timestamp,
)
    requires
        chat.wf(),
        chat.is_sending(),
        forall|i: int| 0 <= i < events.len() ==> #[trigger] events[i] is Chunk,
    ensures
        chat.committed_all(registry, events, now) == registry,
        chat.received_all(events).is_sending(),
        chat.received_all(events).session == chat.session,
        chat.received_all(events).error == chat.error,
        chat.received_all(events).pending == Some(
            chat.pending->0 + chunk_text(stream_views(events)),
        ),
    decreases events.len(),
{
    if events.len() == 0 {
        assert(chat.pending->0 + chunk_text(stream_views(events)) =~= chat.pending->0);
    } else {
        let earlier = events.drop_last();
        assert forall|i: int| 0 <= i < earlier.len() implies #[trigger] earlier[i] is Chunk by {
            assert(earlier[i] == events[i]);
        }
        lemma_fragments_only_grow_the_pending_text(chat, registry, earlier, now);
        let last = events[events.len() - 1];
        assert(last is Chunk);
        assert(stream_views(events).drop_last() =~= stream_views(earlier));
        assert(stream_views(events).last() == last@);
        let text = last->Chunk_0@;
        assert((chat.pending->0 + chunk_text(stream_views(earlier))) + text =~= chat.pending->0 + (
        chunk_text(stream_views(earlier)) + text));
    }
}

/// A finished reply is committed exactly once: it adds one message, the
/// reply itself, at the end of the session of the request and leaves every
/// other session alone; afterwards no request is outstanding, so that a second
/// `Done` commits nothing.
pub proof fn lemma_done_commits_once(
    chat: ChatView,
    registry: ManagerView,
    message: Message,
    again: Message,
    now: Timestamp,
)
    requires
        chat.wf(),
        registry.wf(),
        chat.is_sending(),
        registry.contains(chat.session->0),
    ensures
        chat.committed(registry, StreamMessage::Done(message), now).session(
            chat.session->0,
        ).messages == registry.session(chat.session->0).messages.push(message),
        chat.committed(registry, StreamMessage::Done(message), now).len() == registry.len(),
        forall|other: Seq<char>|
            other != chat.session->0 && registry.contains(other) ==> #[trigger] chat.committed(
                registry,
                StreamMessage::Done(message),
                now,
            ).session(other) == registry.session(other),
        chat.received(StreamMessage::Done(message)) == (ChatView {
            phase: Phase::Idle,
            pending: None,
            session: None,
            error: chat.error,
        }),
        chat.received(StreamMessage::Done(message)).committed(
            chat.committed(registry, StreamMessage::Done(message), now),
            StreamMessage::Done(again),
            now,
        ) == chat.committed(registry, StreamMessage::Done(message), now),
{
    let id = chat.session->0;
    lemma_with_session_is_wf(registry, id, registry.session(id).appended(message, now));
}

} // verus!
