//! A single conversation: an append-only log of messages with an identity.

use crate::llm::message::Message;
use crate::time::current_time;
use crate::time::Timestamp;
use std::collections::VecDeque;
use vstd::prelude::*;

verus! {

/// A named, ordered conversation.
///
/// Messages are only ever added at the back; the order of the log is the order
/// of the conversation.
#[derive(Clone, Debug)]
pub struct ChatSession {
    pub id: String,
    pub title: String,
    pub messages: VecDeque<Message>,
    pub created_at: Timestamp,
    pub updated_at: Timestamp,
}

/// What a session holds, as mathematical values.
pub struct SessionView {
    pub id: Seq<char>,
    pub title: Seq<char>,
    pub messages: Seq<Message>,
    pub created_at: Timestamp,
    pub updated_at: Timestamp,
}

impl SessionView {
    /// A session right after its creation at `now`.
    pub open spec fn fresh(id: Seq<char>, title: Seq<char>, now: Timestamp) -> SessionView {
        SessionView { id, title, messages: Seq::empty(), created_at: now, updated_at: now }
    }

    /// The session after `message` was appended at `now`.
    pub open spec fn appended(self, message: Message, now: Timestamp) -> SessionView {
        SessionView { messages: self.messages.push(message), updated_at: now, ..self }
    }

    /// The session after each of `items` was appended in turn, every message
    /// at the time paired with it.
    pub open spec fn appended_all(self, items: Seq<(Message, Timestamp)>) -> SessionView
        decreases items.len(),
    {
        if items.len() == 0 {
            self
        } else {
            self.appended_all(items.drop_last()).appended(items.last().0, items.last().1)
        }
    }

    /// The last update is not earlier than the creation.
    pub open spec fn ordered(self) -> bool {
        self.created_at.le(self.updated_at)
    }
}

impl View for ChatSession {
    type V = SessionView;

    open spec fn view(&self) -> SessionView {
        SessionView {
            id: self.id@,
            title: self.title@,
            messages: self.messages@,
            created_at: self.created_at,
            updated_at: self.updated_at,
        }
    }
}

/// Draws a random identifier with `uuid::Uuid::new_v4` and prints it with the
/// `Display` impl of `Uuid`, the hyphenated form of 32 hexadecimal digits in
/// five groups: 36 characters. Which identifier comes out is left open.
#[verifier::external_body]
pub(crate) fn fresh_id() -> (id: String)
    ensures
        id@.len() == 36,
{
    uuid::Uuid::new_v4().to_string()
}

impl ChatSession {
    /// A new, empty session under a freshly drawn identifier, created now.
    pub fn new(title: String) -> (s: Self)
        ensures
            s@.title == title@,
            s@.messages == Seq::<Message>::empty(),
            s@.created_at == s@.updated_at,
            s@.id.len() == 36,
            s@.ordered(),
    {
        let id = fresh_id();
        let now = current_time();
        ChatSession::with_id(id, title, now)
    }

    /// A new, empty session under the identifier `id`, created at `now`.
    pub fn with_id(id: String, title: String, now: Timestamp) -> (s: Self)
        ensures
            s@ == SessionView::fresh(id@, title@, now),
    {
        ChatSession { id, title, messages: VecDeque::new(), created_at: now, updated_at: now }
    }

    /// Appends `message` to the log and stamps the session with the current
    /// time.
    pub fn add_message(&mut self, message: Message)
        ensures
            final(self)@.messages == old(self)@.messages.push(message),
            final(self)@.id == old(self)@.id,
            final(self)@.title == old(self)@.title,
            final(self)@.created_at == old(self)@.created_at,
    {
        let now = current_time();
        self.add_message_at(message, now);
    }

    /// Appends `message` to the log and stamps the session with `now`.
    pub fn add_message_at(&mut self, message: Message, now: Timestamp)
        ensures
            final(self)@ == old(self)@.appended(message, now),
    {
        self.messages.push_back(message);
        self.updated_at = now;
    }
}

/// Appending is never lossy: the log grows by exactly the appended message,
/// which becomes the last entry, every earlier entry keeps its place, and the
/// identity and the creation time stay. Where `now` is not earlier than the
/// creation time, the session stays ordered.
pub proof fn lemma_append_keeps_history(s: SessionView, message: Message, now: Timestamp)
    ensures
        s.appended(message, now).messages.len() == s.messages.len() + 1,
        s.appended(message, now).messages[s.messages.len() as int] == message,
        forall|i: int|
            0 <= i < s.messages.len() ==> s.appended(message, now).messages[i] == s.messages[i],
        s.appended(message, now).id == s.id,
        s.appended(message, now).created_at == s.created_at,
        s.created_at.le(now) ==> s.appended(message, now).ordered(),
{
}

/// Appending several messages in turn puts each at the position that matches
/// its place in the order of appending, behind everything that was there
/// before. Where no append happens earlier than the creation, the session is
/// ordered after every one of them.
pub proof fn lemma_append_all_keeps_order(s: SessionView, items: Seq<(Message, Timestamp)>)
    ensures
        s.appended_all(items).messages.len() == s.messages.len() + items.len(),
        forall|i: int|
            0 <= i < s.messages.len() ==> s.appended_all(items).messages[i] == s.messages[i],
        forall|k: int|
            0 <= k < items.len() ==> s.appended_all(items).messages[s.messages.len() + k]
                == items[k].0,
        s.appended_all(items).id == s.id,
        s.appended_all(items).created_at == s.created_at,
        s.ordered() && (forall|k: int| 0 <= k < items.len() ==> s.created_at.le(items[k].1))
            ==> s.appended_all(items).ordered(),
    decreases items.len(),
{
    if items.len() > 0 {
        let earlier = items.drop_last();
        lemma_append_all_keeps_order(s, earlier);
        let before = s.appended_all(earlier);
        let after = s.appended_all(items);
        assert(after == before.appended(items.last().0, items.last().1));
        assert forall|k: int| 0 <= k < items.len() implies after.messages[s.messages.len() + k]
            == items[k].0 by {
            if k < earlier.len() {
                assert(earlier[k] == items[k]);
                assert(after.messages[s.messages.len() + k] == before.messages[s.messages.len()
                    + k]);
            }
        }
    }
}

} // verus!
