//! The registry of all sessions and of the one that is active.

use crate::chat::session::fresh_id;
use crate::chat::session::ChatSession;
use crate::chat::session::SessionView;
use crate::error::ChatError;
use crate::llm::message::Message;
use crate::time::current_time;
use crate::time::Timestamp;
use vstd::prelude::*;

verus! {

/// A registered session together with the identifier it is registered under.
pub struct EntryView {
    pub id: Seq<char>,
    pub session: SessionView,
}

/// What the registry holds, as mathematical values.
#[verifier::ext_equal]
pub struct ManagerView {
    /// The registered sessions in the order of their registration, the one
    /// registered last at the back.
    pub entries: Seq<EntryView>,
    /// The identifier of the active session, if there is one.
    pub current: Option<Seq<char>>,
}

impl ManagerView {
    /// No identifier is registered twice, and the active identifier, if set,
    /// is registered.
    pub open spec fn wf(self) -> bool {
        &&& forall|i: int, j: int|
            0 <= i < j < self.entries.len() ==> self.entries[i].id != self.entries[j].id
        &&& self.current matches Some(id) ==> self.contains(id)
    }

    /// The registry without any session.
    pub open spec fn empty() -> ManagerView {
        ManagerView { entries: Seq::empty(), current: None }
    }

    /// The number of registered sessions.
    pub open spec fn len(self) -> nat {
        self.entries.len()
    }

    /// A session is registered under `id`.
    pub open spec fn contains(self, id: Seq<char>) -> bool {
        exists|i: int| 0 <= i < self.entries.len() && #[trigger] self.entries[i].id == id
    }

    /// Where the session registered under `id` stands in `entries`.
    pub open spec fn position(self, id: Seq<char>) -> int {
        choose|i: int| 0 <= i < self.entries.len() && #[trigger] self.entries[i].id == id
    }

    /// The session registered under `id`.
    pub open spec fn session(self, id: Seq<char>) -> SessionView {
        self.entries[self.position(id)].session
    }

    /// The entries other than the one registered under `id`, in their order.
    pub open spec fn without(self, id: Seq<char>) -> Seq<EntryView> {
        if self.contains(id) {
            self.entries.remove(self.position(id))
        } else {
            self.entries
        }
    }

    /// The registry after a session was created under `id` at `now`: it is
    /// the newest entry and the active one. A session that was registered
    /// under `id` before is gone.
    pub open spec fn created(self, id: Seq<char>, title: Seq<char>, now: Timestamp) -> ManagerView {
        ManagerView {
            entries: self.without(id).push(
                EntryView { id, session: SessionView::fresh(id, title, now) },
            ),
            current: Some(id),
        }
    }

    /// The registry after `id` became the active session.
    pub open spec fn switched(self, id: Seq<char>) -> ManagerView {
        ManagerView { current: Some(id), ..self }
    }

    /// The registry after the session under `id` was deleted. Where that
    /// session was the active one, the newest of the remaining sessions is
    /// active afterwards, or none if none remains.
    pub open spec fn deleted(self, id: Seq<char>) -> ManagerView {
        let rest = self.without(id);
        ManagerView {
            entries: rest,
            current: if self.current == Some(id) {
                if rest.len() == 0 {
                    None
                } else {
                    Some(rest.last().id)
                }
            } else {
                self.current
            },
        }
    }

    /// The same identifiers are registered in the same order as in `other`,
    /// and the same session is active.
    pub open spec fn same_ids(self, other: ManagerView) -> bool {
        &&& self.entries.len() == other.entries.len()
        &&& forall|i: int|
            0 <= i < self.entries.len() ==> (#[trigger] self.entries[i]).id == other.entries[i].id
        &&& self.current == other.current
    }

    /// The registry after `op`.
    pub open spec fn applied(self, op: RegistryOp) -> ManagerView {
        match op {
            RegistryOp::Create { id, title, now } => self.created(id, title, now),
            RegistryOp::Delete { id } => self.deleted(id),
        }
    }

    /// The registry after each of `ops` in turn.
    pub open spec fn applied_all(self, ops: Seq<RegistryOp>) -> ManagerView
        decreases ops.len(),
    {
        if ops.len() == 0 {
            self
        } else {
            self.applied_all(ops.drop_last()).applied(ops.last())
        }
    }

    /// The registry with `session` in the place of the session under `id`.
    pub open spec fn with_session(self, id: Seq<char>, session: SessionView) -> ManagerView {
        ManagerView {
            entries: self.entries.update(self.position(id), EntryView { id, session }),
            ..self
        }
    }

    /// The registry after `message` was appended at `now` to the session
    /// under `id`.
    pub open spec fn appended_to(self, id: Seq<char>, message: Message, now: Timestamp)
        -> ManagerView {
        self.with_session(id, self.session(id).appended(message, now))
    }
}

/// A change to the set of registered sessions.
pub enum RegistryOp {
    /// A session is created under `id`.
    Create { id: Seq<char>, title: Seq<char>, now: Timestamp },
    /// The session under `id` is deleted.
    Delete { id: Seq<char> },
}

/// How many of `ops` create a session.
pub open spec fn creations(ops: Seq<RegistryOp>) -> nat
    decreases ops.len(),
{
    if ops.len() == 0 {
        0
    } else {
        creations(ops.drop_last()) + if ops.last() is Create {
            1nat
        } else {
            0nat
        }
    }
}

/// How many of `ops` delete a session.
pub open spec fn deletions(ops: Seq<RegistryOp>) -> nat
    decreases ops.len(),
{
    if ops.len() == 0 {
        0
    } else {
        deletions(ops.drop_last()) + if ops.last() is Delete {
            1nat
        } else {
            0nat
        }
    }
}

struct Entry {
    key: String,
    session: ChatSession,
}

impl View for Entry {
    type V = EntryView;

    closed spec fn view(&self) -> EntryView {
        EntryView { id: self.key@, session: self.session@ }
    }
}

/// Owns every session and knows which one is active.
///
/// A session is registered under the identifier it was created with, which
/// is also written to its `id` field at creation. The registry goes by the
/// identifier of the registration alone.
pub struct SessionManager {
    entries: Vec<Entry>,
    current_session_id: Option<String>,
}

impl View for SessionManager {
    type V = ManagerView;

    closed spec fn view(&self) -> ManagerView {
        ManagerView {
            entries: Seq::new(self.entries@.len(), |i: int| self.entries@[i]@),
            current: match self.current_session_id {
                Some(id) => Some(id@),
                None => None,
            },
        }
    }
}

/// In a registry without duplicates an identifier stands at one place only.
pub proof fn lemma_position_is_unique(m: ManagerView, i: int)
    requires
        m.wf(),
        0 <= i < m.entries.len(),
    ensures
        m.contains(m.entries[i].id),
        m.position(m.entries[i].id) == i,
{
    let id = m.entries[i].id;
    let p = m.position(id);
    assert(0 <= p < m.entries.len() && m.entries[p].id == id);
}

impl SessionManager {
    /// The registry is well formed: see [`ManagerView::wf`].
    pub open spec fn wf(&self) -> bool {
        self@.wf()
    }

    /// An empty registry without an active session.
    pub fn new() -> (m: Self)
        ensures
            m.wf(),
            m@ == ManagerView::empty(),
    {
        let m = SessionManager { entries: Vec::new(), current_session_id: None };
        assert(m@.entries =~= Seq::<EntryView>::empty());
        m
    }

    /// Where the session registered under `id` is stored.
    fn find(&self, id: &String) -> (r: Option<usize>)
        ensures
            r is Some <==> self@.contains(id@),
            r matches Some(i) ==> i < self.entries@.len() && self.entries@[i as int].key@ == id@
                && (self.wf() ==> self@.position(id@) == i),
    {
        let mut i: usize = 0;
        while i < self.entries.len()
            invariant
                i <= self.entries@.len(),
                forall|j: int| 0 <= j < i ==> self.entries@[j].key@ != id@,
            decreases self.entries@.len() - i,
        {
            if self.entries[i].key == *id {
                proof {
                    assert(self@.entries[i as int].id == id@);
                    if self.wf() {
                        lemma_position_is_unique(self@, i as int);
                    }
                }
                return Some(i);
            }
            i += 1;
        }
        proof {
            if self@.contains(id@) {
                let p = self@.position(id@);
                assert(self@.entries[p].id == id@);
                assert(self.entries@[p].key@ == id@);
            }
        }
        None
    }

    /// The number of registered sessions.
    pub fn session_count(&self) -> (n: usize)
        ensures
            n == self@.len(),
    {
        self.entries.len()
    }

    /// Whether a session is registered under `id`.
    pub fn contains_session(&self, id: &str) -> (r: bool)
        ensures
            r == self@.contains(id@),
    {
        let id = id.to_owned();
        self.find(&id).is_some()
    }

    /// The identifier of the active session.
    pub fn current_session_id(&self) -> (r: Option<&String>)
        ensures
            r is Some <==> self@.current is Some,
            r matches Some(id) ==> self@.current == Some(id@),
    {
        self.current_session_id.as_ref()
    }

    /// The active session, or `None` if no session is active.
    pub fn get_current_session(&self) -> (r: Option<&ChatSession>)
        requires
            self.wf(),
        ensures
            r is Some <==> self@.current is Some,
            r matches Some(s) ==> s@ == self@.session(self@.current->0),
    {
        match &self.current_session_id {
            None => None,
            Some(id) => match self.find(id) {
                Some(i) => Some(&self.entries[i].session),
                None => None,
            },
        }
    }

    /// The session registered under `id`, or `None` if there is none.
    pub fn get_session(&self, id: &str) -> (r: Option<&ChatSession>)
        requires
            self.wf(),
        ensures
            r is Some <==> self@.contains(id@),
            r matches Some(s) ==> s@ == self@.session(id@),
    {
        let id = id.to_owned();
        match self.find(&id) {
            Some(i) => Some(&self.entries[i].session),
            None => None,
        }
    }

    /// Makes the session under `id` the active one. Where no session is
    /// registered under `id`, nothing changes.
    pub fn switch_session(&mut self, id: String) -> (r: Result<(), ChatError>)
        requires
            old(self).wf(),
        ensures
            final(self).wf(),
            old(self)@.contains(id@) ==> r == Ok::<(), ChatError>(()) && final(self)@ == old(
                self,
            )@.switched(id@),
            !old(self)@.contains(id@) ==> r == Err::<(), ChatError>(ChatError::SessionNotFound)
                && final(self)@ == old(self)@,
    {
        match self.find(&id) {
            Some(_) => {
                self.current_session_id = Some(id);
                assert(final(self)@.entries == old(self)@.entries);
                Ok(())
            },
            None => Err(ChatError::SessionNotFound),
        }
    }

    /// Creates an empty session under a freshly drawn identifier, makes it the
    /// active session and returns its identifier.
    pub fn create_session(&mut self, title: String) -> (id: String)
        requires
            old(self).wf(),
        ensures
            final(self).wf(),
            exists|now: Timestamp| final(self)@ == old(self)@.created(id@, title@, now),
            final(self)@.current == Some(id@),
            final(self)@.contains(id@),
            final(self)@.session(id@).title == title@,
            final(self)@.session(id@).messages == Seq::<Message>::empty(),
    {
        let id = fresh_id();
        let now = current_time();
        proof {
            lemma_created_is_registered(self@, id@, title@, now);
        }
        self.create_session_with(id, title, now)
    }

    /// Creates an empty session under `id` with creation time `now`, makes it
    /// the active session and returns `id`. A session that was registered under
    /// `id` before is replaced.
    pub fn create_session_with(&mut self, id: String, title: String, now: Timestamp) -> (r: String)
        requires
            old(self).wf(),
        ensures
            final(self).wf(),
            r@ == id@,
            final(self)@ == old(self)@.created(id@, title@, now),
    {
        match self.find(&id) {
            Some(i) => {
                self.entries.remove(i);
            },
            None => {},
        }
        let session = ChatSession::with_id(id.clone(), title, now);
        self.entries.push(Entry { key: id.clone(), session });
        self.current_session_id = Some(id.clone());
        proof {
            lemma_created_is_registered(old(self)@, id@, title@, now);
            assert(final(self)@.entries =~= old(self)@.created(id@, title@, now).entries);
        }
        id
    }

    /// Deletes the session under `id`. Where it was the active session, the
    /// newest remaining session becomes active, or none if none remains. Where
    /// no session is registered under `id`, nothing changes.
    pub fn delete_session(&mut self, id: &str) -> (r: Result<(), ChatError>)
        requires
            old(self).wf(),
        ensures
            final(self).wf(),
            old(self)@.contains(id@) ==> r == Ok::<(), ChatError>(()) && final(self)@ == old(
                self,
            )@.deleted(id@),
            !old(self)@.contains(id@) ==> r == Err::<(), ChatError>(ChatError::SessionNotFound)
                && final(self)@ == old(self)@,
            final(self)@.current matches Some(c) ==> final(self)@.contains(c),
    {
        let key = id.to_owned();
        match self.find(&key) {
            Some(i) => {
                self.entries.remove(i);
                let was_current = match &self.current_session_id {
                    Some(c) => *c == key,
                    None => false,
                };
                if was_current {
                    let n = self.entries.len();
                    if n == 0 {
                        self.current_session_id = None;
                    } else {
                        self.current_session_id = Some(self.entries[n - 1].key.clone());
                    }
                }
                proof {
                    lemma_deleted_is_wf(old(self)@, id@);
                    assert(final(self)@.entries =~= old(self)@.deleted(id@).entries);
                }
                Ok(())
            },
            None => Err(ChatError::SessionNotFound),
        }
    }

    /// The session stored at place `i`, for mutation.
    fn session_slot(&mut self, i: usize) -> (r: &mut ChatSession)
        requires
            i < old(self).entries@.len(),
        ensures
            r@ == old(self)@.entries[i as int].session,
            final(self)@.same_ids(old(self)@),
            final(self)@.entries == old(self)@.entries.update(
                i as int,
                EntryView { id: old(self)@.entries[i as int].id, session: final(r)@ },
            ),
    {
        &mut self.entries[i].session
    }

    /// The active session for mutation, or `None` if no session is active.
    ///
    /// Whatever the caller does to the session, the registry keeps it under
    /// the same identifier and stays well formed.
    pub fn get_current_session_mut(&mut self) -> (r: Option<&mut ChatSession>)
        requires
            old(self).wf(),
        ensures
            r is Some <==> old(self)@.current is Some,
            r is None ==> *final(self) == *old(self),
            r matches Some(s) ==> s@ == old(self)@.session(old(self)@.current->0) && final(self)@
                == old(self)@.with_session(old(self)@.current->0, final(s)@),
            final(self)@.same_ids(old(self)@),
            final(self).wf(),
    {
        let found = match &self.current_session_id {
            None => None,
            Some(id) => self.find(id),
        };
        match found {
            None => None,
            Some(i) => {
                proof {
                    let id = old(self)@.current->0;
                    assert forall|w: ManagerView| #[trigger]
                        w.same_ids(old(self)@) implies w.wf() by {
                        lemma_same_ids_keep_wf(old(self)@, w);
                    }
                }
                Some(self.session_slot(i))
            },
        }
    }

    /// Appends `message` to the active session and stamps that session with
    /// the current time. Where no session is active, nothing changes.
    pub fn add_message_to_current(&mut self, message: Message) -> (r: Result<(), ChatError>)
        requires
            old(self).wf(),
        ensures
            final(self).wf(),
            old(self)@.current is Some ==> r == Ok::<(), ChatError>(()) && exists|now: Timestamp|
                final(self)@ == old(self)@.appended_to(old(self)@.current->0, message, now),
            old(self)@.current is None ==> r == Err::<(), ChatError>(ChatError::NoActiveSession)
                && final(self)@ == old(self)@,
    {
        let now = current_time();
        self.add_message_to_current_at(message, now)
    }

    /// Appends `message` to the active session and stamps that session with
    /// `now`. Where no session is active, nothing changes.
    pub fn add_message_to_current_at(&mut self, message: Message, now: Timestamp) -> (r: Result<
        (),
        ChatError,
    >)
        requires
            old(self).wf(),
        ensures
            final(self).wf(),
            old(self)@.current is Some ==> r == Ok::<(), ChatError>(()) && final(self)@ == old(
                self,
            )@.appended_to(old(self)@.current->0, message, now),
            old(self)@.current is None ==> r == Err::<(), ChatError>(ChatError::NoActiveSession)
                && final(self)@ == old(self)@,
    {
        match self.get_current_session_mut() {
            Some(session) => {
                session.add_message_at(message, now);
                Ok(())
            },
            None => Err(ChatError::NoActiveSession),
        }
    }

    /// Appends `message` to the session under `id`, whether it is active or
    /// not, and stamps that session with `now`. Where no session is registered
    /// under `id`, nothing changes: a deleted session is not brought back.
    pub fn add_message_to_at(&mut self, id: &str, message: Message, now: Timestamp) -> (r: Result<
        (),
        ChatError,
    >)
        requires
            old(self).wf(),
        ensures
            final(self).wf(),
            old(self)@.contains(id@) ==> r == Ok::<(), ChatError>(()) && final(self)@ == old(
                self,
            )@.appended_to(id@, message, now),
            !old(self)@.contains(id@) ==> r == Err::<(), ChatError>(ChatError::SessionNotFound)
                && final(self)@ == old(self)@,
    {
        let key = id.to_owned();
        match self.find(&key) {
            Some(i) => {
                self.entries[i].session.add_message_at(message, now);
                proof {
                    lemma_with_session_is_wf(
                        old(self)@,
                        id@,
                        old(self)@.session(id@).appended(message, now),
                    );
                    assert(final(self)@.entries =~= old(self)@.appended_to(
                        id@,
                        message,
                        now,
                    ).entries);
                }
                Ok(())
            },
            None => Err(ChatError::SessionNotFound),
        }
    }

    /// Every session, in the order of registration.
    pub fn get_all_sessions(&self) -> (all: Vec<&ChatSession>)
        ensures
            all@.len() == self@.len(),
            forall|i: int| 0 <= i < all@.len() ==> (#[trigger] all@[i])@ == self@.entries[i].session,
    {
        let mut all: Vec<&ChatSession> = Vec::new();
        let mut i: usize = 0;
        while i < self.entries.len()
            invariant
                i <= self.entries@.len(),
                all@.len() == i,
                forall|j: int| 0 <= j < i ==> (#[trigger] all@[j])@ == self.entries@[j].session@,
            decreases self.entries@.len() - i,
        {
            all.push(&self.entries[i].session);
            i += 1;
        }
        all
    }
}

/// Creating a session keeps the registry well formed and registers the new
/// session under its identifier.
pub proof fn lemma_created_is_registered(
    m: ManagerView,
    id: Seq<char>,
    title: Seq<char>,
    now: Timestamp,
)
    requires
        m.wf(),
    ensures
        m.created(id, title, now).wf(),
        m.created(id, title, now).contains(id),
        m.created(id, title, now).session(id) == SessionView::fresh(id, title, now),
        m.created(id, title, now).current == Some(id),
        m.created(id, title, now).len() == m.len() + if m.contains(id) { 0int } else { 1int },
{
    let c = m.created(id, title, now);
    let rest = m.without(id);
    lemma_without_drops_id(m, id);
    let last = rest.len() as int;
    assert(c.entries[last].id == id);
    assert forall|i: int, j: int| 0 <= i < j < c.entries.len() implies c.entries[i].id
        != c.entries[j].id by {
        if j < last {
            assert(c.entries[i] == rest[i] && c.entries[j] == rest[j]);
        } else {
            assert(c.entries[i] == rest[i]);
        }
    }
    assert(c.wf());
    lemma_position_is_unique(c, last);
}

/// After a creation under `id` exactly the sessions registered before and
/// the one under `id` are registered, and every other session is as it was.
pub proof fn lemma_created_keeps_others(
    m: ManagerView,
    id: Seq<char>,
    title: Seq<char>,
    now: Timestamp,
    other: Seq<char>,
)
    requires
        m.wf(),
    ensures
        m.created(id, title, now).contains(other) <==> other == id || m.contains(other),
        other != id && m.contains(other) ==> m.created(id, title, now).session(other)
            == m.session(other),
{
    let c = m.created(id, title, now);
    let rest = m.without(id);
    lemma_created_is_registered(m, id, title, now);
    lemma_without_drops_id(m, id);
    if c.contains(other) && other != id {
        let q = c.position(other);
        assert(c.entries[q].id == other);
        assert(q < rest.len());
        assert(rest[q].id == other);
        if m.contains(id) {
            let p = m.position(id);
            let k = if q < p {
                q
            } else {
                q + 1
            };
            assert(m.entries[k].id == other);
        } else {
            assert(m.entries[q].id == other);
        }
    }
    if other != id && m.contains(other) {
        let i = choose|i: int|
            0 <= i < rest.len() && #[trigger] rest[i].id == other && rest[i] == m.entries[m.position(
                other,
            )];
        assert(c.entries[i] == rest[i]);
        assert(c.entries[i].id == other);
        lemma_position_is_unique(c, i);
    }
}

/// Over any run of creations and deletions in which every creation draws an
/// identifier that is not registered at that moment and every deletion names a
/// session that is: the registry stays well formed, and it holds as many
/// sessions as were there before or were created, less those deleted.
pub proof fn lemma_live_sessions_are_counted(m: ManagerView, ops: Seq<RegistryOp>)
    requires
        m.wf(),
        forall|k: int|
            0 <= k < ops.len() ==> match #[trigger] ops[k] {
                RegistryOp::Create { id, .. } => !m.applied_all(ops.take(k)).contains(id),
                RegistryOp::Delete { id } => m.applied_all(ops.take(k)).contains(id),
            },
    ensures
        m.applied_all(ops).wf(),
        m.applied_all(ops).len() == m.len() + creations(ops) - deletions(ops),
    decreases ops.len(),
{
    if ops.len() > 0 {
        let earlier = ops.drop_last();
        assert forall|k: int| 0 <= k < earlier.len() implies match #[trigger] earlier[k] {
            RegistryOp::Create { id, .. } => !m.applied_all(earlier.take(k)).contains(id),
            RegistryOp::Delete { id } => m.applied_all(earlier.take(k)).contains(id),
        } by {
            assert(earlier[k] == ops[k]);
            assert(earlier.take(k) =~= ops.take(k));
        }
        lemma_live_sessions_are_counted(m, earlier);
        let before = m.applied_all(earlier);
        let last = ops[ops.len() - 1];
        assert(ops.take(ops.len() - 1) =~= earlier);
        match last {
            RegistryOp::Create { id, title, now } => {
                lemma_created_is_registered(before, id, title, now);
            },
            RegistryOp::Delete { id } => {
                lemma_deleted_is_wf(before, id);
            },
        }
    }
}

/// After a deletion of the session under `id` exactly the other sessions are
/// registered, and each of them is as it was.
pub proof fn lemma_deleted_keeps_others(m: ManagerView, id: Seq<char>, other: Seq<char>)
    requires
        m.wf(),
        other != id,
    ensures
        m.deleted(id).contains(other) <==> m.contains(other),
        m.contains(other) ==> m.deleted(id).session(other) == m.session(other),
{
    let d = m.deleted(id);
    let rest = m.without(id);
    lemma_deleted_is_wf(m, id);
    lemma_without_drops_id(m, id);
    if d.contains(other) {
        let q = d.position(other);
        assert(rest[q].id == other);
        if m.contains(id) {
            let p = m.position(id);
            let k = if q < p {
                q
            } else {
                q + 1
            };
            assert(m.entries[k].id == other);
        } else {
            assert(m.entries[q].id == other);
        }
    }
    if m.contains(other) {
        let i = choose|i: int|
            0 <= i < rest.len() && #[trigger] rest[i].id == other && rest[i] == m.entries[m.position(
                other,
            )];
        assert(d.entries[i].id == other);
        lemma_position_is_unique(d, i);
    }
}

/// Taking an identifier out of a well-formed registry leaves the other
/// entries in their order, without duplicates and without that identifier.
pub proof fn lemma_without_drops_id(m: ManagerView, id: Seq<char>)
    requires
        m.wf(),
    ensures
        forall|i: int, j: int|
            0 <= i < j < m.without(id).len() ==> m.without(id)[i].id != m.without(id)[j].id,
        forall|i: int| 0 <= i < m.without(id).len() ==> (#[trigger] m.without(id)[i]).id != id,
        m.without(id).len() == m.len() - if m.contains(id) { 1int } else { 0int },
        forall|other: Seq<char>|
            other != id && m.contains(other) ==> exists|i: int|
                0 <= i < m.without(id).len() && #[trigger] m.without(id)[i].id == other
                    && m.without(id)[i] == m.entries[m.position(other)],
{
    let rest = m.without(id);
    if m.contains(id) {
        let p = m.position(id);
        assert(0 <= p < m.entries.len() && m.entries[p].id == id);
        assert forall|i: int| 0 <= i < rest.len() implies rest[i] == m.entries[if i < p {
            i
        } else {
            i + 1
        }] by {}
        assert forall|other: Seq<char>| other != id && m.contains(other) implies exists|i: int|
            0 <= i < rest.len() && #[trigger] rest[i].id == other && rest[i]
                == m.entries[m.position(other)] by {
            let q = m.position(other);
            assert(0 <= q < m.entries.len() && m.entries[q].id == other);
            let i = if q < p {
                q
            } else {
                q - 1
            };
            assert(rest[i] == m.entries[q]);
        }
    } else {
        assert forall|i: int| 0 <= i < rest.len() implies (#[trigger] rest[i]).id != id by {
            if rest[i].id == id {
                assert(m.entries[i].id == id);
            }
        }
        assert forall|other: Seq<char>| other != id && m.contains(other) implies exists|i: int|
            0 <= i < rest.len() && #[trigger] rest[i].id == other && rest[i]
                == m.entries[m.position(other)] by {
            let q = m.position(other);
            assert(0 <= q < m.entries.len() && m.entries[q].id == other);
            assert(rest[q] == m.entries[q]);
        }
    }
}

/// A registry with the identifiers and the active session of a well-formed
/// one is well formed.
pub proof fn lemma_same_ids_keep_wf(m: ManagerView, w: ManagerView)
    requires
        m.wf(),
        w.same_ids(m),
    ensures
        w.wf(),
        forall|id: Seq<char>| m.contains(id) <==> w.contains(id),
        forall|id: Seq<char>| m.contains(id) ==> m.position(id) == w.position(id),
{
    assert forall|i: int, j: int| 0 <= i < j < w.entries.len() implies w.entries[i].id
        != w.entries[j].id by {
        assert(m.entries[i].id != m.entries[j].id);
    }
    assert forall|id: Seq<char>| m.contains(id) <==> w.contains(id) by {
        if m.contains(id) {
            let q = m.position(id);
            assert(w.entries[q].id == id);
        }
        if w.contains(id) {
            let q = w.position(id);
            assert(w.entries[q].id == id);
            assert(m.entries[q].id == id);
        }
    }
    assert(w.wf());
    assert forall|id: Seq<char>| m.contains(id) implies m.position(id) == w.position(id) by {
        let q = m.position(id);
        assert(w.entries[q].id == id);
        lemma_position_is_unique(w, q);
    }
}

/// Putting another session in the place of a registered one keeps the
/// identifiers, their order and the active session.
pub proof fn lemma_with_session_is_wf(m: ManagerView, id: Seq<char>, session: SessionView)
    requires
        m.wf(),
        m.contains(id),
    ensures
        m.with_session(id, session).wf(),
        m.with_session(id, session).len() == m.len(),
        m.with_session(id, session).current == m.current,
        m.with_session(id, session).contains(id),
        m.with_session(id, session).session(id) == session,
        forall|other: Seq<char>|
            m.contains(other) <==> #[trigger] m.with_session(id, session).contains(other),
        forall|other: Seq<char>|
            other != id && m.contains(other) ==> #[trigger] m.with_session(id, session).session(
                other,
            ) == m.session(other),
{
    let w = m.with_session(id, session);
    let p = m.position(id);
    assert(0 <= p < m.entries.len() && m.entries[p].id == id);
    assert forall|i: int| 0 <= i < m.entries.len() implies (#[trigger] w.entries[i]).id
        == m.entries[i].id by {}
    assert forall|i: int, j: int| 0 <= i < j < w.entries.len() implies w.entries[i].id
        != w.entries[j].id by {
        assert(m.entries[i].id != m.entries[j].id);
    }
    assert forall|other: Seq<char>| m.contains(other) <==> #[trigger] w.contains(other) by {
        if m.contains(other) {
            let q = m.position(other);
            assert(m.entries[q].id == other);
            assert(w.entries[q].id == other);
        }
        if w.contains(other) {
            let q = w.position(other);
            assert(w.entries[q].id == other);
            assert(m.entries[q].id == other);
        }
    }
    assert(w.wf());
    lemma_position_is_unique(w, p);
    assert forall|other: Seq<char>| other != id && m.contains(other) implies #[trigger] w.session(
        other,
    ) == m.session(other) by {
        let q = m.position(other);
        assert(0 <= q < m.entries.len() && m.entries[q].id == other);
        assert(w.entries[q].id == other);
        lemma_position_is_unique(w, q);
    }
}

/// Deleting a session never leaves the active identifier dangling: after the
/// deletion it is unset or names a session that is still registered.
pub proof fn lemma_deleted_is_wf(m: ManagerView, id: Seq<char>)
    requires
        m.wf(),
    ensures
        m.deleted(id).wf(),
        m.deleted(id).current matches Some(c) ==> m.deleted(id).contains(c),
        !m.deleted(id).contains(id),
        m.deleted(id).len() == m.len() - if m.contains(id) { 1int } else { 0int },
{
    let d = m.deleted(id);
    let rest = m.without(id);
    lemma_without_drops_id(m, id);
    assert(d.entries == rest);
    assert forall|i: int, j: int| 0 <= i < j < d.entries.len() implies d.entries[i].id
        != d.entries[j].id by {
        assert(rest[i].id != rest[j].id);
    }
    if m.current == Some(id) {
        if rest.len() > 0 {
            let last = rest.len() - 1;
            assert(d.entries[last].id == d.current->0);
            assert(d.contains(d.current->0));
        }
    } else if m.current is Some {
        let c = m.current->0;
        assert(m.contains(c) && c != id);
        let i = choose|i: int|
            0 <= i < rest.len() && #[trigger] rest[i].id == c && rest[i] == m.entries[m.position(
                c,
            )];
        assert(d.entries[i].id == c);
        assert(d.contains(c));
    }
    if d.contains(id) {
        let p = d.position(id);
        assert(rest[p].id == id);
    }
}

} // verus!
