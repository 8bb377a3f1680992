use llm_client::chat::session_manager::SessionManager;
use llm_client::error::ChatError;
use llm_client::llm::message::Message;
use llm_client::llm::message::MessageContent;
use llm_client::llm::message::Role;
use llm_client::time::Timestamp;

fn at(secs: i64) -> Timestamp {
    Timestamp { secs, nanos: 0 }
}

fn text(body: &str) -> Message {
    Message { role: Role::User, content: MessageContent::Text(body.to_string()), timestamp: at(1) }
}

fn three() -> SessionManager {
    let mut manager = SessionManager::new();
    manager.create_session_with("a".to_string(), "A".to_string(), at(1));
    manager.create_session_with("b".to_string(), "B".to_string(), at(2));
    manager.create_session_with("c".to_string(), "C".to_string(), at(3));
    manager
}

#[test]
fn new_registry_is_empty() {
    let manager = SessionManager::new();
    assert_eq!(manager.session_count(), 0);
    assert!(manager.get_all_sessions().is_empty());
    assert!(manager.get_current_session().is_none());
    assert!(manager.current_session_id().is_none());
}

#[test]
fn created_sessions_have_unique_ids_and_are_all_listed() {
    let mut manager = SessionManager::new();
    let mut ids: Vec<String> = Vec::new();
    for k in 0..25 {
        let id = manager.create_session(format!("chat {k}"));
        assert!(!ids.contains(&id));
        ids.push(id);
        assert_eq!(manager.get_all_sessions().len(), k + 1);
        assert_eq!(manager.session_count(), k + 1);
    }
    for id in &ids {
        assert!(manager.contains_session(id));
    }
    assert_eq!(manager.delete_session(&ids[3]), Ok(()));
    assert_eq!(manager.delete_session(&ids[10]), Ok(()));
    assert_eq!(manager.get_all_sessions().len(), 23);
    assert!(!manager.contains_session(&ids[3]));
    assert!(!manager.contains_session(&ids[10]));
}

#[test]
fn create_session_makes_the_new_session_active() {
    let mut manager = SessionManager::new();
    let first = manager.create_session("first".to_string());
    assert_eq!(manager.current_session_id(), Some(&first));
    let second = manager.create_session("second".to_string());
    assert_eq!(manager.current_session_id(), Some(&second));
    let current = manager.get_current_session().unwrap();
    assert_eq!(current.id, second);
    assert_eq!(current.title, "second");
    assert!(current.messages.is_empty());
    assert_eq!(current.created_at, current.updated_at);
}

#[test]
fn sessions_are_listed_in_the_order_of_creation() {
    let manager = three();
    let titles: Vec<String> = manager.get_all_sessions().iter().map(|s| s.title.clone()).collect();
    assert_eq!(titles, vec!["A".to_string(), "B".to_string(), "C".to_string()]);
}

#[test]
fn creating_under_a_registered_id_replaces_the_session() {
    let mut manager = three();
    assert_eq!(manager.add_message_to_at("a", text("old"), at(4)), Ok(()));
    let id = manager.create_session_with("a".to_string(), "A again".to_string(), at(9));
    assert_eq!(id, "a");
    assert_eq!(manager.session_count(), 3);
    let session = manager.get_session("a").unwrap();
    assert_eq!(session.title, "A again");
    assert!(session.messages.is_empty());
    assert_eq!(session.created_at, at(9));
    let ids: Vec<String> = manager.get_all_sessions().iter().map(|s| s.id.clone()).collect();
    assert_eq!(ids, vec!["b".to_string(), "c".to_string(), "a".to_string()]);
    assert_eq!(manager.current_session_id(), Some(&"a".to_string()));
}

#[test]
fn switch_to_a_registered_session() {
    let mut manager = three();
    assert_eq!(manager.switch_session("a".to_string()), Ok(()));
    assert_eq!(manager.get_current_session().unwrap().title, "A");
    assert_eq!(manager.session_count(), 3);
}

#[test]
fn switch_to_an_unknown_session_is_refused_and_changes_nothing() {
    let mut manager = three();
    assert_eq!(manager.switch_session("b".to_string()), Ok(()));
    assert_eq!(manager.switch_session("nowhere".to_string()), Err(ChatError::SessionNotFound));
    assert_eq!(manager.current_session_id(), Some(&"b".to_string()));
    assert_eq!(manager.session_count(), 3);
}

#[test]
fn switch_in_an_empty_registry_is_refused() {
    let mut manager = SessionManager::new();
    assert_eq!(manager.switch_session("a".to_string()), Err(ChatError::SessionNotFound));
    assert!(manager.current_session_id().is_none());
}

#[test]
fn deleting_the_active_session_activates_the_newest_remaining() {
    let mut manager = three();
    assert_eq!(manager.delete_session("c"), Ok(()));
    assert_eq!(manager.current_session_id(), Some(&"b".to_string()));
    assert!(manager.contains_session("b"));
    assert_eq!(manager.session_count(), 2);
}

#[test]
fn deleting_the_active_session_never_leaves_it_dangling() {
    let mut manager = three();
    assert_eq!(manager.switch_session("a".to_string()), Ok(()));
    assert_eq!(manager.delete_session("a"), Ok(()));
    let active = manager.current_session_id().cloned();
    assert_eq!(active, Some("c".to_string()));
    assert!(manager.contains_session(active.as_ref().unwrap()));
    assert!(manager.get_current_session().is_some());
    assert!(!manager.contains_session("a"));
}

#[test]
fn deleting_the_last_session_clears_the_active_one() {
    let mut manager = SessionManager::new();
    manager.create_session_with("only".to_string(), "t".to_string(), at(1));
    assert_eq!(manager.delete_session("only"), Ok(()));
    assert!(manager.current_session_id().is_none());
    assert!(manager.get_current_session().is_none());
    assert_eq!(manager.session_count(), 0);
}

#[test]
fn deleting_another_session_keeps_the_active_one() {
    let mut manager = three();
    assert_eq!(manager.delete_session("a"), Ok(()));
    assert_eq!(manager.current_session_id(), Some(&"c".to_string()));
    let ids: Vec<String> = manager.get_all_sessions().iter().map(|s| s.id.clone()).collect();
    assert_eq!(ids, vec!["b".to_string(), "c".to_string()]);
}

#[test]
fn deleting_an_unknown_session_is_refused_and_changes_nothing() {
    let mut manager = three();
    assert_eq!(manager.delete_session("nowhere"), Err(ChatError::SessionNotFound));
    assert_eq!(manager.session_count(), 3);
    assert_eq!(manager.current_session_id(), Some(&"c".to_string()));
    assert_eq!(manager.delete_session("a"), Ok(()));
    assert_eq!(manager.delete_session("a"), Err(ChatError::SessionNotFound));
}

#[test]
fn append_to_current_without_an_active_session_is_refused() {
    let mut manager = SessionManager::new();
    assert_eq!(manager.add_message_to_current(text("hello")), Err(ChatError::NoActiveSession));
    assert_eq!(
        manager.add_message_to_current_at(text("hello"), at(5)),
        Err(ChatError::NoActiveSession)
    );
    assert_eq!(manager.session_count(), 0);
}

#[test]
fn append_to_current_reaches_only_the_active_session() {
    let mut manager = three();
    assert_eq!(manager.switch_session("b".to_string()), Ok(()));
    assert_eq!(manager.add_message_to_current_at(text("one"), at(7)), Ok(()));
    assert_eq!(manager.add_message_to_current_at(text("two"), at(8)), Ok(()));
    let b = manager.get_session("b").unwrap();
    assert_eq!(b.messages.len(), 2);
    assert_eq!(b.messages[0], text("one"));
    assert_eq!(b.messages[1], text("two"));
    assert_eq!(b.updated_at, at(8));
    assert_eq!(b.created_at, at(2));
    assert!(manager.get_session("a").unwrap().messages.is_empty());
    assert!(manager.get_session("c").unwrap().messages.is_empty());
}

#[test]
fn append_to_current_by_the_clock() {
    let mut manager = SessionManager::new();
    let id = manager.create_session("t".to_string());
    assert_eq!(manager.add_message_to_current(text("hello")), Ok(()));
    let session = manager.get_session(&id).unwrap();
    assert_eq!(session.messages.len(), 1);
    assert_eq!(session.messages[0], text("hello"));
}

#[test]
fn append_to_a_session_by_id() {
    let mut manager = three();
    assert_eq!(manager.add_message_to_at("a", text("x"), at(9)), Ok(()));
    assert_eq!(manager.get_session("a").unwrap().messages.len(), 1);
    assert_eq!(manager.current_session_id(), Some(&"c".to_string()));
    assert_eq!(manager.add_message_to_at("zz", text("x"), at(9)), Err(ChatError::SessionNotFound));
    assert_eq!(manager.session_count(), 3);
}

#[test]
fn current_session_can_be_changed_in_place() {
    let mut manager = three();
    {
        let session = manager.get_current_session_mut().unwrap();
        assert_eq!(session.id, "c");
        session.add_message_at(text("direct"), at(11));
        session.title = "renamed".to_string();
    }
    let session = manager.get_session("c").unwrap();
    assert_eq!(session.title, "renamed");
    assert_eq!(session.messages.len(), 1);
    assert_eq!(manager.session_count(), 3);
    let mut empty = SessionManager::new();
    assert!(empty.get_current_session_mut().is_none());
}

#[test]
fn get_session_finds_only_registered_ids() {
    let manager = three();
    assert_eq!(manager.get_session("b").unwrap().title, "B");
    assert!(manager.get_session("B").is_none());
    assert!(manager.get_session("").is_none());
}

#[test]
fn error_messages() {
    assert_eq!(ChatError::SessionNotFound.message(), "Session not found");
    assert_eq!(ChatError::NoActiveSession.message(), "No active session");
    assert_eq!(ChatError::UnsupportedContent.message(), "Content not yet supported");
    assert_eq!(ChatError::TransportFailure("timed out".to_string()).message(), "timed out");
}
