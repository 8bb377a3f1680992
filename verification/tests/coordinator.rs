use llm_client::chat::session_manager::SessionManager;
use llm_client::llm::client::ChoiceDelta;
use llm_client::llm::client::StreamingReply;
use llm_client::llm::client::TransportEvent;
use llm_client::llm::message::Message;
use llm_client::llm::message::MessageContent;
use llm_client::llm::message::Role;
use llm_client::llm::message::StreamMessage;
use llm_client::time::Timestamp;
use llm_client::ui::components::chat::Chat;
use llm_client::ui::components::chat::ChatMessage;
use llm_client::ui::components::chat::Phase;
use llm_client::ui::state::ChatState;

fn at(secs: i64) -> Timestamp {
    Timestamp { secs, nanos: 0 }
}

fn reply(text: &str, secs: i64) -> Message {
    Message {
        role: Role::Assistant,
        content: MessageContent::Text(text.to_string()),
        timestamp: at(secs),
    }
}

fn chunk(text: &str) -> StreamMessage {
    StreamMessage::Chunk(text.to_string())
}

fn two_sessions() -> SessionManager {
    let mut manager = SessionManager::new();
    manager.create_session_with("a".to_string(), "A".to_string(), at(1));
    manager.create_session_with("b".to_string(), "B".to_string(), at(2));
    manager.switch_session("a".to_string()).unwrap();
    manager
}

fn started(manager: &mut SessionManager) -> Chat {
    let mut chat = Chat::new();
    let mut input = "question".to_string();
    assert!(chat.begin_send_at(&mut input, manager, at(10)).is_some());
    chat
}

fn committed(manager: &SessionManager, id: &str) -> usize {
    manager.get_session(id).unwrap().messages.len()
}

#[test]
fn a_new_coordinator_is_idle() {
    let chat = Chat::new();
    assert_eq!(chat.phase(), Phase::Idle);
    assert!(!chat.is_sending());
    assert_eq!(chat.streaming_content(), None);
    assert_eq!(chat.error(), None);
    assert_eq!(chat.session_id(), None);
    assert_eq!(*chat.state(), ChatState::default());
}

#[test]
fn default_chat_state_has_no_request_and_no_error() {
    let state = ChatState::default();
    assert!(!state.is_sending);
    assert_eq!(state.error, None);
}

#[test]
fn sending_appends_the_user_message_and_empties_the_input() {
    let mut manager = two_sessions();
    let mut chat = Chat::new();
    let mut input = "What is Rust?".to_string();
    assert!(chat.can_send(&input, &manager));
    let sent = chat.begin_send_at(&mut input, &mut manager, at(10)).unwrap();
    assert_eq!(
        sent,
        Message {
            role: Role::User,
            content: MessageContent::Text("What is Rust?".to_string()),
            timestamp: at(10),
        }
    );
    assert_eq!(input, "");
    assert_eq!(chat.phase(), Phase::Sending);
    assert!(chat.is_sending());
    assert!(chat.state().is_sending);
    assert_eq!(chat.streaming_content(), Some(&String::new()));
    assert_eq!(chat.session_id(), Some(&"a".to_string()));
    let session = manager.get_session("a").unwrap();
    assert_eq!(session.messages.len(), 1);
    assert_eq!(session.messages[0], sent);
    assert_eq!(session.updated_at, at(10));
    assert_eq!(committed(&manager, "b"), 0);
}

#[test]
fn sending_by_the_clock() {
    let mut manager = two_sessions();
    let mut chat = Chat::new();
    let mut input = "hello".to_string();
    let sent = chat.begin_send(&mut input, &mut manager).unwrap();
    assert_eq!(sent.role, Role::User);
    assert_eq!(sent.content, MessageContent::Text("hello".to_string()));
    assert!(sent.timestamp.secs > 1_577_836_800);
    assert_eq!(input, "");
    assert_eq!(manager.get_session("a").unwrap().messages[0], sent);
    assert_eq!(manager.get_session("a").unwrap().updated_at, sent.timestamp);
}

#[test]
fn empty_input_is_not_sent() {
    let mut manager = two_sessions();
    let mut chat = Chat::new();
    let mut input = String::new();
    assert!(!chat.can_send(&input, &manager));
    assert_eq!(chat.begin_send_at(&mut input, &mut manager, at(10)), None);
    assert_eq!(chat.phase(), Phase::Idle);
    assert_eq!(committed(&manager, "a"), 0);
}

#[test]
fn a_second_send_is_rejected_while_a_request_is_outstanding() {
    let mut manager = two_sessions();
    let mut chat = started(&mut manager);
    let mut input = "another".to_string();
    assert!(!chat.can_send(&input, &manager));
    assert_eq!(chat.begin_send_at(&mut input, &mut manager, at(11)), None);
    assert_eq!(input, "another");
    assert_eq!(committed(&manager, "a"), 1);
    chat.handle_event_at(&mut manager, chunk("x"), at(12));
    assert_eq!(chat.begin_send_at(&mut input, &mut manager, at(13)), None);
    assert_eq!(chat.streaming_content(), Some(&"x".to_string()));
}

#[test]
fn nothing_is_sent_without_an_active_session() {
    let mut manager = SessionManager::new();
    let mut chat = Chat::new();
    let mut input = "hello".to_string();
    assert!(!chat.can_send(&input, &manager));
    assert_eq!(chat.begin_send_at(&mut input, &mut manager, at(10)), None);
    assert_eq!(input, "hello");
    assert_eq!(chat.phase(), Phase::Idle);
}

#[test]
fn chunks_then_done_commit_exactly_one_message() {
    let mut manager = two_sessions();
    let mut chat = started(&mut manager);
    let mut client = StreamingReply::new();
    let arrivals = vec![
        TransportEvent::Response(vec![ChoiceDelta {
            content: Some("Hello".to_string()),
            finished: false,
        }]),
        TransportEvent::Response(vec![ChoiceDelta {
            content: Some(" world".to_string()),
            finished: false,
        }]),
        TransportEvent::Response(vec![ChoiceDelta { content: None, finished: true }]),
    ];
    let mut events: Vec<StreamMessage> = Vec::new();
    for arrival in arrivals {
        events.extend(client.handle_at(arrival, at(20)));
    }
    assert_eq!(
        events,
        vec![chunk("Hello"), chunk(" world"), StreamMessage::Done(reply("Hello world", 20))]
    );

    chat.handle_event_at(&mut manager, events[0].clone(), at(21));
    assert_eq!(chat.phase(), Phase::Streaming);
    assert_eq!(chat.streaming_content(), Some(&"Hello".to_string()));
    assert_eq!(committed(&manager, "a"), 1);
    chat.handle_event_at(&mut manager, events[1].clone(), at(22));
    assert_eq!(chat.streaming_content(), Some(&"Hello world".to_string()));
    assert_eq!(committed(&manager, "a"), 1);
    chat.handle_event_at(&mut manager, events[2].clone(), at(23));

    let session = manager.get_session("a").unwrap();
    assert_eq!(session.messages.len(), 2);
    assert_eq!(session.messages[1], reply("Hello world", 20));
    assert_eq!(session.messages[1].content, MessageContent::Text("Hello world".to_string()));
    assert_eq!(session.updated_at, at(23));
    assert_eq!(chat.phase(), Phase::Idle);
    assert!(!chat.is_sending());
    assert_eq!(chat.streaming_content(), None);
    assert_eq!(chat.session_id(), None);
    assert_eq!(chat.error(), None);
    assert_eq!(committed(&manager, "b"), 0);
}

#[test]
fn a_failure_after_chunks_commits_nothing_and_exposes_the_reason() {
    let mut manager = two_sessions();
    let mut chat = started(&mut manager);
    chat.handle_event_at(&mut manager, chunk("Hel"), at(11));
    chat.handle_event_at(&mut manager, chunk("lo"), at(12));
    chat.handle_event_at(&mut manager, StreamMessage::Error("network error".to_string()), at(13));
    assert_eq!(chat.error(), Some(&"network error".to_string()));
    assert_eq!(chat.state().error, Some("network error".to_string()));
    assert!(!chat.state().is_sending);
    assert_eq!(chat.phase(), Phase::Idle);
    assert_eq!(chat.streaming_content(), None);
    // Only the user's own message is in the session.
    assert_eq!(committed(&manager, "a"), 1);
    assert_eq!(manager.get_session("a").unwrap().messages[0].role, Role::User);
    assert_eq!(manager.get_session("a").unwrap().updated_at, at(10));
    assert_eq!(committed(&manager, "b"), 0);
}

#[test]
fn done_for_a_deleted_session_is_dropped() {
    let mut manager = two_sessions();
    let mut chat = started(&mut manager);
    chat.handle_event_at(&mut manager, chunk("partial"), at(11));
    manager.delete_session("a").unwrap();
    chat.handle_event_at(&mut manager, StreamMessage::Done(reply("partial answer", 12)), at(12));
    assert!(!manager.contains_session("a"));
    assert_eq!(manager.session_count(), 1);
    assert_eq!(committed(&manager, "b"), 0);
    assert_eq!(manager.get_session("b").unwrap().updated_at, at(2));
    assert_eq!(chat.phase(), Phase::Idle);
    assert_eq!(chat.streaming_content(), None);
    assert_eq!(chat.error(), None);
}

#[test]
fn done_is_committed_to_the_session_of_the_request_after_a_switch() {
    let mut manager = two_sessions();
    let mut chat = started(&mut manager);
    manager.switch_session("b".to_string()).unwrap();
    chat.handle_event_at(&mut manager, StreamMessage::Done(reply("answer", 12)), at(12));
    assert_eq!(committed(&manager, "a"), 2);
    assert_eq!(manager.get_session("a").unwrap().messages[1], reply("answer", 12));
    assert_eq!(committed(&manager, "b"), 0);
    assert_eq!(manager.current_session_id(), Some(&"b".to_string()));
}

#[test]
fn events_without_a_request_are_dropped() {
    let mut manager = two_sessions();
    let mut chat = Chat::new();
    chat.handle_event_at(&mut manager, chunk("stray"), at(5));
    chat.handle_event_at(&mut manager, StreamMessage::Done(reply("stray", 5)), at(5));
    chat.handle_event_at(&mut manager, StreamMessage::Error("stray".to_string()), at(5));
    assert_eq!(chat.phase(), Phase::Idle);
    assert_eq!(chat.streaming_content(), None);
    assert_eq!(chat.error(), None);
    assert_eq!(committed(&manager, "a"), 0);
    assert_eq!(committed(&manager, "b"), 0);
}

#[test]
fn a_second_done_commits_nothing() {
    let mut manager = two_sessions();
    let mut chat = started(&mut manager);
    chat.handle_event_at(&mut manager, StreamMessage::Done(reply("answer", 12)), at(12));
    chat.handle_event_at(&mut manager, StreamMessage::Done(reply("answer", 12)), at(13));
    assert_eq!(committed(&manager, "a"), 2);
}

#[test]
fn the_error_stays_until_the_next_failure() {
    let mut manager = two_sessions();
    let mut chat = started(&mut manager);
    chat.handle_event_at(&mut manager, StreamMessage::Error("first".to_string()), at(11));
    let mut input = "again".to_string();
    assert!(chat.begin_send_at(&mut input, &mut manager, at(12)).is_some());
    assert_eq!(chat.error(), Some(&"first".to_string()));
    chat.handle_event_at(&mut manager, StreamMessage::Done(reply("ok", 13)), at(13));
    assert_eq!(chat.error(), Some(&"first".to_string()));
    assert_eq!(committed(&manager, "a"), 3);
}

#[test]
fn a_batch_of_events_is_taken_in_order() {
    let mut manager = two_sessions();
    let mut chat = started(&mut manager);
    let events = vec![chunk("Hello"), chunk(" world"), StreamMessage::Done(reply("Hello world", 20))];
    chat.handle_events_at(&mut manager, events, at(21));
    assert_eq!(chat.phase(), Phase::Idle);
    assert_eq!(committed(&manager, "a"), 2);
    assert_eq!(manager.get_session("a").unwrap().messages[1], reply("Hello world", 20));

    let mut other = started(&mut manager);
    other.handle_events_at(&mut manager, vec![chunk("par"), chunk("tial")], at(30));
    assert_eq!(other.phase(), Phase::Streaming);
    assert_eq!(other.streaming_content(), Some(&"partial".to_string()));
    other.handle_events_at(&mut manager, vec![], at(31));
    assert_eq!(other.streaming_content(), Some(&"partial".to_string()));
    assert_eq!(committed(&manager, "a"), 3);
}

#[test]
fn done_by_the_clock_is_committed() {
    let mut manager = two_sessions();
    let mut chat = started(&mut manager);
    chat.handle_event(&mut manager, chunk("an"));
    chat.handle_event(&mut manager, StreamMessage::Done(reply("answer", 12)));
    let session = manager.get_session("a").unwrap();
    assert_eq!(session.messages.len(), 2);
    assert_eq!(session.messages[1], reply("answer", 12));
    assert!(session.updated_at.secs > 1_577_836_800);
    assert_eq!(chat.phase(), Phase::Idle);
}

#[test]
fn chat_message_carries_a_chunk() {
    let message = ChatMessage::StreamChunk("abc".to_string());
    assert_eq!(message.clone(), ChatMessage::StreamChunk("abc".to_string()));
}

#[test]
fn pending_text_belongs_to_the_session_of_the_request() {
    let mut manager = two_sessions();
    let mut chat = started(&mut manager);
    assert_eq!(chat.pending_for("a"), Some(&String::new()));
    chat.handle_event_at(&mut manager, chunk("so far"), at(11));
    assert_eq!(chat.pending_for("a"), Some(&"so far".to_string()));
    assert_eq!(chat.pending_for("b"), None);
    assert_eq!(chat.pending_for(""), None);
    chat.handle_event_at(&mut manager, StreamMessage::Done(reply("so far", 12)), at(12));
    assert_eq!(chat.pending_for("a"), None);
    assert_eq!(Chat::new().pending_for("a"), None);
}
