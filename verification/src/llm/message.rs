//! Conversation turns and the events of a completion that is under way.

use crate::time::Timestamp;
use vstd::prelude::*;

verus! {

/// `serde_json::Value`, a JSON document. Its contents are not inspected here:
/// a value is carried through unchanged.
#[verifier::external_type_specification]
#[verifier::external_body]
pub struct ExJsonValue(serde_json::Value);

/// `Clone` for `serde_json::Value`: the copy is the same document.
pub assume_specification[ <serde_json::Value as Clone>::clone ](v: &serde_json::Value) -> (r:
    serde_json::Value)
    ensures
        r == *v,
;

/// Who speaks in a message.
#[derive(Clone, Copy, Debug, PartialEq, Eq, Structural)]
pub enum Role {
    System,
    User,
    Assistant,
}

impl Role {
    /// The text that `label` returns.
    pub open spec fn label_text(self) -> Seq<char> {
        match self {
            Role::User => "You: "@,
            Role::Assistant => "AI: "@,
            Role::System => "System: "@,
        }
    }

    /// The prefix under which a message of this speaker is shown.
    pub fn label(&self) -> (text: &'static str)
        ensures
            text@ == self.label_text(),
    {
        match self {
            Role::User => "You: ",
            Role::Assistant => "AI: ",
            Role::System => "System: ",
        }
    }
}

/// What a message carries.
#[derive(Debug, PartialEq)]
pub enum MessageContent {
    Text(String),
    Image { text: String, url: String },
    Function { name: String, arguments: serde_json::Value },
}

impl Clone for MessageContent {
    fn clone(&self) -> (r: Self)
        ensures
            r == *self,
    {
        match self {
            MessageContent::Text(text) => MessageContent::Text(text.clone()),
            MessageContent::Image { text, url } => MessageContent::Image {
                text: text.clone(),
                url: url.clone(),
            },
            MessageContent::Function { name, arguments } => MessageContent::Function {
                name: name.clone(),
                arguments: arguments.clone(),
            },
        }
    }
}

/// What a message carries, as mathematical values.
pub enum ContentView {
    Text(Seq<char>),
    Image { text: Seq<char>, url: Seq<char> },
    Function { name: Seq<char>, arguments: serde_json::Value },
}

impl View for MessageContent {
    type V = ContentView;

    open spec fn view(&self) -> ContentView {
        match *self {
            MessageContent::Text(text) => ContentView::Text(text@),
            MessageContent::Image { text, url } => ContentView::Image { text: text@, url: url@ },
            MessageContent::Function { name, arguments } => ContentView::Function {
                name: name@,
                arguments,
            },
        }
    }
}

impl MessageContent {
    /// The text, where the content is plain text.
    pub fn as_text(&self) -> (r: Option<&String>)
        ensures
            r is Some <==> self@ is Text,
            r matches Some(text) ==> self@ == ContentView::Text(text@),
    {
        match self {
            MessageContent::Text(text) => Some(text),
            _ => None,
        }
    }
}

/// One turn of a conversation.
#[derive(Debug, PartialEq)]
pub struct Message {
    pub role: Role,
    pub content: MessageContent,
    pub timestamp: Timestamp,
}

impl Clone for Message {
    fn clone(&self) -> (r: Self)
        ensures
            r == *self,
    {
        Message { role: self.role, content: self.content.clone(), timestamp: self.timestamp }
    }
}

/// One turn of a conversation, as mathematical values.
pub struct MessageView {
    pub role: Role,
    pub content: ContentView,
    pub timestamp: Timestamp,
}

impl View for Message {
    type V = MessageView;

    open spec fn view(&self) -> MessageView {
        MessageView { role: self.role, content: self.content@, timestamp: self.timestamp }
    }
}

/// One unit of progress of a completion request.
#[derive(Debug, PartialEq)]
pub enum StreamMessage {
    /// A fragment of the reply, in the order of arrival.
    Chunk(String),
    /// The finished reply. Nothing follows it.
    Done(Message),
    /// The reason why the request failed. Nothing follows it.
    Error(String),
}

impl Clone for StreamMessage {
    fn clone(&self) -> (r: Self)
        ensures
            r == *self,
    {
        match self {
            StreamMessage::Chunk(text) => StreamMessage::Chunk(text.clone()),
            StreamMessage::Done(message) => StreamMessage::Done(message.clone()),
            StreamMessage::Error(reason) => StreamMessage::Error(reason.clone()),
        }
    }
}

/// One unit of progress of a completion request, as mathematical values.
pub enum StreamMessageView {
    Chunk(Seq<char>),
    Done(MessageView),
    Error(Seq<char>),
}

impl StreamMessageView {
    /// The event ends its request: it is `Done` or `Error`.
    pub open spec fn is_terminal(self) -> bool {
        !(self is Chunk)
    }
}

impl View for StreamMessage {
    type V = StreamMessageView;

    open spec fn view(&self) -> StreamMessageView {
        match *self {
            StreamMessage::Chunk(text) => StreamMessageView::Chunk(text@),
            StreamMessage::Done(message) => StreamMessageView::Done(message@),
            StreamMessage::Error(reason) => StreamMessageView::Error(reason@),
        }
    }
}

/// The views of the events of `events`, in their order.
pub open spec fn stream_views(events: Seq<StreamMessage>) -> Seq<StreamMessageView> {
    Seq::new(events.len(), |i: int| events[i]@)
}

} // verus!
