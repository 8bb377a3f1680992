//! The message model and the completion client's decisions.

pub mod client;
pub mod message;

pub use message::Message;
pub use message::MessageContent;
pub use message::Role;
pub use message::StreamMessage;
