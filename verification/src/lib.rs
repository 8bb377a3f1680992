//! Session and streaming coordination for a chat client.

pub mod chat;
pub mod error;
pub mod llm;
pub mod time;
pub mod ui;
