//! The parts of the display that carry logic of their own.

pub mod chat;

pub use chat::Chat;
