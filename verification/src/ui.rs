//! What the display reads and the coordination of a request with it.

pub mod components;
pub mod state;
