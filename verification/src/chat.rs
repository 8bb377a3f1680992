//! Sessions and the registry that owns them.

pub mod session;
pub mod session_manager;

pub use session::ChatSession;
pub use session_manager::SessionManager;
