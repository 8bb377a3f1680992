//! The ways in which an operation of this library can fail.

use vstd::prelude::*;

verus! {

/// Why an operation was refused or a request failed.
#[derive(Clone, Debug, PartialEq, Eq)]
pub enum ChatError {
    /// No session is registered under the given identifier.
    SessionNotFound,
    /// A message was to be appended while no session was active.
    NoActiveSession,
    /// The message holds something other than text, which cannot be sent yet.
    UnsupportedContent,
    /// The exchange with the remote service broke down; the reason is given.
    TransportFailure(String),
}

impl ChatError {
    /// The text that `message` returns.
    pub open spec fn message_text(self) -> Seq<char> {
        match self {
            ChatError::SessionNotFound => "Session not found"@,
            ChatError::NoActiveSession => "No active session"@,
            ChatError::UnsupportedContent => "Content not yet supported"@,
            ChatError::TransportFailure(reason) => reason@,
        }
    }

    /// A short description of the error for display.
    pub fn message(&self) -> (text: String)
        ensures
            text@ == self.message_text(),
    {
        match self {
            ChatError::SessionNotFound => "Session not found".to_owned(),
            ChatError::NoActiveSession => "No active session".to_owned(),
            ChatError::UnsupportedContent => "Content not yet supported".to_owned(),
            ChatError::TransportFailure(reason) => reason.clone(),
        }
    }
}

} // verus!
