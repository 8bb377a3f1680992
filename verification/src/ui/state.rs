//! The state of a conversation that the display shows.

use vstd::prelude::*;

verus! {

/// Whether a request is outstanding, and the last error to show.
#[derive(Clone, Debug, PartialEq, Eq)]
pub struct ChatState {
    pub is_sending: bool,
    pub error: Option<String>,
}

impl Default for ChatState {
    /// No request outstanding and no error.
    fn default() -> (s: Self)
        ensures
            !s.is_sending,
            s.error is None,
    {
        ChatState { is_sending: false, error: None }
    }
}

} // verus!
