//! A compact snapshot: the unread count and the last poll error.
use vstd::prelude::*;

use crate::app_core::contract::opt_text;

verus! {

/// The unread count and the last poll error.
#[derive(Debug, Clone, PartialEq, Eq)]
pub struct AppSnapshot {
    pub unread_count: usize,
    pub last_poll_error: Option<String>,
}

impl Default for AppSnapshot {
    fn default() -> (s: Self)
        ensures
            s.unread_count == 0,
            opt_text(s.last_poll_error) is None,
    {
        AppSnapshot { unread_count: 0, last_poll_error: None }
    }
}

} // verus!
