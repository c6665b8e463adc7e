//! The floating widget: a small always-on-top circle with the unread count.
pub mod app;
pub mod hit_test;
pub mod state;

use vstd::prelude::*;

use crate::app_core::contract::AppCommand;
use crate::domain::SignalKey;

verus! {

/// The widget's mark-read button marks the signal read.
pub fn mark_read_command(key: SignalKey) -> (c: AppCommand)
    ensures
        c matches AppCommand::MarkRead { key: k, read } && k@ == key@ && read,
{
    AppCommand::MarkRead { key, read: true }
}

/// The widget's poll button asks for a poll now.
pub fn force_poll_command() -> (c: AppCommand)
    ensures
        c matches AppCommand::ForcePoll,
{
    AppCommand::ForcePoll
}

} // verus!
