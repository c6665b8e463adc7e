//! What the main window remembers of the runtime's events.
use vstd::prelude::*;

use crate::app_core::contract::AppEvent;

verus! {

/// The presenter state of the main window.
#[derive(Debug)]
pub struct MainWindowApp {
    pub has_seen_snapshot: bool,
}

impl MainWindowApp {
    /// The presenter of a new main window: it has seen no snapshot yet.
    pub fn new() -> (a: Self)
        ensures
            !a.has_seen_snapshot,
    {
        MainWindowApp { has_seen_snapshot: false }
    }

    /// A window that has seen no snapshot yet.
    pub fn new_for_test() -> (a: Self)
        ensures
            !a.has_seen_snapshot,
    {
        MainWindowApp { has_seen_snapshot: false }
    }

    /// A snapshot event is remembered; other events change nothing.
    pub fn on_runtime_event(&mut self, event: AppEvent)
        ensures
            final(self).has_seen_snapshot == (old(self).has_seen_snapshot
                || event is SnapshotUpdated),
    {
        if let AppEvent::SnapshotUpdated(_) = event {
            self.has_seen_snapshot = true;
        }
    }
}

} // verus!
