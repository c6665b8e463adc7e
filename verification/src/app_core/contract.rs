//! The commands that adapters send to the runtime and the events it answers
//! with.
use vstd::prelude::*;

use crate::api::{SignalPage, SignalState};
use crate::collections::{KeySet, SignalMap};
use crate::domain::{KeyView, SignalKey};

verus! {

/// An optional text, by its characters.
pub open spec fn opt_text(o: Option<String>) -> Option<Seq<char>> {
    match o {
        Some(s) => Some(s@),
        None => None,
    }
}

/// A copy of an optional text.
pub fn copy_opt_text(o: &Option<String>) -> (r: Option<String>)
    ensures
        opt_text(r) == opt_text(*o),
{
    match o {
        Some(s) => Some(s.clone()),
        None => None,
    }
}

/// What the adapters show: the signals, the pending mark-reads, the unread
/// count and the health of polling.
#[derive(Debug)]
pub struct AppSnapshot {
    pub signals: SignalMap,
    pub pending_read: KeySet,
    pub unread_count: usize,
    pub last_poll_ms: Option<i64>,
    pub last_poll_ok: Option<bool>,
    pub consecutive_poll_failures: u32,
    pub last_meta: Option<(u64, u32, u32)>,
    pub last_poll_error: Option<String>,
    pub last_error: Option<String>,
}

/// The mathematical value of a snapshot.
pub struct SnapshotView {
    pub signals: Map<KeyView, SignalState>,
    pub pending_read: Set<KeyView>,
    pub unread_count: nat,
    pub last_poll_ms: Option<i64>,
    pub last_poll_ok: Option<bool>,
    pub consecutive_poll_failures: u32,
    pub last_meta: Option<(u64, u32, u32)>,
    pub last_poll_error: Option<Seq<char>>,
    pub last_error: Option<Seq<char>>,
}

impl View for AppSnapshot {
    type V = SnapshotView;

    open spec fn view(&self) -> SnapshotView {
        SnapshotView {
            signals: self.signals@,
            pending_read: self.pending_read@,
            unread_count: self.unread_count as nat,
            last_poll_ms: self.last_poll_ms,
            last_poll_ok: self.last_poll_ok,
            consecutive_poll_failures: self.consecutive_poll_failures,
            last_meta: self.last_meta,
            last_poll_error: opt_text(self.last_poll_error),
            last_error: opt_text(self.last_error),
        }
    }
}

impl Default for AppSnapshot {
    fn default() -> (s: Self)
        ensures
            s@.signals == Map::<KeyView, SignalState>::empty(),
            s@.pending_read == Set::<KeyView>::empty(),
            s.unread_count == 0,
            s.last_poll_ms is None,
            s.last_poll_ok is None,
            s.consecutive_poll_failures == 0,
            s.last_meta is None,
            s.last_poll_error is None,
            s.last_error is None,
    {
        AppSnapshot {
            signals: SignalMap::new(),
            pending_read: KeySet::new(),
            unread_count: 0,
            last_poll_ms: None,
            last_poll_ok: None,
            consecutive_poll_failures: 0,
            last_meta: None,
            last_poll_error: None,
            last_error: None,
        }
    }
}

impl Clone for AppSnapshot {
    fn clone(&self) -> (r: Self)
        ensures
            r@ == self@,
    {
        AppSnapshot {
            signals: self.signals.duplicate(),
            pending_read: self.pending_read.duplicate(),
            unread_count: self.unread_count,
            last_poll_ms: self.last_poll_ms,
            last_poll_ok: self.last_poll_ok,
            consecutive_poll_failures: self.consecutive_poll_failures,
            last_meta: self.last_meta,
            last_poll_error: copy_opt_text(&self.last_poll_error),
            last_error: copy_opt_text(&self.last_error),
        }
    }
}

/// The windows that the shell manages.
#[derive(Debug, Clone, Copy, PartialEq, Eq, Hash, Structural)]
pub enum WindowId {
    Main,
    Widget,
}

/// What the shell is asked to do with the native windows.
#[derive(Debug, Clone, Copy, PartialEq, Eq, Structural)]
pub enum ShellCommand {
    ShowWindow(WindowId),
    HideWindow(WindowId),
    FocusWindow(WindowId),
    ExitProcess,
}

/// What an adapter asks of the runtime.
#[derive(Debug, Clone)]
pub enum AppCommand {
    ForcePoll,
    MarkRead { key: SignalKey, read: bool },
    MarkGroupRead { group_id: String },
    RequestCloseMainWindow,
    RequestShowMainWindow,
    RequestExitApp,
    RequestShowWidget,
    RequestHideWidget,
}

/// What the runtime tells the adapters.
#[derive(Debug, Clone)]
pub enum AppEvent {
    SnapshotUpdated(AppSnapshot),
    PollerSnapshot { fetched_at_ms: i64, page: SignalPage },
    PollFailed { error: String },
    MarkReadSynced { key: SignalKey },
    SyncFailed { key: SignalKey, error: String },
    WidgetVisibilityChanged { visible: bool },
    ShellCommand(ShellCommand),
}

} // verus!
