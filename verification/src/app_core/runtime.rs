//! The decisions of the runtime: how each command and each poller event
//! changes the state and what is sent out in answer, in order.
use vstd::prelude::*;

use crate::app_core::contract::{AppCommand, AppEvent, AppSnapshot, ShellCommand, SnapshotView, WindowId};
use crate::app_core::policy::window_lifecycle::{close_action, close_action_for_request, CloseAction};
use crate::app_core::state::{
    mark_read_requested, mark_read_synced, newly_unread, poll_failed, snapshot_applied,
    snapshot_of, sync_failed, AppState, StateView,
};
use crate::app_core::queries::unread::strictly_sorted;
use crate::collections::key_views;
use crate::domain::{KeyView, SignalKey};
use crate::poller::{PollerCommand, PollerEvent};

verus! {

/// What the runtime loop is told: an adapter's command, whether a tray icon
/// exists, or to stop.
#[derive(Debug)]
pub enum RuntimeCommand {
    App(AppCommand),
    SetTrayAvailable(bool),
    Shutdown,
}

/// One thing the runtime sends out.
#[derive(Debug)]
pub enum RuntimeAction {
    /// A command for the poller.
    ToPoller(PollerCommand),
    /// An event for every adapter.
    Broadcast(AppEvent),
    /// The latest snapshot, for the snapshot watchers.
    PublishSnapshot(AppSnapshot),
    /// Signals that a poll newly made unread, for the alerts.
    NotifyNewUnread(Vec<SignalKey>),
}

/// `a` publishes a snapshot with value `snap`.
pub open spec fn publishes(a: RuntimeAction, snap: SnapshotView) -> bool {
    a matches RuntimeAction::PublishSnapshot(s) && s@ == snap
}

/// `a` broadcasts that the snapshot is now `snap`.
pub open spec fn broadcasts_snapshot(a: RuntimeAction, snap: SnapshotView) -> bool {
    a matches RuntimeAction::Broadcast(AppEvent::SnapshotUpdated(s)) && s@ == snap
}

/// `a` broadcasts the shell command `c`.
pub open spec fn broadcasts_shell(a: RuntimeAction, c: ShellCommand) -> bool {
    a matches RuntimeAction::Broadcast(AppEvent::ShellCommand(x)) && x == c
}

/// `a` broadcasts that the widget is now shown or hidden.
pub open spec fn broadcasts_widget(a: RuntimeAction, visible: bool) -> bool {
    a matches RuntimeAction::Broadcast(AppEvent::WidgetVisibilityChanged { visible: v }) && v
        == visible
}

/// `acts[i]` and `acts[i + 1]` publish the snapshot of `s`, as
/// `publish_snapshot` does.
pub open spec fn publishes_at(acts: Seq<RuntimeAction>, i: int, s: StateView) -> bool {
    &&& publishes(acts[i], snapshot_of(s))
    &&& broadcasts_snapshot(acts[i + 1], snapshot_of(s))
}

/// The shell command that answers a close request, if any.
pub open spec fn close_shell_command(tray_available: bool) -> Option<ShellCommand> {
    match close_action(true, false, tray_available) {
        Some(CloseAction::MinimizeToTray) => Some(ShellCommand::HideWindow(WindowId::Main)),
        Some(CloseAction::CloseApp) => Some(ShellCommand::ExitProcess),
        None => None,
    }
}

/// Closing the main window hides it to the tray where a tray icon exists,
/// and exits the app where none does.
pub proof fn law_close_request_policy(tray_available: bool)
    ensures
        close_shell_command(tray_available) == Some(
            if tray_available {
                ShellCommand::HideWindow(WindowId::Main)
            } else {
                ShellCommand::ExitProcess
            },
        ),
{
}

/// The state of the runtime loop: the application state and whether a tray
/// icon exists.
#[derive(Debug)]
pub struct RuntimeCore {
    pub state: AppState,
    pub tray_available: bool,
}

impl RuntimeCore {
    /// A runtime with no signals and no tray icon yet.
    pub fn new() -> (r: Self)
        ensures
            r.state@ == crate::app_core::state::initial_state(),
            !r.tray_available,
    {
        RuntimeCore { state: AppState::default(), tray_available: false }
    }

    /// Sends the snapshot of the state to the watchers and the adapters.
    fn publish_snapshot(&self, actions: &mut Vec<RuntimeAction>)
        ensures
            final(actions)@.len() == old(actions)@.len() + 2,
            forall|i: int| 0 <= i < old(actions)@.len() ==> final(actions)@[i] == old(actions)@[i],
            publishes_at(final(actions)@, old(actions)@.len() as int, self.state@),
    {
        let snapshot = self.state.to_snapshot();
        actions.push(RuntimeAction::PublishSnapshot(snapshot.clone()));
        actions.push(RuntimeAction::Broadcast(AppEvent::SnapshotUpdated(snapshot)));
    }

    /// Takes in a command of an adapter.
    pub fn handle_app_command(&mut self, command: AppCommand) -> (actions: Vec<RuntimeAction>)
        ensures
            final(self).tray_available == old(self).tray_available,
            match command {
                AppCommand::ForcePoll => {
                    &&& final(self).state@ == old(self).state@
                    &&& actions@.len() == 1
                    &&& actions@[0] matches RuntimeAction::ToPoller(PollerCommand::ForcePoll)
                },
                AppCommand::MarkRead { key, read } => {
                    &&& final(self).state@ == (if read {
                        mark_read_requested(old(self).state@, key@)
                    } else {
                        old(self).state@
                    })
                    &&& actions@.len() == 3
                    &&& publishes_at(actions@, 0, final(self).state@)
                    &&& actions@[2] matches RuntimeAction::ToPoller(
                        PollerCommand::MarkRead { key: k, read: r },
                    ) && k@ == key@ && r == read
                },
                AppCommand::RequestCloseMainWindow => {
                    &&& final(self).state@ == old(self).state@
                    &&& match close_shell_command(old(self).tray_available) {
                        Some(c) => actions@.len() == 1 && broadcasts_shell(actions@[0], c),
                        None => actions@.len() == 0,
                    }
                },
                AppCommand::RequestShowMainWindow => {
                    &&& final(self).state@ == old(self).state@
                    &&& actions@.len() == 2
                    &&& broadcasts_shell(actions@[0], ShellCommand::ShowWindow(WindowId::Main))
                    &&& broadcasts_shell(actions@[1], ShellCommand::FocusWindow(WindowId::Main))
                },
                AppCommand::RequestExitApp => {
                    &&& final(self).state@ == old(self).state@
                    &&& actions@.len() == 1
                    &&& broadcasts_shell(actions@[0], ShellCommand::ExitProcess)
                },
                AppCommand::RequestShowWidget => {
                    &&& final(self).state@ == old(self).state@
                    &&& actions@.len() == 2
                    &&& broadcasts_widget(actions@[0], true)
                    &&& broadcasts_shell(actions@[1], ShellCommand::ShowWindow(WindowId::Widget))
                },
                AppCommand::RequestHideWidget => {
                    &&& final(self).state@ == old(self).state@
                    &&& actions@.len() == 2
                    &&& broadcasts_widget(actions@[0], false)
                    &&& broadcasts_shell(actions@[1], ShellCommand::HideWindow(WindowId::Widget))
                },
                AppCommand::MarkGroupRead { .. } => {
                    &&& final(self).state@ == old(self).state@
                    &&& actions@.len() == 0
                },
            },
    {
        let mut actions: Vec<RuntimeAction> = Vec::new();
        match command {
            AppCommand::ForcePoll => {
                actions.push(RuntimeAction::ToPoller(PollerCommand::ForcePoll));
            },
            AppCommand::MarkRead { key, read } => {
                self.state.apply_mark_read_request(&key, read);
                self.publish_snapshot(&mut actions);
                actions.push(RuntimeAction::ToPoller(PollerCommand::MarkRead { key, read }));
            },
            AppCommand::RequestCloseMainWindow => {
                if let Some(action) = close_action_for_request(true, false, self.tray_available) {
                    let shell_command = match action {
                        CloseAction::MinimizeToTray => ShellCommand::HideWindow(WindowId::Main),
                        CloseAction::CloseApp => ShellCommand::ExitProcess,
                    };
                    actions.push(RuntimeAction::Broadcast(AppEvent::ShellCommand(shell_command)));
                }
            },
            AppCommand::RequestShowMainWindow => {
                actions.push(
                    RuntimeAction::Broadcast(
                        AppEvent::ShellCommand(ShellCommand::ShowWindow(WindowId::Main)),
                    ),
                );
                actions.push(
                    RuntimeAction::Broadcast(
                        AppEvent::ShellCommand(ShellCommand::FocusWindow(WindowId::Main)),
                    ),
                );
            },
            AppCommand::RequestExitApp => {
                actions.push(RuntimeAction::Broadcast(AppEvent::ShellCommand(ShellCommand::ExitProcess)));
            },
            AppCommand::RequestShowWidget => {
                actions.push(
                    RuntimeAction::Broadcast(AppEvent::WidgetVisibilityChanged { visible: true }),
                );
                actions.push(
                    RuntimeAction::Broadcast(
                        AppEvent::ShellCommand(ShellCommand::ShowWindow(WindowId::Widget)),
                    ),
                );
            },
            AppCommand::RequestHideWidget => {
                actions.push(
                    RuntimeAction::Broadcast(AppEvent::WidgetVisibilityChanged { visible: false }),
                );
                actions.push(
                    RuntimeAction::Broadcast(
                        AppEvent::ShellCommand(ShellCommand::HideWindow(WindowId::Widget)),
                    ),
                );
            },
            AppCommand::MarkGroupRead { .. } => {},
        }
        actions
    }

    /// Takes in an event of the poller: the state changes first, then the
    /// event is passed on and the new snapshot published (for a poll, the
    /// event first; newly unread signals are handed to the alerts last).
    pub fn handle_poller_event(&mut self, event: PollerEvent) -> (actions: Vec<RuntimeAction>)
        ensures
            final(self).tray_available == old(self).tray_available,
            match event {
                PollerEvent::Snapshot { fetched_at_ms, page } => {
                    &&& final(self).state@ == snapshot_applied(
                        old(self).state@,
                        fetched_at_ms,
                        page@,
                    )
                    &&& actions@[0] matches RuntimeAction::Broadcast(
                        AppEvent::PollerSnapshot { fetched_at_ms: t, page: p },
                    ) && t == fetched_at_ms && p@ == page@
                    &&& publishes_at(actions@, 1, final(self).state@)
                    &&& if newly_unread(old(self).state@, final(self).state@) == Set::<
                        KeyView,
                    >::empty() {
                        actions@.len() == 3
                    } else {
                        &&& actions@.len() == 4
                        &&& actions@[3] matches RuntimeAction::NotifyNewUnread(keys)
                            && key_views(keys@).to_set() == newly_unread(
                            old(self).state@,
                            final(self).state@,
                        ) && strictly_sorted(key_views(keys@))
                    }
                },
                PollerEvent::PollFailed { error } => {
                    &&& final(self).state@ == poll_failed(old(self).state@, error@)
                    &&& actions@.len() == 3
                    &&& publishes_at(actions@, 0, final(self).state@)
                    &&& actions@[2] matches RuntimeAction::Broadcast(AppEvent::PollFailed { error: e })
                        && e@ == error@
                },
                PollerEvent::MarkReadSynced { key } => {
                    &&& final(self).state@ == mark_read_synced(old(self).state@, key@)
                    &&& actions@.len() == 3
                    &&& publishes_at(actions@, 0, final(self).state@)
                    &&& actions@[2] matches RuntimeAction::Broadcast(
                        AppEvent::MarkReadSynced { key: k },
                    ) && k@ == key@
                },
                PollerEvent::SyncFailed { key, error } => {
                    &&& final(self).state@ == sync_failed(old(self).state@, key@, error@)
                    &&& actions@.len() == 3
                    &&& publishes_at(actions@, 0, final(self).state@)
                    &&& actions@[2] matches RuntimeAction::Broadcast(
                        AppEvent::SyncFailed { key: k, error: e },
                    ) && k@ == key@ && e@ == error@
                },
            },
    {
        let mut actions: Vec<RuntimeAction> = Vec::new();
        match event {
            PollerEvent::Snapshot { fetched_at_ms, page } => {
                let new_unread = self.state.apply_snapshot(fetched_at_ms, &page);
                actions.push(RuntimeAction::Broadcast(AppEvent::PollerSnapshot { fetched_at_ms, page }));
                self.publish_snapshot(&mut actions);
                if new_unread.len() > 0 {
                    actions.push(RuntimeAction::NotifyNewUnread(new_unread));
                } else {
                    assert(key_views(new_unread@) =~= Seq::<KeyView>::empty());
                    assert(key_views(new_unread@).to_set() =~= Set::<KeyView>::empty());
                }
                proof {
                    if new_unread@.len() > 0 {
                        assert(key_views(new_unread@).to_set().contains(key_views(new_unread@)[0]));
                    }
                }
            },
            PollerEvent::PollFailed { error } => {
                self.state.apply_poll_failed(error.clone());
                self.publish_snapshot(&mut actions);
                actions.push(RuntimeAction::Broadcast(AppEvent::PollFailed { error }));
            },
            PollerEvent::MarkReadSynced { key } => {
                self.state.apply_mark_read_synced(&key);
                self.publish_snapshot(&mut actions);
                actions.push(RuntimeAction::Broadcast(AppEvent::MarkReadSynced { key }));
            },
            PollerEvent::SyncFailed { key, error } => {
                self.state.apply_sync_failed(&key, error.clone());
                self.publish_snapshot(&mut actions);
                actions.push(RuntimeAction::Broadcast(AppEvent::SyncFailed { key, error }));
            },
        }
        actions
    }
}

} // verus!
