use signal_desk_egui::poller::{poller_work_for, PollerInput, PollerWork};
use signal_desk_egui::api::{SignalPage, SignalRow, SignalState};
use signal_desk_egui::app_core::contract::{AppCommand, AppEvent, ShellCommand, WindowId};
use signal_desk_egui::app_core::runtime::{RuntimeAction, RuntimeCore};
use signal_desk_egui::config::PollConfig;
use signal_desk_egui::domain::SignalKey;
use signal_desk_egui::poller::{
    mark_read_outcome, poll_due, poll_interval_secs, poll_outcome, wait_before_next_poll_ms,
    PollerCommand, PollerEvent,
};

fn broadcasts(actions: Vec<RuntimeAction>) -> Vec<AppEvent> {
    actions
        .into_iter()
        .filter_map(|a| match a {
            RuntimeAction::Broadcast(e) => Some(e),
            _ => None,
        })
        .collect()
}

fn one_signal_page(t: i64) -> SignalPage {
    SignalPage {
        total: 1,
        page: 1,
        page_size: 100,
        data: vec![SignalRow {
            symbol: "BTCUSDT".to_string(),
            period: "15".to_string(),
            t,
            signals: vec![(
                "vegas".to_string(),
                SignalState {
                    sd: 1,
                    t,
                    read: false,
                },
            )],
        }],
    }
}

#[test]
fn runtime_forwards_force_poll_to_poller() {
    let mut core = RuntimeCore::new();
    let actions = core.handle_app_command(AppCommand::ForcePoll);
    assert_eq!(actions.len(), 1);
    assert!(matches!(
        actions[0],
        RuntimeAction::ToPoller(PollerCommand::ForcePoll)
    ));
}

#[test]
fn runtime_forwards_mark_read_to_poller() {
    let mut core = RuntimeCore::new();
    let key = SignalKey::new("BTCUSDT", "15", "vegas");
    let actions = core.handle_app_command(AppCommand::MarkRead {
        key: key.clone(),
        read: true,
    });
    let command = actions
        .into_iter()
        .find_map(|a| match a {
            RuntimeAction::ToPoller(c) => Some(c),
            _ => None,
        })
        .expect("poller command");
    assert!(matches!(
        command,
        PollerCommand::MarkRead {
            key: actual,
            read: true
        } if actual == key
    ));
}

#[test]
fn mark_read_publishes_the_snapshot_before_telling_the_poller() {
    let mut core = RuntimeCore::new();
    core.handle_poller_event(PollerEvent::Snapshot {
        fetched_at_ms: 42,
        page: one_signal_page(10),
    });
    let key = SignalKey::new("BTCUSDT", "15", "vegas");
    let actions = core.handle_app_command(AppCommand::MarkRead {
        key: key.clone(),
        read: true,
    });
    assert_eq!(actions.len(), 3);
    match &actions[0] {
        RuntimeAction::PublishSnapshot(s) => assert_eq!(s.unread_count, 0),
        other => panic!("unexpected action {:?}", other),
    }
    assert!(matches!(
        actions[1],
        RuntimeAction::Broadcast(AppEvent::SnapshotUpdated(_))
    ));
    assert!(core.state.pending_read.contains(&key));
}

#[test]
fn runtime_emits_show_main_window_action() {
    let mut core = RuntimeCore::new();
    core.tray_available = true;
    let events = broadcasts(core.handle_app_command(AppCommand::RequestShowMainWindow));
    assert!(matches!(
        events[0],
        AppEvent::ShellCommand(ShellCommand::ShowWindow(WindowId::Main))
    ));
    assert!(matches!(
        events[1],
        AppEvent::ShellCommand(ShellCommand::FocusWindow(WindowId::Main))
    ));
}

#[test]
fn runtime_emits_hide_to_tray_when_tray_is_available() {
    let mut core = RuntimeCore::new();
    core.tray_available = true;
    let events = broadcasts(core.handle_app_command(AppCommand::RequestCloseMainWindow));
    assert_eq!(events.len(), 1);
    assert!(matches!(
        events[0],
        AppEvent::ShellCommand(ShellCommand::HideWindow(WindowId::Main))
    ));
}

#[test]
fn closing_without_a_tray_exits() {
    let mut core = RuntimeCore::new();
    let events = broadcasts(core.handle_app_command(AppCommand::RequestCloseMainWindow));
    assert_eq!(events.len(), 1);
    assert!(matches!(
        events[0],
        AppEvent::ShellCommand(ShellCommand::ExitProcess)
    ));
    let events = broadcasts(core.handle_app_command(AppCommand::RequestExitApp));
    assert!(matches!(
        events[0],
        AppEvent::ShellCommand(ShellCommand::ExitProcess)
    ));
}

#[test]
fn runtime_forwards_snapshot_poller_event_to_app_event() {
    let mut core = RuntimeCore::new();
    let page = SignalPage {
        total: 0,
        page: 1,
        page_size: 100,
        data: vec![],
    };

    let actions = core.handle_poller_event(PollerEvent::Snapshot {
        fetched_at_ms: 42,
        page: page.clone(),
    });

    let event = broadcasts(actions).into_iter().next().expect("runtime event");
    assert!(matches!(
        event,
        AppEvent::PollerSnapshot {
            fetched_at_ms: 42,
            page: actual
        } if actual == page
    ));
}

#[test]
fn runtime_forwards_sync_failed_poller_event_to_app_event() {
    let mut core = RuntimeCore::new();
    let key = SignalKey::new("BTCUSDT", "15", "vegas");

    let mut events = broadcasts(core.handle_poller_event(PollerEvent::SyncFailed {
        key: key.clone(),
        error: "boom".to_string(),
    }))
    .into_iter();

    let _snapshot_event = events.next().expect("snapshot event");
    let event = events.next().expect("runtime event");
    assert!(matches!(
        event,
        AppEvent::SyncFailed {
            key: actual,
            error
        } if actual == key && error == "boom"
    ));
}

#[test]
fn runtime_broadcasts_widget_visibility_to_multiple_subscribers() {
    let mut core = RuntimeCore::new();
    let events = broadcasts(core.handle_app_command(AppCommand::RequestShowWidget));
    assert!(matches!(
        events[0],
        AppEvent::WidgetVisibilityChanged { visible: true }
    ));
    assert!(matches!(
        events[1],
        AppEvent::ShellCommand(ShellCommand::ShowWindow(WindowId::Widget))
    ));
    let events = broadcasts(core.handle_app_command(AppCommand::RequestHideWidget));
    assert!(matches!(
        events[0],
        AppEvent::WidgetVisibilityChanged { visible: false }
    ));
    assert!(matches!(
        events[1],
        AppEvent::ShellCommand(ShellCommand::HideWindow(WindowId::Widget))
    ));
}

#[test]
fn runtime_snapshot_subscription_receives_poll_updates() {
    let mut core = RuntimeCore::new();
    let page = SignalPage {
        total: 1,
        page: 1,
        page_size: 100,
        data: vec![],
    };

    let actions = core.handle_poller_event(PollerEvent::Snapshot {
        fetched_at_ms: 42,
        page,
    });
    let published = actions
        .into_iter()
        .find_map(|a| match a {
            RuntimeAction::PublishSnapshot(s) => Some(s),
            _ => None,
        })
        .expect("snapshot change");
    assert_eq!(published.last_poll_ms, Some(42));
}

#[test]
fn a_second_poll_hands_new_unread_signals_to_the_alerts() {
    let mut core = RuntimeCore::new();
    let first = core.handle_poller_event(PollerEvent::Snapshot {
        fetched_at_ms: 1,
        page: SignalPage {
            total: 0,
            page: 1,
            page_size: 100,
            data: vec![],
        },
    });
    assert_eq!(first.len(), 3);
    let second = core.handle_poller_event(PollerEvent::Snapshot {
        fetched_at_ms: 2,
        page: one_signal_page(2),
    });
    assert_eq!(second.len(), 4);
    match &second[3] {
        RuntimeAction::NotifyNewUnread(keys) => {
            assert_eq!(keys, &vec![SignalKey::new("BTCUSDT", "15", "vegas")])
        }
        other => panic!("unexpected action {:?}", other),
    }
}

#[test]
fn poll_failures_are_published_then_broadcast() {
    let mut core = RuntimeCore::new();
    let actions = core.handle_poller_event(PollerEvent::PollFailed {
        error: "timeout".to_string(),
    });
    assert_eq!(actions.len(), 3);
    assert!(matches!(actions[0], RuntimeAction::PublishSnapshot(_)));
    assert!(matches!(
        &actions[2],
        RuntimeAction::Broadcast(AppEvent::PollFailed { error }) if error == "timeout"
    ));
    assert_eq!(core.state.consecutive_poll_failures, 1);
}

#[test]
fn group_mark_read_is_not_handled_by_the_runtime() {
    let mut core = RuntimeCore::new();
    let actions = core.handle_app_command(AppCommand::MarkGroupRead {
        group_id: "g1".to_string(),
    });
    assert!(actions.is_empty());
}

#[test]
fn poll_timing() {
    assert_eq!(
        poll_interval_secs(&PollConfig {
            interval_secs: 0,
            page_size: 100
        }),
        1
    );
    assert_eq!(poll_interval_secs(&PollConfig::default()), 8);
    assert_eq!(wait_before_next_poll_ms(8_000, 3_000), 5_000);
    assert_eq!(wait_before_next_poll_ms(8_000, 9_000), 0);
    assert!(!poll_due(8_000, 7_999));
    assert!(poll_due(8_000, 8_000));
}

#[test]
fn service_answers_become_poller_events() {
    let key = SignalKey::new("BTCUSDT", "15", "vegas");
    assert!(matches!(
        mark_read_outcome(key.clone(), Ok(true)),
        PollerEvent::MarkReadSynced { key: k } if k == key
    ));
    assert!(matches!(
        mark_read_outcome(key.clone(), Ok(false)),
        PollerEvent::SyncFailed { key: k, error } if k == key && error == "server returned false"
    ));
    assert!(matches!(
        mark_read_outcome(key.clone(), Err("401".to_string())),
        PollerEvent::SyncFailed { key: k, error } if k == key && error == "401"
    ));
    assert!(matches!(
        poll_outcome(7, Err("offline".to_string())),
        PollerEvent::PollFailed { error } if error == "offline"
    ));
    assert!(matches!(
        poll_outcome(7, Ok(one_signal_page(3))),
        PollerEvent::Snapshot { fetched_at_ms: 7, page } if page == one_signal_page(3)
    ));
}

#[test]
fn poller_decides_on_each_wake_up() {
    let key = SignalKey::new("BTCUSDT", "15", "vegas");
    assert!(matches!(
        poller_work_for(PollerInput::Command(PollerCommand::Shutdown)),
        PollerWork::Stop
    ));
    assert!(matches!(
        poller_work_for(PollerInput::Disconnected),
        PollerWork::Stop
    ));
    assert!(matches!(
        poller_work_for(PollerInput::Command(PollerCommand::ForcePoll)),
        PollerWork::PollNow
    ));
    assert!(matches!(
        poller_work_for(PollerInput::Timeout),
        PollerWork::Idle
    ));
    assert!(matches!(
        poller_work_for(PollerInput::Command(PollerCommand::MarkRead { key: key.clone(), read: false })),
        PollerWork::SendMarkRead { key: k, read: false } if k == key
    ));
}

#[test]
fn runtime_accepts_force_poll_command() {
    let mut core = RuntimeCore::new();
    let actions = core.handle_app_command(AppCommand::ForcePoll);
    assert!(!actions.is_empty());
    assert!(!core.tray_available);
    assert_eq!(core.state.to_snapshot().unread_count, 0);
}
