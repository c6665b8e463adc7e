use signal_desk_egui::api::{SignalPage, SignalRow, SignalState};
use signal_desk_egui::app_core::contract::{AppCommand, AppSnapshot};
use signal_desk_egui::app_core::policy::window_lifecycle::{
    close_action_for_request, default_allow_close, CloseAction,
};
use signal_desk_egui::app_core::queries::unread::effective_unread_keys;
use signal_desk_egui::app_core::services::poller_service::{build_request, join_unique};
use signal_desk_egui::app_core::state::{send_failed_text, AppState};
use signal_desk_egui::collections::{KeySet, SignalMap};
use signal_desk_egui::config::{default_groups, GroupConfig, PollConfig};
use signal_desk_egui::domain::SignalKey;

fn row(symbol: &str, period: &str, t: i64, signals: &[(&str, i32, i64, bool)]) -> SignalRow {
    SignalRow {
        symbol: symbol.to_string(),
        period: period.to_string(),
        t,
        signals: signals
            .iter()
            .map(|(name, sd, t, read)| {
                (
                    name.to_string(),
                    SignalState {
                        sd: *sd,
                        t: *t,
                        read: *read,
                    },
                )
            })
            .collect(),
    }
}

fn page(rows: Vec<SignalRow>) -> SignalPage {
    SignalPage {
        total: rows.len() as u64,
        page: 1,
        page_size: 100,
        data: rows,
    }
}

#[test]
fn request_exit_maps_to_runtime_event_channel_shape() {
    let cmd = AppCommand::RequestExitApp;
    match cmd {
        AppCommand::RequestExitApp => {}
        _ => panic!("wrong command variant"),
    }
}

#[test]
fn command_contract_exposes_force_poll() {
    let cmd = AppCommand::ForcePoll;
    match cmd {
        AppCommand::ForcePoll => {}
        _ => panic!("unexpected command"),
    }
}

#[test]
fn close_requests_return_none_when_not_requested() {
    let action = close_action_for_request(false, false, true);
    assert_eq!(action, None);
}

#[test]
fn close_requests_close_app_when_allowed() {
    let action = close_action_for_request(true, true, true);
    assert_eq!(action, Some(CloseAction::CloseApp));
}

#[test]
fn close_requests_close_app_when_tray_is_missing() {
    let action = close_action_for_request(true, false, false);
    assert_eq!(action, Some(CloseAction::CloseApp));
}

#[test]
fn close_requests_hide_when_tray_exists() {
    let action = close_action_for_request(true, false, true);
    assert_eq!(action, Some(CloseAction::MinimizeToTray));
}

#[test]
fn closing_is_allowed_by_default() {
    assert!(default_allow_close());
}

#[test]
fn effective_unread_filters_read_and_pending() {
    let key = SignalKey::new("BTCUSDT", "15", "vegas");
    let mut signals = SignalMap::new();
    signals.insert(
        key.clone(),
        SignalState {
            sd: 1,
            t: 1,
            read: false,
        },
    );
    let pending = KeySet::new();
    let unread = effective_unread_keys(&signals, &pending);
    assert_eq!(unread.len(), 1);
}

#[test]
fn effective_unread_leaves_out_read_and_pending_signals() {
    let a = SignalKey::new("BTCUSDT", "15", "vegas");
    let b = SignalKey::new("BTCUSDT", "60", "vegas");
    let c = SignalKey::new("ETHUSDT", "15", "vegas");
    let mut signals = SignalMap::new();
    signals.insert(a.clone(), SignalState { sd: 1, t: 1, read: false });
    signals.insert(b.clone(), SignalState { sd: 1, t: 1, read: true });
    signals.insert(c.clone(), SignalState { sd: 1, t: 1, read: false });
    let mut pending = KeySet::new();
    pending.insert(c.clone());
    let unread = effective_unread_keys(&signals, &pending);
    assert_eq!(unread.len(), 1);
    assert!(unread.contains(&a));
    assert!(!unread.contains(&b));
    assert!(!unread.contains(&c));
}

#[test]
fn snapshot_includes_unread_count() {
    let state = AppState::default();
    let snapshot = state.to_snapshot();
    assert_eq!(snapshot.unread_count, 0);
}

#[test]
fn snapshot_counts_effectively_unread_signals() {
    let mut state = AppState::default();
    state.apply_snapshot(
        1_000,
        &page(vec![row(
            "BTCUSDT",
            "15",
            900,
            &[("vegas", 1, 900, false), ("trend", -1, 800, false), ("old", 1, 10, true)],
        )]),
    );
    let snapshot: AppSnapshot = state.to_snapshot();
    assert_eq!(snapshot.unread_count, 2);
    assert_eq!(snapshot.last_poll_ms, Some(1_000));
    assert_eq!(snapshot.last_poll_ok, Some(true));
    assert_eq!(snapshot.last_meta, Some((1, 1, 100)));
    state.mark_one_read(&SignalKey::new("BTCUSDT", "15", "trend"));
    assert_eq!(state.to_snapshot().unread_count, 1);
}

#[test]
fn build_request_skips_when_no_enabled_groups() {
    let mut groups = default_groups();
    groups.iter_mut().for_each(|g| g.enabled = false);
    assert!(build_request(&groups, &PollConfig::default()).is_none());
}

#[test]
fn build_request_joins_the_enabled_groups() {
    let groups = default_groups();
    let req = build_request(&groups, &PollConfig::default()).expect("a request");
    assert_eq!(req.symbols, "BTCUSDT,ETHUSDT");
    assert_eq!(req.periods.as_deref(), Some("15,4D,60,W"));
    assert_eq!(req.signal_types.as_deref(), Some("divMacd,vegas"));
    assert_eq!(req.page, Some(1));
    assert_eq!(req.page_size, Some(100));
}

#[test]
fn build_request_caps_the_page_size_and_leaves_out_empty_lists() {
    let groups = vec![
        GroupConfig {
            id: "g1".to_string(),
            name: "one".to_string(),
            symbol: " SOLUSDT ".to_string(),
            periods: vec![],
            signal_types: vec!["  ".to_string()],
            enabled: true,
        },
        GroupConfig {
            id: "g2".to_string(),
            name: "two".to_string(),
            symbol: "ADAUSDT".to_string(),
            periods: vec!["15".to_string()],
            signal_types: vec!["vegas".to_string()],
            enabled: false,
        },
    ];
    let poll = PollConfig {
        interval_secs: 8,
        page_size: 500,
    };
    let req = build_request(&groups, &poll).expect("a request");
    assert_eq!(req.symbols, "SOLUSDT");
    assert_eq!(req.periods, None);
    assert_eq!(req.signal_types, None);
    assert_eq!(req.page_size, Some(100));
    let small = PollConfig {
        interval_secs: 8,
        page_size: 20,
    };
    assert_eq!(build_request(&groups, &small).expect("a request").page_size, Some(20));
}

#[test]
fn join_unique_trims_dedupes_and_sorts() {
    let values: Vec<String> = [" b", "a", "b ", "", "  ", "c", "a"]
        .iter()
        .map(|v| v.to_string())
        .collect();
    assert_eq!(join_unique(&values), "a,b,c");
    assert_eq!(join_unique(&Vec::new()), "");
}

#[test]
fn join_unique_result_depends_only_on_the_set_of_values() {
    let one: Vec<String> = ["ETH", "BTC", "SOL"].iter().map(|v| v.to_string()).collect();
    let two: Vec<String> = ["SOL", "BTC", "ETH", "BTC"].iter().map(|v| v.to_string()).collect();
    assert_eq!(join_unique(&one), join_unique(&two));
}

#[test]
fn marking_read_hides_the_signal_at_once() {
    let key = SignalKey::new("BTCUSDT", "15", "vegas");
    let mut state = AppState::default();
    state.apply_snapshot(1_000, &page(vec![row("BTCUSDT", "15", 900, &[("vegas", 1, 900, false)])]));
    state.apply_mark_read_request(&key, true);
    assert!(state.signals.get(&key).expect("signal").read);
    assert!(state.pending_read.contains(&key));
    assert_eq!(state.read_floors.get(&key), Some(900));
    assert_eq!(state.to_snapshot().unread_count, 0);
}

#[test]
fn marking_unread_changes_nothing_until_the_service_answers() {
    let key = SignalKey::new("BTCUSDT", "15", "vegas");
    let mut state = AppState::default();
    state.apply_snapshot(1_000, &page(vec![row("BTCUSDT", "15", 900, &[("vegas", 1, 900, true)])]));
    state.apply_mark_read_request(&key, false);
    assert!(state.signals.get(&key).expect("signal").read);
    assert!(!state.pending_read.contains(&key));
}

#[test]
fn failed_mark_read_rolls_back() {
    let key = SignalKey::new("BTCUSDT", "15", "vegas");
    let mut state = AppState::default();
    state.apply_snapshot(1_000, &page(vec![row("BTCUSDT", "15", 900, &[("vegas", 1, 900, false)])]));
    state.mark_one_read(&key);
    state.apply_sync_failed(&key, "boom".to_string());
    assert!(!state.signals.get(&key).expect("signal").read);
    assert!(!state.pending_read.contains(&key));
    assert_eq!(state.read_floors.get(&key), None);
    assert_eq!(
        state.last_error.as_deref(),
        Some("sync failed [BTCUSDT 15 vegas]: boom")
    );
    assert_eq!(state.to_snapshot().unread_count, 1);
}

#[test]
fn confirmed_mark_read_stays_read_across_polls() {
    let key = SignalKey::new("BTCUSDT", "15", "vegas");
    let mut state = AppState::default();
    state.apply_snapshot(1_000, &page(vec![row("BTCUSDT", "15", 900, &[("vegas", 1, 900, false)])]));
    state.mark_one_read(&key);
    state.apply_mark_read_synced(&key);
    assert!(!state.pending_read.contains(&key));
    // The service has not caught up yet and still reports the signal unread.
    let fresh = state.apply_snapshot(
        2_000,
        &page(vec![row("BTCUSDT", "15", 900, &[("vegas", 1, 900, false)])]),
    );
    assert!(fresh.is_empty());
    assert!(state.signals.get(&key).expect("signal").read);
    assert_eq!(state.to_snapshot().unread_count, 0);
}

#[test]
fn a_newer_trigger_lifts_the_read_floor() {
    let key = SignalKey::new("BTCUSDT", "15", "vegas");
    let mut state = AppState::default();
    state.apply_snapshot(1_000, &page(vec![row("BTCUSDT", "15", 900, &[("vegas", 1, 900, false)])]));
    state.mark_one_read(&key);
    state.apply_mark_read_synced(&key);
    let fresh = state.apply_snapshot(
        3_000,
        &page(vec![row("BTCUSDT", "15", 2_500, &[("vegas", -1, 2_500, false)])]),
    );
    assert_eq!(fresh, vec![key.clone()]);
    let st = state.signals.get(&key).expect("signal");
    assert!(!st.read);
    assert_eq!(st.sd, -1);
    assert_eq!(state.read_floors.get(&key), None);
}

#[test]
fn the_first_poll_reports_nothing_new() {
    let mut state = AppState::default();
    let fresh = state.apply_snapshot(
        1_000,
        &page(vec![row("BTCUSDT", "15", 900, &[("vegas", 1, 900, false)])]),
    );
    assert!(fresh.is_empty());
    assert!(state.has_seen_snapshot);
    let fresh = state.apply_snapshot(
        2_000,
        &page(vec![
            row("BTCUSDT", "15", 900, &[("vegas", 1, 900, false)]),
            row("ETHUSDT", "60", 1_900, &[("trend", 1, 1_900, false)]),
        ]),
    );
    assert_eq!(fresh, vec![SignalKey::new("ETHUSDT", "60", "trend")]);
}

#[test]
fn poll_failures_count_up_and_a_good_poll_resets_them() {
    let mut state = AppState::default();
    state.apply_poll_failed("timeout".to_string());
    assert_eq!(state.consecutive_poll_failures, 1);
    assert_eq!(state.last_poll_ok, Some(true));
    assert_eq!(state.last_poll_error.as_deref(), Some("timeout"));
    state.apply_poll_failed("refused".to_string());
    assert_eq!(state.consecutive_poll_failures, 2);
    assert_eq!(state.last_poll_ok, Some(false));
    assert_eq!(state.last_error.as_deref(), Some("refused"));
    state.apply_snapshot(5_000, &page(vec![]));
    assert_eq!(state.consecutive_poll_failures, 0);
    assert_eq!(state.last_poll_ok, Some(true));
    assert_eq!(state.last_error, None);
    assert_eq!(state.last_poll_error, None);
}

#[test]
fn marking_a_group_read_marks_its_unread_signals() {
    let mut state = AppState::default();
    state.apply_snapshot(
        1_000,
        &page(vec![
            row("BTCUSDT", "15", 900, &[("vegas", 1, 900, false)]),
            row("BTCUSDT", "60", 900, &[("vegas", 1, 800, true)]),
            row("ETHUSDT", "15", 900, &[("vegas", 1, 900, false)]),
        ]),
    );
    let group = GroupConfig {
        id: "g1".to_string(),
        name: "BTC".to_string(),
        symbol: "BTCUSDT".to_string(),
        periods: vec!["15".to_string(), "60".to_string(), "W".to_string()],
        signal_types: vec!["vegas".to_string()],
        enabled: true,
    };
    let marked = state.mark_group_read(&group);
    assert_eq!(marked, vec![SignalKey::new("BTCUSDT", "15", "vegas")]);
    assert_eq!(state.to_snapshot().unread_count, 1);
    assert!(state.mark_group_read(&group).is_empty());
}

#[test]
fn unsent_mark_read_is_taken_back() {
    let key = SignalKey::new("BTCUSDT", "15", "vegas");
    let mut state = AppState::default();
    state.apply_snapshot(1_000, &page(vec![row("BTCUSDT", "15", 900, &[("vegas", 1, 900, false)])]));
    state.mark_one_read(&key);
    state.apply_send_failed(&key, "channel closed".to_string());
    assert!(!state.signals.get(&key).expect("signal").read);
    assert!(!state.pending_read.contains(&key));
    assert_eq!(state.read_floors.get(&key), None);
    assert_eq!(
        state.last_error.as_deref(),
        Some("send mark-read failed [BTCUSDT 15 vegas]: channel closed")
    );
    assert_eq!(state.to_snapshot().unread_count, 1);
}

#[test]
fn a_second_click_while_pending_changes_nothing() {
    let key = SignalKey::new("BTCUSDT", "15", "vegas");
    let mut state = AppState::default();
    state.apply_snapshot(1_000, &page(vec![row("BTCUSDT", "15", 900, &[("vegas", 1, 900, false)])]));
    state.mark_one_read(&key);
    let floor = state.read_floors.get(&key);
    state.mark_one_read(&key);
    assert_eq!(state.read_floors.get(&key), floor);
    assert!(state.pending_read.contains(&key));
    assert_eq!(state.pending_read.len(), 1);
}

#[test]
fn send_failure_text_names_the_signal() {
    let key = SignalKey::new("ETHUSDT", "60", "trend");
    assert_eq!(
        send_failed_text(&key, "disconnected"),
        "send mark-read failed [ETHUSDT 60 trend]: disconnected"
    );
}
