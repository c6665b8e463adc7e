use signal_desk_egui::api::SignalState;
use signal_desk_egui::collections::{KeySet, SignalMap};
use signal_desk_egui::config::GroupConfig;
use signal_desk_egui::domain::{Side, SignalKey};
use signal_desk_egui::unread_panel::{build_unread_items, next_close_deadline_ms, HoverPanelTarget};

fn group(id: &str, symbol: &str, periods: &[&str], signal_types: &[&str]) -> GroupConfig {
    GroupConfig {
        id: id.to_string(),
        name: id.to_string(),
        symbol: symbol.to_string(),
        periods: periods.iter().map(|v| (*v).to_string()).collect(),
        signal_types: signal_types.iter().map(|v| (*v).to_string()).collect(),
        enabled: true,
    }
}

#[test]
fn global_contains_only_effective_unread_sorted_desc() {
    let groups = vec![
        group("g1", "BTCUSDT", &["15", "60"], &["vegas"]),
        group("g2", "ETHUSDT", &["15", "60"], &["vegas"]),
    ];
    let mut signals = SignalMap::new();
    let k1 = SignalKey::new("BTCUSDT", "15", "vegas");
    let k2 = SignalKey::new("ETHUSDT", "15", "vegas");
    let k3 = SignalKey::new("BTCUSDT", "60", "vegas");
    let k4 = SignalKey::new("ETHUSDT", "60", "vegas");

    signals.insert(
        k1.clone(),
        SignalState {
            sd: 1,
            t: 300,
            read: false,
        },
    );
    signals.insert(
        k2.clone(),
        SignalState {
            sd: -1,
            t: 200,
            read: false,
        },
    );
    signals.insert(
        k3.clone(),
        SignalState {
            sd: 1,
            t: 100,
            read: true,
        },
    );
    signals.insert(
        k4.clone(),
        SignalState {
            sd: -1,
            t: 250,
            read: false,
        },
    );

    let mut pending = KeySet::new();
    pending.insert(k2.clone());

    let rows = build_unread_items(&groups, &signals, &pending, &HoverPanelTarget::Global);
    assert_eq!(rows.len(), 2);
    assert_eq!(rows[0].key, k1);
    assert_eq!(rows[1].key, k4);
    assert!(rows[0].trigger_time_ms >= rows[1].trigger_time_ms);
}

#[test]
fn group_target_filters_to_single_group() {
    let groups = vec![
        group("g1", "BTCUSDT", &["15"], &["vegas"]),
        group("g2", "BTCUSDT", &["60"], &["trend"]),
        group("g3", "ETHUSDT", &["15"], &["vegas"]),
    ];
    let mut signals = SignalMap::new();
    let k1 = SignalKey::new("BTCUSDT", "15", "vegas");
    let k2 = SignalKey::new("BTCUSDT", "60", "trend");
    let k3 = SignalKey::new("ETHUSDT", "15", "vegas");
    signals.insert(
        k1.clone(),
        SignalState {
            sd: 1,
            t: 300,
            read: false,
        },
    );
    signals.insert(
        k2.clone(),
        SignalState {
            sd: -1,
            t: 200,
            read: false,
        },
    );
    signals.insert(
        k3.clone(),
        SignalState {
            sd: 1,
            t: 100,
            read: false,
        },
    );

    let rows = build_unread_items(
        &groups,
        &signals,
        &KeySet::new(),
        &HoverPanelTarget::Group("g1".into()),
    );
    assert_eq!(rows.len(), 1);
    assert_eq!(rows[0].key, k1);
}

#[test]
fn close_deadline_set_and_cleared_by_hover_state() {
    let deadline = next_close_deadline_ms(false, false, 1000, None, 200);
    assert_eq!(deadline, Some(1200));

    let preserved = next_close_deadline_ms(false, false, 1050, deadline, 200);
    assert_eq!(preserved, deadline);

    let keep_open_from_panel = next_close_deadline_ms(false, true, 1050, deadline, 200);
    assert_eq!(keep_open_from_panel, None);

    let keep_open = next_close_deadline_ms(true, false, 1050, deadline, 200);
    assert_eq!(keep_open, None);
}

#[test]
fn global_dedupes_duplicate_signal_keys_across_groups() {
    let groups = vec![
        group("g1", "BTCUSDT", &["15"], &["vegas"]),
        group("g2", "BTCUSDT", &["15"], &["vegas"]),
    ];
    let mut signals = SignalMap::new();
    let key = SignalKey::new("BTCUSDT", "15", "vegas");
    signals.insert(
        key.clone(),
        SignalState {
            sd: 1,
            t: 300,
            read: false,
        },
    );

    let global_rows = build_unread_items(&groups, &signals, &KeySet::new(), &HoverPanelTarget::Global);
    assert_eq!(global_rows.len(), 1);
    assert_eq!(global_rows[0].key, key);

    let g1_rows = build_unread_items(
        &groups,
        &signals,
        &KeySet::new(),
        &HoverPanelTarget::Group("g1".into()),
    );
    assert_eq!(g1_rows.len(), 1);
    let g2_rows = build_unread_items(
        &groups,
        &signals,
        &KeySet::new(),
        &HoverPanelTarget::Group("g2".into()),
    );
    assert_eq!(g2_rows.len(), 1);
}

#[test]
fn rows_carry_their_group_side_and_time() {
    let groups = vec![group("g7", "BTCUSDT", &["15"], &["vegas", "trend"])];
    let mut signals = SignalMap::new();
    signals.insert(
        SignalKey::new("BTCUSDT", "15", "trend"),
        SignalState {
            sd: -1,
            t: 500,
            read: false,
        },
    );
    signals.insert(
        SignalKey::new("BTCUSDT", "15", "vegas"),
        SignalState {
            sd: 7,
            t: 500,
            read: false,
        },
    );
    let rows = build_unread_items(&groups, &signals, &KeySet::new(), &HoverPanelTarget::Global);
    assert_eq!(rows.len(), 2);
    // Equal times keep the group's order: vegas before trend.
    assert_eq!(rows[0].signal_type, "vegas");
    assert_eq!(rows[0].side, Side::Unknown);
    assert_eq!(rows[1].signal_type, "trend");
    assert_eq!(rows[1].side, Side::Bear);
    assert_eq!(rows[1].group_id, "g7");
    assert_eq!(rows[1].symbol, "BTCUSDT");
    assert_eq!(rows[1].period, "15");
    assert_eq!(rows[1].trigger_time_ms, 500);
}

#[test]
fn unknown_group_lists_nothing() {
    let groups = vec![group("g1", "BTCUSDT", &["15"], &["vegas"])];
    let mut signals = SignalMap::new();
    signals.insert(
        SignalKey::new("BTCUSDT", "15", "vegas"),
        SignalState {
            sd: 1,
            t: 1,
            read: false,
        },
    );
    let rows = build_unread_items(
        &groups,
        &signals,
        &KeySet::new(),
        &HoverPanelTarget::Group("nope".into()),
    );
    assert!(rows.is_empty());
}
