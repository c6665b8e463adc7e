use signal_desk_egui::app::group_keys_to_mark;
use signal_desk_egui::app::format_trigger_time_local;
use signal_desk_egui::app::{compose_last_poll_text, last_poll_text};
use signal_desk_egui::app::{group_summary_text, join_with_commas};
use signal_desk_egui::app::total_unread_count;
use signal_desk_egui::api::SignalState;
use signal_desk_egui::app::{
    action_to_viewport_plan, advance_hover_panel, bar_color, build_bars, div_toward_zero_i64,
    format_elapsed_since_local, group_unread_count, merge_bar_cell, period_has_unread,
    period_label_visual, poll_state_indicator, popover_title, saturating_sub_i64, side_label,
    sorted_periods, status_meta_text, BarCell, UiAction, UiColor, ViewportClosePlan,
};
use signal_desk_egui::app_core::queries::unread::collect_new_unread_keys;
use signal_desk_egui::collections::{KeySet, SignalMap};
use signal_desk_egui::config::GroupConfig;
use signal_desk_egui::domain::{Side, SignalKey};
use signal_desk_egui::unread_panel::{HoverPanelState, HoverPanelTarget};

fn btc_group(periods: &[&str], types: &[&str]) -> GroupConfig {
    GroupConfig {
        id: "g1".to_string(),
        name: "BTC".to_string(),
        symbol: "BTCUSDT".to_string(),
        periods: periods.iter().map(|p| p.to_string()).collect(),
        signal_types: types.iter().map(|t| t.to_string()).collect(),
        enabled: true,
    }
}

#[test]
fn action_to_viewport_plan_maps_close_app_to_close() {
    let plan = action_to_viewport_plan(UiAction::ExitProcess);
    assert_eq!(plan, ViewportClosePlan::Close);
}

#[test]
fn action_to_viewport_plan_maps_minimize_to_tray_to_minimize_plan() {
    let plan = action_to_viewport_plan(UiAction::HideMainWindowToTray);
    assert_eq!(plan, ViewportClosePlan::MinimizeToTray);
}

#[test]
fn action_to_viewport_plan_maps_show_to_show_plan() {
    let plan = action_to_viewport_plan(UiAction::ShowMainWindow);
    assert_eq!(plan, ViewportClosePlan::Show);
}

#[test]
fn period_label_visual_marks_unread_level() {
    let visual = period_label_visual("15", true);
    assert_eq!(visual.text, "•15");
    assert_eq!(visual.color, Some(UiColor::Rgb(245, 173, 0)));
    assert!(visual.strong);
}

#[test]
fn period_label_visual_keeps_default_for_read_level() {
    let visual = period_label_visual("15", false);
    assert_eq!(visual.text, "15");
    assert_eq!(visual.color, None);
    assert!(!visual.strong);
}

#[test]
fn period_has_unread_uses_signal_state_not_bar_window() {
    let group = btc_group(&["15"], &["vegas"]);
    let key = SignalKey::new("BTCUSDT", "15", "vegas");
    let mut signals = SignalMap::new();
    signals.insert(
        key.clone(),
        SignalState {
            sd: 1,
            t: 1,
            read: false,
        },
    );

    let has_unread = period_has_unread(&signals, &KeySet::new(), &group, "15");
    assert!(has_unread);
}

#[test]
fn period_has_unread_ignores_pending_read_signals() {
    let group = btc_group(&["15"], &["vegas"]);
    let key = SignalKey::new("BTCUSDT", "15", "vegas");
    let mut signals = SignalMap::new();
    signals.insert(
        key.clone(),
        SignalState {
            sd: -1,
            t: 1,
            read: false,
        },
    );
    let mut pending = KeySet::new();
    pending.insert(key);

    let has_unread = period_has_unread(&signals, &pending, &group, "15");
    assert!(!has_unread);
}

#[test]
fn period_has_unread_only_looks_at_its_period() {
    let group = btc_group(&["15", "60"], &["vegas"]);
    let mut signals = SignalMap::new();
    signals.insert(
        SignalKey::new("BTCUSDT", "60", "vegas"),
        SignalState {
            sd: 1,
            t: 1,
            read: false,
        },
    );
    assert!(!period_has_unread(&signals, &KeySet::new(), &group, "15"));
    assert!(period_has_unread(&signals, &KeySet::new(), &group, "60"));
}

#[test]
fn collect_new_unread_keys_returns_only_new_entries() {
    let old_key = SignalKey::new("BTCUSDT", "15", "vegas");
    let new_key = SignalKey::new("ETHUSDT", "60", "trend");
    let mut previous = KeySet::new();
    previous.insert(old_key.clone());
    let mut current = KeySet::new();
    current.insert(old_key);
    current.insert(new_key.clone());

    let keys = collect_new_unread_keys(&previous, &current);
    assert_eq!(keys, vec![new_key]);
}

#[test]
fn collect_new_unread_keys_sorts_by_key() {
    let a = SignalKey::new("BTCUSDT", "15", "vegas");
    let b = SignalKey::new("BTCUSDT", "60", "vegas");
    let c = SignalKey::new("ETHUSDT", "15", "trend");
    let mut current = KeySet::new();
    current.insert(c.clone());
    current.insert(b.clone());
    current.insert(a.clone());
    let keys = collect_new_unread_keys(&KeySet::new(), &current);
    assert_eq!(keys, vec![a, b, c]);
}

#[test]
fn format_elapsed_since_local_shows_just_now_for_sub_minute() {
    let text = format_elapsed_since_local(100_000, 159_999);
    assert_eq!(text, "刚刚");
}

#[test]
fn format_elapsed_since_local_shows_minutes() {
    let text = format_elapsed_since_local(100_000, 280_000);
    assert_eq!(text, "3 分钟前");
}

#[test]
fn format_elapsed_since_local_treats_future_times_as_just_now() {
    assert_eq!(format_elapsed_since_local(500_000, 100_000), "刚刚");
    assert_eq!(format_elapsed_since_local(0, 3_600_000), "60 分钟前");
}

#[test]
fn saturating_and_truncating_arithmetic() {
    assert_eq!(saturating_sub_i64(5, 7), -2);
    assert_eq!(saturating_sub_i64(i64::MAX, -1), i64::MAX);
    assert_eq!(saturating_sub_i64(i64::MIN, 1), i64::MIN);
    assert_eq!(div_toward_zero_i64(-7, 2), -3);
    assert_eq!(div_toward_zero_i64(7, 2), 3);
    assert_eq!(div_toward_zero_i64(-7, -2), 3);
}

#[test]
fn merge_bar_cell_marks_mixed_sides() {
    let mut cell = BarCell::default();
    merge_bar_cell(&mut cell, Side::Bull, false);
    assert_eq!(
        cell,
        BarCell {
            side: Some(Side::Bull),
            mixed: false,
            unread: false
        }
    );
    merge_bar_cell(&mut cell, Side::Bull, true);
    assert_eq!(
        cell,
        BarCell {
            side: Some(Side::Bull),
            mixed: false,
            unread: true
        }
    );
    merge_bar_cell(&mut cell, Side::Bear, false);
    assert_eq!(
        cell,
        BarCell {
            side: Some(Side::Bull),
            mixed: true,
            unread: true
        }
    );
}

#[test]
fn build_bars_places_signals_by_age() {
    let group = btc_group(&["15"], &["vegas", "trend", "old"]);
    let now = 10_000_000_i64;
    let mut signals = SignalMap::new();
    // Newest bar: under one period ago.
    signals.insert(
        SignalKey::new("BTCUSDT", "15", "vegas"),
        SignalState {
            sd: 1,
            t: now - 60_000,
            read: false,
        },
    );
    // Two periods ago, read.
    signals.insert(
        SignalKey::new("BTCUSDT", "15", "trend"),
        SignalState {
            sd: -1,
            t: now - 2 * 900_000 - 1,
            read: true,
        },
    );
    // Out of the 60 bars.
    signals.insert(
        SignalKey::new("BTCUSDT", "15", "old"),
        SignalState {
            sd: 1,
            t: now - 60 * 900_000,
            read: false,
        },
    );
    let bars = build_bars(&signals, &KeySet::new(), &group, "15", now);
    assert_eq!(bars.len(), 60);
    assert_eq!(
        bars[59],
        BarCell {
            side: Some(Side::Bull),
            mixed: false,
            unread: true
        }
    );
    assert_eq!(
        bars[57],
        BarCell {
            side: Some(Side::Bear),
            mixed: false,
            unread: false
        }
    );
    let filled = bars.iter().filter(|b| b.side.is_some()).count();
    assert_eq!(filled, 2);
}

#[test]
fn build_bars_is_empty_for_unknown_periods() {
    let group = btc_group(&["1H"], &["vegas"]);
    let mut signals = SignalMap::new();
    signals.insert(
        SignalKey::new("BTCUSDT", "1H", "vegas"),
        SignalState {
            sd: 1,
            t: 0,
            read: false,
        },
    );
    let bars = build_bars(&signals, &KeySet::new(), &group, "1H", 1_000);
    assert_eq!(bars.len(), 60);
    assert!(bars.iter().all(|b| *b == BarCell::default()));
}

#[test]
fn group_unread_count_counts_effectively_unread_signals() {
    let group = btc_group(&["15", "60"], &["vegas", "trend"]);
    let mut signals = SignalMap::new();
    let unread = SignalState {
        sd: 1,
        t: 1,
        read: false,
    };
    signals.insert(SignalKey::new("BTCUSDT", "15", "vegas"), unread);
    signals.insert(SignalKey::new("BTCUSDT", "60", "trend"), unread);
    signals.insert(
        SignalKey::new("BTCUSDT", "60", "vegas"),
        SignalState {
            sd: 1,
            t: 1,
            read: true,
        },
    );
    signals.insert(SignalKey::new("ETHUSDT", "15", "vegas"), unread);
    let mut pending = KeySet::new();
    assert_eq!(group_unread_count(&signals, &pending, &group), 2);
    pending.insert(SignalKey::new("BTCUSDT", "60", "trend"));
    assert_eq!(group_unread_count(&signals, &pending, &group), 1);
}

#[test]
fn bar_colors_follow_side_and_unread() {
    let bull = BarCell {
        side: Some(Side::Bull),
        mixed: false,
        unread: false,
    };
    assert_eq!(bar_color(bull), UiColor::Rgb(48, 181, 122));
    assert_eq!(
        bar_color(BarCell { unread: true, ..bull }),
        UiColor::Rgb(66, 220, 148)
    );
    assert_eq!(
        bar_color(BarCell {
            side: Some(Side::Bear),
            mixed: false,
            unread: true
        }),
        UiColor::Rgb(255, 119, 131)
    );
    assert_eq!(
        bar_color(BarCell { mixed: true, ..bull }),
        UiColor::Rgb(236, 170, 72)
    );
    assert_eq!(bar_color(BarCell::default()), UiColor::Rgb(60, 84, 95));
}

#[test]
fn side_labels_and_poll_indicator() {
    assert_eq!(side_label(Side::Bull), ("多", UiColor::Rgb(48, 181, 122)));
    assert_eq!(side_label(Side::Bear), ("空", UiColor::Rgb(214, 84, 105)));
    assert_eq!(side_label(Side::Unknown), ("未知", UiColor::LightGray));
    assert_eq!(
        poll_state_indicator(Some(true)),
        (UiColor::Rgb(48, 181, 122), "轮询正常")
    );
    assert_eq!(
        poll_state_indicator(Some(false)),
        (UiColor::Rgb(214, 84, 105), "上次轮询失败")
    );
    assert_eq!(poll_state_indicator(None), (UiColor::LightGray, "尚未轮询"));
}

#[test]
fn status_meta_text_shows_page_data() {
    assert_eq!(
        status_meta_text(Some((120, 1, 100))),
        "total=120, page=1, pageSize=100"
    );
    assert_eq!(status_meta_text(None), "total=0");
}

#[test]
fn popover_titles() {
    assert_eq!(popover_title(&HoverPanelTarget::Global), "全部未读警报");
    assert_eq!(
        popover_title(&HoverPanelTarget::Group("g1".to_string())),
        "分组未读警报"
    );
}

#[test]
fn hover_panel_closes_after_its_delay() {
    let open = Some(HoverPanelState {
        target: HoverPanelTarget::Global,
        close_deadline_ms: None,
    });
    let kept = advance_hover_panel(open.clone(), true, false, 1_000, 200).expect("still open");
    assert_eq!(kept.close_deadline_ms, None);

    let closing = advance_hover_panel(open, false, false, 1_000, 200).expect("closing");
    assert_eq!(closing.close_deadline_ms, Some(1_200));
    assert_eq!(closing.target, HoverPanelTarget::Global);

    let still = advance_hover_panel(Some(closing.clone()), false, false, 1_100, 200)
        .expect("not yet closed");
    assert_eq!(still.close_deadline_ms, Some(1_200));

    assert!(advance_hover_panel(Some(closing), false, false, 1_200, 200).is_none());
    assert!(advance_hover_panel(None, true, true, 0, 200).is_none());
}

#[test]
fn periods_are_listed_longest_first() {
    let periods: Vec<String> = ["15", "W", "60", "4D", "abc", "5"]
        .iter()
        .map(|p| p.to_string())
        .collect();
    let sorted = sorted_periods(&periods);
    assert_eq!(sorted, vec!["W", "4D", "60", "15", "5", "abc"]);
}

#[test]
fn trigger_times_render_as_local_month_day_time() {
    let text = format_trigger_time_local(1_700_000_000_000);
    assert_eq!(text.chars().count(), 14);
    let chars: Vec<char> = text.chars().collect();
    assert_eq!(chars[2], '-');
    assert_eq!(chars[5], ' ');
    assert_eq!(chars[8], ':');
    assert_eq!(chars[11], ':');
    for (i, c) in chars.iter().enumerate() {
        if ![2, 5, 8, 11].contains(&i) {
            assert!(c.is_ascii_digit());
        }
    }
    let possible = |ms: i64| -> Vec<String> {
        let base = chrono::DateTime::from_timestamp_millis(ms).expect("in range");
        (-1_439i64..=1_439)
            .map(|m| (base + chrono::Duration::seconds(m * 60)).format("%m-%d %H:%M:%S").to_string())
            .collect()
    };
    assert!(possible(1_700_000_000_000).contains(&text));
    let later = format_trigger_time_local(1_700_000_000_000 + 40 * 86_400_000);
    assert!(possible(1_700_000_000_000 + 40 * 86_400_000).contains(&later));
    assert_ne!(later, text);
    assert_eq!(format_trigger_time_local(8_000_000_000_000_000).chars().count(), 14);
    assert_eq!(format_trigger_time_local(-8_000_000_000_000_000).chars().count(), 14);
    assert_eq!(format_trigger_time_local(i64::MAX), "-");
}

#[test]
fn last_poll_line() {
    assert_eq!(
        compose_last_poll_text(Some(100_000), "11-14 22:13:20", 280_000),
        "last poll: 11-14 22:13:20 (3 分钟前)"
    );
    assert_eq!(compose_last_poll_text(None, "x", 0), "last poll: never");
    assert_eq!(last_poll_text(None, 5), "last poll: never");
    let line = last_poll_text(Some(1_700_000_000_000), 1_700_000_030_000);
    assert!(line.starts_with("last poll: "));
    assert!(line.ends_with(" (刚刚)"));
}

#[test]
fn group_summary_lists_types_and_periods() {
    let group = btc_group(&["15", "60", "W"], &["vegas", "trend"]);
    assert_eq!(
        group_summary_text(&group),
        "signals: vegas,trend | periods: 15,60,W"
    );
    assert_eq!(join_with_commas(&Vec::new()), "");
    assert_eq!(join_with_commas(&vec!["a".to_string()]), "a");
}

#[test]
fn total_unread_counts_each_signal_once() {
    let groups = vec![
        btc_group(&["15"], &["vegas"]),
        btc_group(&["15", "60"], &["vegas"]),
    ];
    let mut signals = SignalMap::new();
    let unread = SignalState {
        sd: 1,
        t: 1,
        read: false,
    };
    signals.insert(SignalKey::new("BTCUSDT", "15", "vegas"), unread);
    signals.insert(SignalKey::new("BTCUSDT", "60", "vegas"), unread);
    assert_eq!(total_unread_count(&groups, &signals, &KeySet::new()), 2);
    let mut disabled = groups.clone();
    disabled[1].enabled = false;
    assert_eq!(total_unread_count(&disabled, &signals, &KeySet::new()), 1);
}

#[test]
fn marking_a_group_read_picks_each_unread_signal_once() {
    let group = btc_group(&["15", "60", "15"], &["vegas", "trend"]);
    let mut signals = SignalMap::new();
    let unread = SignalState {
        sd: 1,
        t: 1,
        read: false,
    };
    signals.insert(SignalKey::new("BTCUSDT", "15", "vegas"), unread);
    signals.insert(SignalKey::new("BTCUSDT", "15", "trend"), SignalState { read: true, ..unread });
    signals.insert(SignalKey::new("BTCUSDT", "60", "trend"), unread);
    signals.insert(SignalKey::new("BTCUSDT", "60", "vegas"), unread);
    let mut pending = KeySet::new();
    pending.insert(SignalKey::new("BTCUSDT", "60", "vegas"));
    let keys = group_keys_to_mark(&signals, &pending, &group);
    assert_eq!(
        keys,
        vec![
            SignalKey::new("BTCUSDT", "15", "vegas"),
            SignalKey::new("BTCUSDT", "60", "trend"),
        ]
    );
}

#[test]
fn a_set_closing_time_needs_no_arithmetic() {
    let closing = Some(HoverPanelState {
        target: HoverPanelTarget::Global,
        close_deadline_ms: Some(1_200),
    });
    assert!(advance_hover_panel(closing, false, false, i64::MAX, 200).is_none());
}
