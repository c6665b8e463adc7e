use signal_desk_egui::api::{
    classify_reply_status, SignalRow, SignalState, normalize_base_url, read_status_request, read_status_url,
    signals_url, unauthorized_message, ReplyStatus,
};
use signal_desk_egui::config::{config_location, ConfigLocation};
use signal_desk_egui::domain::SignalKey;

#[test]
fn base_url_loses_its_trailing_slashes() {
    assert_eq!(normalize_base_url("https://example.com/"), "https://example.com");
    assert_eq!(normalize_base_url("https://example.com///"), "https://example.com");
    assert_eq!(normalize_base_url("https://example.com"), "https://example.com");
    assert_eq!(normalize_base_url("/"), "");
}

#[test]
fn endpoints_hang_off_the_base_url() {
    let base = normalize_base_url("https://api.example.com/");
    assert_eq!(
        signals_url(&base),
        "https://api.example.com/api/open/watch-list/symbol-signals"
    );
    assert_eq!(
        read_status_url(&base),
        "https://api.example.com/api/open/watch-list/symbol-alert/read-status"
    );
}

#[test]
fn read_status_body_names_the_signal() {
    let key = SignalKey::new("BTCUSDT", "15", "vegas");
    let body = read_status_request(&key, true);
    assert_eq!(body.symbol, "BTCUSDT");
    assert_eq!(body.period, "15");
    assert_eq!(body.signal_type, "vegas");
    assert!(body.read);
    assert!(!read_status_request(&key, false).read);
}

#[test]
fn reply_statuses() {
    assert_eq!(classify_reply_status(401), ReplyStatus::Unauthorized);
    assert_eq!(classify_reply_status(200), ReplyStatus::Success);
    assert_eq!(classify_reply_status(204), ReplyStatus::Success);
    assert_eq!(classify_reply_status(299), ReplyStatus::Success);
    assert_eq!(classify_reply_status(300), ReplyStatus::Failed);
    assert_eq!(classify_reply_status(404), ReplyStatus::Failed);
    assert_eq!(classify_reply_status(500), ReplyStatus::Failed);
    assert_eq!(classify_reply_status(101), ReplyStatus::Failed);
    assert_eq!(unauthorized_message(), "api unauthorized: invalid x-api-key");
}

#[test]
fn config_file_location_rules() {
    assert_eq!(config_location(Some(true), true, true, true), ConfigLocation::Explicit);
    assert_eq!(
        config_location(Some(false), false, false, false),
        ConfigLocation::ExplicitUnderWorkingDir
    );
    assert_eq!(config_location(None, true, false, true), ConfigLocation::WorkingDir);
    assert_eq!(config_location(None, false, true, true), ConfigLocation::WorkingDir);
    assert_eq!(config_location(None, false, false, true), ConfigLocation::UserConfigDir);
    assert_eq!(
        config_location(None, false, false, false),
        ConfigLocation::WorkingDirFallback
    );
}

#[test]
fn a_row_keeps_each_signal_name_once_with_its_last_state() {
    let st = |sd: i32, t: i64| SignalState { sd, t, read: false };
    let row = SignalRow::from_named_signals(
        "BTCUSDT".to_string(),
        "15".to_string(),
        7,
        vec![
            ("vegas".to_string(), st(1, 1)),
            ("trend".to_string(), st(-1, 2)),
            ("vegas".to_string(), st(-1, 3)),
        ],
    );
    assert_eq!(row.symbol, "BTCUSDT");
    assert_eq!(row.period, "15");
    assert_eq!(row.t, 7);
    assert_eq!(
        row.signals,
        vec![("vegas".to_string(), st(-1, 3)), ("trend".to_string(), st(-1, 2))]
    );
}
