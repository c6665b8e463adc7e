use std::cmp::Ordering;

use signal_desk_egui::config::{default_groups, group_key_list, ApiConfig, PollConfig};
use signal_desk_egui::domain::{
    compare_period_desc, key_less, parse_i64_chars, period_before, period_fits, period_to_millis, Side,
    SignalKey,
};
use signal_desk_egui::protocol::AppSnapshot as CompactSnapshot;
use signal_desk_egui::text::{
    append_str, chars_of, compare_chars, str_eq, string_of, trim_chars, u64_to_decimal,
};

#[test]
fn side_codes() {
    assert_eq!(Side::from_code(1), Side::Bull);
    assert_eq!(Side::from_code(-1), Side::Bear);
    assert_eq!(Side::from_code(0), Side::Unknown);
    assert_eq!(Side::from_code(2), Side::Unknown);
}

#[test]
fn minutes_days_and_weeks_become_milliseconds() {
    assert_eq!(period_to_millis("15"), Some(900_000));
    assert_eq!(period_to_millis("60"), Some(3_600_000));
    assert_eq!(period_to_millis("4D"), Some(4 * 86_400_000));
    assert_eq!(period_to_millis("d"), Some(86_400_000));
    assert_eq!(period_to_millis("W"), Some(604_800_000));
    assert_eq!(period_to_millis("2w"), Some(2 * 604_800_000));
    assert_eq!(period_to_millis("WW"), Some(604_800_000));
}

#[test]
fn periods_are_trimmed_before_parsing() {
    assert_eq!(period_to_millis(" 60 "), Some(3_600_000));
    assert_eq!(period_to_millis("\t4d\n"), Some(4 * 86_400_000));
    assert_eq!(period_to_millis("\u{3000}15"), Some(900_000));
}

#[test]
fn malformed_periods_have_no_length() {
    assert_eq!(period_to_millis(""), None);
    assert_eq!(period_to_millis("   "), None);
    assert_eq!(period_to_millis("abc"), None);
    assert_eq!(period_to_millis("1H"), None);
    assert_eq!(period_to_millis("xD"), None);
    assert_eq!(period_to_millis("1 5"), None);
}

#[test]
fn signed_counts_parse_as_rust_does() {
    assert_eq!(period_to_millis("-5"), Some(-300_000));
    assert_eq!(period_to_millis("+5"), Some(300_000));
    assert_eq!(period_to_millis("-"), None);
    assert_eq!(parse_i64_chars(&"9223372036854775807".chars().collect()), Some(i64::MAX));
    assert_eq!(parse_i64_chars(&"-9223372036854775808".chars().collect()), Some(i64::MIN));
    assert_eq!(parse_i64_chars(&"9223372036854775808".chars().collect()), None);
    assert_eq!(parse_i64_chars(&"007".chars().collect()), Some(7));
}

#[test]
fn longer_periods_sort_first() {
    assert_eq!(compare_period_desc("60", "15"), Ordering::Less);
    assert_eq!(compare_period_desc("15", "60"), Ordering::Greater);
    assert_eq!(compare_period_desc("W", "4D"), Ordering::Less);
    assert_eq!(compare_period_desc("15", "15"), Ordering::Equal);
    assert!(period_before("W", "15"));
    assert!(!period_before("15", "15"));
}

#[test]
fn periods_of_equal_length_sort_by_text() {
    assert_eq!(compare_period_desc("1D", "D"), Ordering::Less);
    assert_eq!(compare_period_desc("abc", "xyz"), Ordering::Less);
    assert_eq!(compare_period_desc("1440", "D"), Ordering::Less);
    assert_eq!(compare_period_desc("D", "1440"), Ordering::Greater);
}

#[test]
fn keys_order_by_symbol_then_period_then_type() {
    let a = SignalKey::new("BTCUSDT", "60", "vegas");
    let b = SignalKey::new("ETHUSDT", "15", "trend");
    let c = SignalKey::new("BTCUSDT", "60", "zeta");
    assert!(key_less(&a, &b));
    assert!(!key_less(&b, &a));
    assert!(key_less(&a, &c));
    assert!(!key_less(&a, &a));
    assert!(a.same_as(&a.clone()));
    assert!(!a.same_as(&c));
}

#[test]
fn text_helpers() {
    assert_eq!(u64_to_decimal(0), "0");
    assert_eq!(u64_to_decimal(1205), "1205");
    assert_eq!(u64_to_decimal(u64::MAX), u64::MAX.to_string());
    let trimmed = trim_chars(&"  a b\u{2003}".chars().collect());
    assert_eq!(string_of(&trimmed), "a b");
    assert_eq!(chars_of("新信号"), vec!['新', '信', '号']);
    let mut s = "total=".to_string();
    append_str(&mut s, "12");
    assert_eq!(s, "total=12");
    assert!(str_eq("vegas", "vegas"));
    assert!(!str_eq("vegas", "Vegas"));
    assert_eq!(compare_chars(&vec!['a'], &vec!['a', 'b']), -1);
    assert_eq!(compare_chars(&vec!['b'], &vec!['a', 'b']), 1);
    assert_eq!(compare_chars(&vec![], &vec![]), 0);
}

#[test]
fn default_configuration() {
    let groups = default_groups();
    assert_eq!(groups.len(), 2);
    assert_eq!(groups[0].symbol, "BTCUSDT");
    assert_eq!(groups[0].periods, vec!["15", "60", "4D", "W"]);
    assert_eq!(groups[0].signal_types, vec!["vegas"]);
    assert_eq!(groups[1].symbol, "ETHUSDT");
    assert_eq!(groups[1].signal_types, vec!["divMacd"]);
    assert!(groups.iter().all(|g| g.enabled));
    let poll = PollConfig::default();
    assert_eq!((poll.interval_secs, poll.page_size), (8, 100));
    assert_eq!(ApiConfig::default().base_url, "https://example.com");
    let compact = CompactSnapshot::default();
    assert_eq!(compact.unread_count, 0);
    assert_eq!(compact.last_poll_error, None);
}

#[test]
fn group_keys_list_period_by_period() {
    let groups = default_groups();
    let keys = group_key_list(&groups[0]);
    let names: Vec<(String, String)> = keys
        .iter()
        .map(|k| (k.period.clone(), k.signal_type.clone()))
        .collect();
    assert_eq!(
        names,
        vec![
            ("15".to_string(), "vegas".to_string()),
            ("60".to_string(), "vegas".to_string()),
            ("4D".to_string(), "vegas".to_string()),
            ("W".to_string(), "vegas".to_string()),
        ]
    );
    assert!(keys.iter().all(|k| k.symbol == "BTCUSDT"));
}

#[test]
fn period_lengths_that_overflow_are_detected() {
    assert!(period_fits("15"));
    assert!(period_fits("abc"));
    assert!(period_fits(""));
    assert!(period_fits("15250284452W"));
    assert!(!period_fits("15250284453W"));
    assert!(period_fits("106751991167D"));
    assert!(!period_fits("106751991168d"));
    assert!(period_fits("153722867280912"));
    assert!(!period_fits("153722867280913"));
    assert!(!period_fits("-153722867280913"));
    assert_eq!(period_to_millis("15250284452W"), Some(15_250_284_452 * 604_800_000));
}
