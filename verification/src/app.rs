//! What the main window shows: the 60-bar history of each period, the period
//! labels, the unread counts, the status line, and what a window action means.
use vstd::prelude::*;

use crate::api::SignalState;
use crate::app_core::queries::unread::is_effectively_unread;
use crate::collections::{key_views, KeySet, SignalMap};
use crate::config::{group_key_list, group_keys, keys_for, period_keys, GroupConfig, GroupView};
use crate::domain::{
    period_before, lemma_period_order, period_order, opt_int, period_in_range, period_millis, period_to_millis, side_of_code, KeyView, Side,
    SignalKey,
};
use crate::app_core::services::poller_service::{join_commas, texts_of};
use crate::app_core::state::{mark_group_fold, StateView};
use crate::config::groups_view;
use crate::text::{append_str, decimal, digit_char, u64_to_decimal};
use crate::unread_panel::{
    build_unread_items, candidates, listed_rows, next_close_deadline_ms, target_view,
    HoverPanelState, HoverPanelTarget,
};
use chrono::TimeZone;

verus! {

/// A colour of the interface: an RGB triple, or the toolkit's light grey.
#[derive(Debug, Clone, Copy, PartialEq, Eq, Structural)]
pub enum UiColor {
    Rgb(u8, u8, u8),
    LightGray,
}

/// One bar of the history: the side of the signals in it (mixed where they
/// disagree) and whether one of them is unread.
#[derive(Clone, Copy, Debug, PartialEq, Eq, Structural)]
pub struct BarCell {
    pub side: Option<Side>,
    pub mixed: bool,
    pub unread: bool,
}

impl Default for BarCell {
    fn default() -> (c: Self)
        ensures
            c == (BarCell { side: None, mixed: false, unread: false }),
    {
        BarCell { side: None, mixed: false, unread: false }
    }
}

/// A bar after a signal of `side` falls in it.
pub open spec fn merged_cell(cell: BarCell, side: Side, unread: bool) -> BarCell {
    BarCell {
        unread: cell.unread || unread,
        side: match cell.side {
            None => Some(side),
            Some(s) => Some(s),
        },
        mixed: cell.mixed || match cell.side {
            None => false,
            Some(s) => s != side,
        },
    }
}

/// Adds a signal of `side` to a bar.
pub fn merge_bar_cell(cell: &mut BarCell, side: Side, unread: bool)
    ensures
        *final(cell) == merged_cell(*old(cell), side, unread),
{
    if unread {
        cell.unread = true;
    }
    match cell.side {
        None => {
            cell.side = Some(side);
        },
        Some(existing) => {
            if existing != side {
                cell.mixed = true;
            }
        },
    }
}

/// Integer division rounding toward zero, as Rust's `/` on integers does.
pub open spec fn div_toward_zero(a: int, b: int) -> int {
    let q = (if a >= 0 { a } else { -a }) / (if b >= 0 { b } else { -b });
    if (a >= 0) == (b >= 0) {
        q
    } else {
        -q
    }
}

/// `a - b`, held within the range of `i64` (`i64::saturating_sub`).
pub open spec fn sat_sub(a: i64, b: i64) -> int {
    let d = a - b;
    if d > i64::MAX {
        i64::MAX as int
    } else if d < i64::MIN {
        i64::MIN as int
    } else {
        d
    }
}

/// `i64::saturating_sub`.
pub fn saturating_sub_i64(a: i64, b: i64) -> (r: i64)
    ensures
        r == sat_sub(a, b),
{
    let d: i128 = a as i128 - b as i128;
    if d > 0x7fff_ffff_ffff_ffffi128 {
        i64::MAX
    } else if d < -0x8000_0000_0000_0000i128 {
        i64::MIN
    } else {
        d as i64
    }
}

/// `a / b` rounding toward zero.
pub fn div_toward_zero_i64(a: i64, b: i64) -> (q: i128)
    requires
        b != 0,
    ensures
        q == div_toward_zero(a as int, b as int),
{
    let ua: i128 = if a >= 0 { a as i128 } else { -(a as i128) };
    let ub: i128 = if b >= 0 { b as i128 } else { -(b as i128) };
    let q = ua / ub;
    if (a >= 0) == (b >= 0) {
        q
    } else {
        -q
    }
}

/// The bar of the history that a signal at `t` falls in, counting back from
/// the newest bar at 59; none outside the 60 bars.
pub open spec fn bar_slot(now_ms: i64, t: i64, period_ms: int) -> Option<int> {
    let slot = div_toward_zero(sat_sub(now_ms, t), period_ms);
    if 0 <= slot < 60 {
        Some(59 - slot)
    } else {
        None
    }
}

/// The history after the signal of `key`, if reported, is put in its bar.
pub open spec fn bars_step(
    bars: Seq<BarCell>,
    key: KeyView,
    signals: Map<KeyView, SignalState>,
    pending: Set<KeyView>,
    now_ms: i64,
    period_ms: int,
) -> Seq<BarCell> {
    if !signals.contains_key(key) {
        bars
    } else {
        match bar_slot(now_ms, signals[key].t, period_ms) {
            Some(idx) => bars.update(
                idx,
                merged_cell(
                    bars[idx],
                    side_of_code(signals[key].sd as int),
                    is_effectively_unread(signals, pending, key),
                ),
            ),
            None => bars,
        }
    }
}

/// The history of the signals of `keys`, taken one by one.
pub open spec fn bars_of(
    keys: Seq<KeyView>,
    signals: Map<KeyView, SignalState>,
    pending: Set<KeyView>,
    now_ms: i64,
    period_ms: int,
) -> Seq<BarCell>
    decreases keys.len(),
{
    if keys.len() == 0 {
        Seq::new(60, |i: int| BarCell { side: None, mixed: false, unread: false })
    } else {
        bars_step(
            bars_of(keys.drop_last(), signals, pending, now_ms, period_ms),
            keys.last(),
            signals,
            pending,
            now_ms,
            period_ms,
        )
    }
}

/// The keys of every signal type of `group` at `period`.
pub open spec fn period_type_keys(g: GroupView, period: Seq<char>) -> Seq<KeyView> {
    g.signal_types.map_values(|t: Seq<char>| (g.symbol, period, t))
}

/// The 60 bars of `group` at `period`: empty where the period has no length.
pub open spec fn period_bars(
    g: GroupView,
    period: Seq<char>,
    signals: Map<KeyView, SignalState>,
    pending: Set<KeyView>,
    now_ms: i64,
) -> Seq<BarCell> {
    match period_millis(period) {
        None => Seq::new(60, |i: int| BarCell { side: None, mixed: false, unread: false }),
        Some(ms) => bars_of(period_type_keys(g, period), signals, pending, now_ms, ms),
    }
}

/// The 60-bar history of the signals of `group` at `period` at `now_ms`, the
/// oldest bar first.
pub fn build_bars(
    signals: &SignalMap,
    pending_read: &KeySet,
    group: &GroupConfig,
    period: &str,
    now_ms: i64,
) -> (bars: Vec<BarCell>)
    requires
        period_in_range(period@),
        period_millis(period@) != Some(0int),
    ensures
        bars@ == period_bars(group@, period@, signals@, pending_read@, now_ms),
        bars@.len() == 60,
{
    let mut bars: Vec<BarCell> = Vec::new();
    let mut k: usize = 0;
    while k < 60
        invariant
            k <= 60,
            bars@.len() == k,
            forall|i: int| 0 <= i < k ==> #[trigger] bars@[i] == (BarCell { side: None, mixed: false, unread: false }),
        decreases 60 - k,
    {
        bars.push(BarCell::default());
        k = k + 1;
    }
    assert(bars@ =~= Seq::new(60, |i: int| BarCell { side: None, mixed: false, unread: false }));
    let period_ms = match period_to_millis(period) {
        Some(ms) => ms,
        None => {
            return bars;
        },
    };
    let ghost g = group@;
    let ghost keys = period_type_keys(g, period@);
    let mut j: usize = 0;
    assert(keys.take(0) =~= Seq::<KeyView>::empty());
    while j < group.signal_types.len()
        invariant
            j <= group.signal_types@.len(),
            g == group@,
            keys == period_type_keys(g, period@),
            period_ms != 0,
            bars@ == bars_of(keys.take(j as int), signals@, pending_read@, now_ms, period_ms as int),
            bars@.len() == 60,
        decreases group.signal_types@.len() - j,
    {
        let key = SignalKey::new(group.symbol.as_str(), period, group.signal_types[j].as_str());
        assert(key@ == keys[j as int]);
        assert(keys.take(j + 1).drop_last() =~= keys.take(j as int));
        assert(keys.take(j + 1).last() == key@);
        match signals.get(&key) {
            Some(signal) => {
                let elapsed = saturating_sub_i64(now_ms, signal.t);
                let slot = div_toward_zero_i64(elapsed, period_ms);
                if 0 <= slot && slot < 60 {
                    let idx = (59 - slot) as usize;
                    let side = Side::from_code(signal.sd);
                    let unread = !signal.read && !pending_read.contains(&key);
                    let mut cell = bars[idx];
                    merge_bar_cell(&mut cell, side, unread);
                    bars.set(idx, cell);
                }
            },
            None => {},
        }
        j = j + 1;
    }
    assert(keys.take(j as int) =~= keys);
    bars
}

/// Whether one signal type of `group` at `period` is effectively unread.
pub open spec fn has_unread_at(
    signals: Map<KeyView, SignalState>,
    pending: Set<KeyView>,
    g: GroupView,
    period: Seq<char>,
) -> bool {
    exists|i: int|
        0 <= i < g.signal_types.len() && is_effectively_unread(
            signals,
            pending,
            (g.symbol, period, g.signal_types[i]),
        )
}

/// Whether a signal of `group` at `period` is effectively unread, whatever
/// its bar.
pub fn period_has_unread(
    signals: &SignalMap,
    pending_read: &KeySet,
    group: &GroupConfig,
    period: &str,
) -> (r: bool)
    ensures
        r == has_unread_at(signals@, pending_read@, group@, period@),
{
    let mut i: usize = 0;
    while i < group.signal_types.len()
        invariant
            i <= group.signal_types@.len(),
            forall|j: int|
                0 <= j < i ==> !is_effectively_unread(
                    signals@,
                    pending_read@,
                    (group@.symbol, period@, #[trigger] group@.signal_types[j]),
                ),
        decreases group.signal_types@.len() - i,
    {
        let key = SignalKey::new(group.symbol.as_str(), period, group.signal_types[i].as_str());
        assert(key@ == (group@.symbol, period@, group@.signal_types[i as int]));
        match signals.get(&key) {
            Some(signal) => {
                if !signal.read && !pending_read.contains(&key) {
                    return true;
                }
            },
            None => {},
        }
        i = i + 1;
    }
    false
}

/// The keys of a group that are effectively unread, with repeats.
pub open spec fn group_unread(g: GroupView, signals: Map<KeyView, SignalState>, pending: Set<KeyView>) -> Seq<KeyView> {
    group_keys(g).filter(|k: KeyView| is_effectively_unread(signals, pending, k))
}

/// How many of the signals that `group` lists are effectively unread.
pub fn group_unread_count(signals: &SignalMap, pending_read: &KeySet, group: &GroupConfig) -> (n:
    usize)
    ensures
        n == group_unread(group@, signals@, pending_read@).len(),
{
    let keys = group_key_list(group);
    let ghost kv = key_views(keys@);
    let ghost f = |k: KeyView| is_effectively_unread(signals@, pending_read@, k);
    let mut n: usize = 0;
    let mut i: usize = 0;
    assert(kv.take(0) =~= Seq::<KeyView>::empty());
    while i < keys.len()
        invariant
            i <= keys@.len(),
            kv == key_views(keys@),
            f == (|k: KeyView| is_effectively_unread(signals@, pending_read@, k)),
            n == kv.take(i as int).filter(f).len(),
            n <= i,
        decreases keys@.len() - i,
    {
        let key = &keys[i];
        assert(kv[i as int] == key@);
        assert(kv.take(i + 1) =~= kv.take(i as int).push(key@));
        proof {
            kv.take(i as int).lemma_filter_push(key@, f);
        }
        let unread = match signals.get(key) {
            Some(signal) => !signal.read && !pending_read.contains(key),
            None => false,
        };
        if unread {
            n = n + 1;
        }
        i = i + 1;
    }
    assert(kv.take(i as int) =~= kv);
    n
}

/// The keys of `keys` that marking a group read marks: each effectively
/// unread key, once, in order.
pub open spec fn keys_to_mark(
    keys: Seq<KeyView>,
    signals: Map<KeyView, SignalState>,
    pending: Set<KeyView>,
) -> Seq<KeyView>
    decreases keys.len(),
{
    if keys.len() == 0 {
        Seq::empty()
    } else {
        let prev = keys_to_mark(keys.drop_last(), signals, pending);
        let k = keys.last();
        if is_effectively_unread(signals, pending, k) && !prev.contains(k) {
            prev.push(k)
        } else {
            prev
        }
    }
}

/// The signals of `group` that "mark all read" marks: those effectively
/// unread, each once, period by period and type by type.
pub fn group_keys_to_mark(signals: &SignalMap, pending_read: &KeySet, group: &GroupConfig) -> (r: Vec<
    SignalKey,
>)
    ensures
        key_views(r@) == keys_to_mark(group_keys(group@), signals@, pending_read@),
{
    let keys = group_key_list(group);
    let ghost kv = key_views(keys@);
    let mut r: Vec<SignalKey> = Vec::new();
    let mut seen = KeySet::new();
    let mut i: usize = 0;
    assert(kv.take(0) =~= Seq::<KeyView>::empty());
    assert(key_views(r@) =~= Seq::<KeyView>::empty());
    assert(key_views(r@).to_set() =~= Set::<KeyView>::empty());
    while i < keys.len()
        invariant
            i <= keys@.len(),
            kv == key_views(keys@),
            kv == group_keys(group@),
            key_views(r@) == keys_to_mark(kv.take(i as int), signals@, pending_read@),
            seen@ == key_views(r@).to_set(),
        decreases keys@.len() - i,
    {
        let key = &keys[i];
        let ghost prev = key_views(r@);
        assert(kv[i as int] == key@);
        assert(kv.take(i + 1).drop_last() =~= kv.take(i as int));
        assert(kv.take(i + 1).last() == key@);
        let unread = match signals.get(key) {
            Some(st) => !st.read && !pending_read.contains(key),
            None => false,
        };
        if unread && !seen.contains(key) {
            seen.insert(key.clone());
            r.push(key.clone());
            assert(key_views(r@) =~= prev.push(key@));
            proof {
                prev.lemma_push_to_set_commute(key@);
            }
        }
        i = i + 1;
    }
    assert(kv.take(i as int) =~= kv);
    r
}

/// Marking a group read marks exactly the keys that `group_keys_to_mark`
/// names, and afterwards a key shows unread only where it did before and was
/// not marked.
pub proof fn law_group_mark_marks_unread_keys(s: StateView, keys: Seq<KeyView>)
    ensures
        mark_group_fold(s, keys).1 == keys_to_mark(keys, s.signals, s.pending_read),
        forall|k: KeyView|
            is_effectively_unread(mark_group_fold(s, keys).0.signals, mark_group_fold(s, keys).0.pending_read, k)
                == (is_effectively_unread(s.signals, s.pending_read, k) && !mark_group_fold(
                s,
                keys,
            ).1.contains(k)),
    decreases keys.len(),
{
    if keys.len() > 0 {
        law_group_mark_marks_unread_keys(s, keys.drop_last());
        let prev = mark_group_fold(s, keys.drop_last());
        let t = prev.0;
        let m = prev.1;
        let k = keys.last();
        if t.signals.contains_key(k) && !t.signals[k].read && !t.pending_read.contains(k) {
            let t2 = crate::app_core::state::mark_read_requested(t, k);
            assert(is_effectively_unread(t.signals, t.pending_read, k));
            assert forall|j: KeyView|
                is_effectively_unread(t2.signals, t2.pending_read, j) == (is_effectively_unread(
                    s.signals,
                    s.pending_read,
                    j,
                ) && !m.push(k).contains(j)) by {
                if j == k {
                    assert(m.push(k)[m.len() as int] == k);
                } else {
                    assert(m.push(k).contains(j) == m.contains(j)) by {
                        if m.push(k).contains(j) {
                            let idx = choose|idx: int| 0 <= idx < m.push(k).len() && m.push(k)[idx] == j;
                            assert(m[idx] == j);
                        }
                        if m.contains(j) {
                            let idx = choose|idx: int| 0 <= idx < m.len() && m[idx] == j;
                            assert(m.push(k)[idx] == j);
                        }
                    }
                }
            }
        } else {
            assert(!(is_effectively_unread(s.signals, s.pending_read, k) && !m.contains(k)));
        }
    }
}

/// The label of a period: marked and highlighted where it has unread signals.
#[derive(Clone, Debug, PartialEq, Eq)]
pub struct PeriodLabelVisual {
    pub text: String,
    pub color: Option<UiColor>,
    pub strong: bool,
}

/// The highlight of a period label.
pub open spec fn highlight() -> UiColor {
    UiColor::Rgb(245, 173, 0)
}

/// The label of `period`: `•` before it, highlighted and strong where it has
/// unread signals; plain otherwise.
pub fn period_label_visual(period: &str, has_unread: bool) -> (v: PeriodLabelVisual)
    ensures
        has_unread ==> v.text@ == "•"@ + period@ && v.color == Some(highlight()) && v.strong,
        !has_unread ==> v.text@ == period@ && v.color is None && !v.strong,
{
    if has_unread {
        let mut text = String::new();
        append_str(&mut text, "•");
        append_str(&mut text, period);
        PeriodLabelVisual { text, color: Some(UiColor::Rgb(245, 173, 0)), strong: true }
    } else {
        PeriodLabelVisual { text: period.to_string(), color: None, strong: false }
    }
}

/// How long ago `past_ms` is at `now_ms`: "just now" under a minute, whole
/// minutes otherwise.
pub open spec fn elapsed_text(past_ms: i64, now_ms: i64) -> Seq<char> {
    let d = sat_sub(now_ms, past_ms);
    if d < 60_000 {
        "刚刚"@
    } else {
        decimal((d / 60_000) as nat) + " 分钟前"@
    }
}

/// The age of the last poll, as the status line shows it.
pub fn format_elapsed_since_local(past_ms: i64, now_ms: i64) -> (s: String)
    ensures
        s@ == elapsed_text(past_ms, now_ms),
{
    let delta_ms = saturating_sub_i64(now_ms, past_ms);
    if delta_ms < 60_000 {
        "刚刚".to_string()
    } else {
        let minutes = (delta_ms / 60_000) as u64;
        let mut s = u64_to_decimal(minutes);
        append_str(&mut s, " 分钟前");
        s
    }
}

/// The instants, in milliseconds since the Unix epoch, that chrono can show:
/// about 253,000 years either side of 1970 (its dates reach year 262,143).
pub open spec fn clock_in_range(ms: i64) -> bool {
    -8_000_000_000_000_000 <= ms <= 8_000_000_000_000_000
}

/// `c` is an ASCII decimal digit.
pub open spec fn ascii_digit(c: char) -> bool {
    '0' <= c && c <= '9'
}

/// `t` reads `MM-DD hh:mm:ss`: two digits each, with `-`, a space and two
/// colons between them.
pub open spec fn month_day_time_text(t: Seq<char>) -> bool {
    &&& t.len() == 14
    &&& t[2] == '-' && t[5] == ' ' && t[8] == ':' && t[11] == ':'
    &&& forall|i: int|
        0 <= i < 14 && i != 2 && i != 5 && i != 8 && i != 11 ==> ascii_digit(#[trigger] t[i])
}

/// `n` (below 100) as two decimal digits.
pub open spec fn two_digits(n: int) -> Seq<char> {
    seq![digit_char(n / 10), digit_char(n % 10)]
}

/// The month (1 to 12) and day of the month of the day `days` after
/// 1970-01-01 in the proleptic Gregorian calendar (the civil-from-days
/// computation over 400-year eras of 146,097 days, years starting in March).
pub open spec fn civil_month_day(days: int) -> (int, int) {
    let z = days + 719_468;
    let era = z / 146_097;
    let doe = z - era * 146_097;
    let yoe = (doe - doe / 1_460 + doe / 36_524 - doe / 146_096) / 365;
    let doy = doe - (365 * yoe + yoe / 4 - yoe / 100);
    let mp = (5 * doy + 2) / 153;
    let d = doy - (153 * mp + 2) / 5 + 1;
    let m = if mp < 10 { mp + 3 } else { mp - 9 };
    (m, d)
}

/// `MM-DD hh:mm:ss` of the second `secs` after 1970-01-01 00:00:00 on the
/// proleptic Gregorian calendar (no leap seconds).
pub open spec fn civil_mdt(secs: int) -> Seq<char> {
    let days = secs / 86_400;
    let sod = secs % 86_400;
    let md = civil_month_day(days);
    two_digits(md.0) + seq!['-'] + two_digits(md.1) + seq![' '] + two_digits(sod / 3_600) + seq![
        ':',
    ] + two_digits((sod % 3_600) / 60) + seq![':'] + two_digits(sod % 60)
}

/// `t` is the wall-clock text of the instant `ms` in some time zone: the
/// `MM-DD hh:mm:ss` of its second shifted by a whole-second offset of less
/// than a day either way.
pub open spec fn local_text_of(ms: i64, t: Seq<char>) -> bool {
    exists|o: int| -86_400 < o < 86_400 && t == #[trigger] civil_mdt(ms / 1000 + o)
}

/// The local wall-clock time of `ms` (milliseconds since the Unix epoch) as
/// month-day hour:minute:second, by `chrono::Local::timestamp_millis_opt`
/// and `DateTime::format` with `%m-%d %H:%M:%S`. Whether chrono gives a time
/// depends on `ms` alone (`DateTime::from_timestamp_millis`), and it gives
/// one for every instant in `clock_in_range`; every field is zero-padded to
/// two digits. The text is the calendar time of the instant's second plus the
/// machine's offset from UTC, a whole number of seconds that chrono's
/// `FixedOffset` keeps under a day either way; which offset that is depends
/// on the machine's time zone and is left unsaid.
#[verifier::external_body]
fn local_month_day_time(ms: i64) -> (r: Option<String>)
    ensures
        clock_in_range(ms) ==> r is Some,
        r matches Some(t) ==> month_day_time_text(t@) && local_text_of(ms, t@),
{
    match chrono::Local.timestamp_millis_opt(ms).single() {
        Some(dt) => Some(dt.format("%m-%d %H:%M:%S").to_string()),
        None => None,
    }
}

/// The trigger time of a signal in the machine's time zone as
/// `MM-DD hh:mm:ss`, or `-` where chrono cannot show the instant.
pub fn format_trigger_time_local(trigger_time_ms: i64) -> (s: String)
    ensures
        clock_in_range(trigger_time_ms) ==> month_day_time_text(s@) && local_text_of(
            trigger_time_ms,
            s@,
        ),
        s@ == "-"@ || (month_day_time_text(s@) && local_text_of(trigger_time_ms, s@)),
{
    match local_month_day_time(trigger_time_ms) {
        Some(t) => t,
        None => "-".to_string(),
    }
}

/// The status line's account of the last poll, given the local time text of
/// that poll.
pub open spec fn last_poll_text_of(last_poll_ms: Option<i64>, local_time: Seq<char>, now_ms: i64) -> Seq<char> {
    match last_poll_ms {
        Some(ts) => "last poll: "@ + local_time + " ("@ + elapsed_text(ts, now_ms) + ")"@,
        None => "last poll: never"@,
    }
}

/// The status line's account of the last poll, where `local_time` is the
/// local time text of that poll.
pub fn compose_last_poll_text(last_poll_ms: Option<i64>, local_time: &str, now_ms: i64) -> (s: String)
    ensures
        s@ == last_poll_text_of(last_poll_ms, local_time@, now_ms),
{
    match last_poll_ms {
        Some(ts) => {
            let mut s = String::new();
            append_str(&mut s, "last poll: ");
            append_str(&mut s, local_time);
            append_str(&mut s, " (");
            let elapsed = format_elapsed_since_local(ts, now_ms);
            append_str(&mut s, elapsed.as_str());
            append_str(&mut s, ")");
            s
        },
        None => "last poll: never".to_string(),
    }
}

/// The status line's account of the last poll: when it was, in the
/// machine's time zone, and how long ago.
pub fn last_poll_text(last_poll_ms: Option<i64>, now_ms: i64) -> (s: String)
    ensures
        last_poll_ms is None ==> s@ == "last poll: never"@,
        last_poll_ms matches Some(ts) ==> exists|local_time: Seq<char>|
            #![trigger last_poll_text_of(last_poll_ms, local_time, now_ms)]
            (if clock_in_range(ts) {
                month_day_time_text(local_time) && local_text_of(ts, local_time)
            } else {
                local_time == "-"@ || (month_day_time_text(local_time) && local_text_of(
                    ts,
                    local_time,
                ))
            }) && s@ == last_poll_text_of(last_poll_ms, local_time, now_ms),
{
    match last_poll_ms {
        Some(ts) => {
            let local_time = format_trigger_time_local(ts);
            let s = compose_last_poll_text(last_poll_ms, local_time.as_str(), now_ms);
            let ghost lt = local_time@;
            assert((if clock_in_range(ts) {
                month_day_time_text(lt) && local_text_of(ts, lt)
            } else {
                lt == "-"@ || (month_day_time_text(lt) && local_text_of(ts, lt))
            }) && s@ == last_poll_text_of(last_poll_ms, lt, now_ms));
            s
        },
        None => compose_last_poll_text(None, "", now_ms),
    }
}

/// The texts of `v` joined with commas.
pub fn join_with_commas(v: &Vec<String>) -> (r: String)
    ensures
        r@ == join_commas(texts_of(v@)),
{
    let mut r = String::new();
    let mut i: usize = 0;
    while i < v.len()
        invariant
            i <= v@.len(),
            r@ == join_commas(texts_of(v@).take(i as int)),
        decreases v@.len() - i,
    {
        let ghost before = texts_of(v@).take(i as int);
        assert(texts_of(v@).take(i + 1).drop_last() =~= before);
        assert(texts_of(v@).take(i + 1).last() == v@[i as int]@);
        if i > 0 {
            append_str(&mut r, ",");
        } else {
            assert(texts_of(v@).take(1) =~= seq![v@[0]@]);
        }
        append_str(&mut r, v[i].as_str());
        proof {
            let t = texts_of(v@).take(i + 1);
            if i > 0 {
                reveal_strlit(",");
                assert(t.len() > 1);
                assert(join_commas(t) == join_commas(t.drop_last()) + seq![','] + t.last());
            }
            assert(r@ =~= join_commas(t));
        }
        i = i + 1;
    }
    assert(texts_of(v@).take(i as int) =~= texts_of(v@));
    r
}

/// The line under a group's heading: its signal types and its periods.
pub open spec fn group_summary_of(g: GroupView) -> Seq<char> {
    "signals: "@ + join_commas(g.signal_types) + " | periods: "@ + join_commas(g.periods)
}

/// The line under a group's heading.
pub fn group_summary_text(group: &GroupConfig) -> (s: String)
    ensures
        s@ == group_summary_of(group@),
{
    let mut s = String::new();
    append_str(&mut s, "signals: ");
    let types = join_with_commas(&group.signal_types);
    append_str(&mut s, types.as_str());
    append_str(&mut s, " | periods: ");
    let periods = join_with_commas(&group.periods);
    append_str(&mut s, periods.as_str());
    assert(texts_of(group.signal_types@) =~= group@.signal_types);
    assert(texts_of(group.periods@) =~= group@.periods);
    s
}

/// The number of unread signals of all enabled groups, each counted once:
/// the length of the list of all groups.
pub fn total_unread_count(groups: &Vec<GroupConfig>, signals: &SignalMap, pending_read: &KeySet) -> (n:
    usize)
    ensures
        n == listed_rows(
            candidates(groups_view(groups@), target_view(HoverPanelTarget::Global)),
            signals@,
            pending_read@,
            true,
        ).len(),
{
    let rows = build_unread_items(groups, signals, pending_read, &HoverPanelTarget::Global);
    rows.len()
}

/// The colour of a bar: mixed bars amber, bulls green and bears red (lighter
/// where unread), anything else slate.
pub open spec fn bar_color_of(cell: BarCell) -> UiColor {
    if cell.mixed {
        UiColor::Rgb(236, 170, 72)
    } else {
        match cell.side {
            Some(Side::Bull) => if cell.unread {
                UiColor::Rgb(66, 220, 148)
            } else {
                UiColor::Rgb(48, 181, 122)
            },
            Some(Side::Bear) => if cell.unread {
                UiColor::Rgb(255, 119, 131)
            } else {
                UiColor::Rgb(214, 84, 105)
            },
            _ => UiColor::Rgb(60, 84, 95),
        }
    }
}

/// The colour of a bar.
pub fn bar_color(cell: BarCell) -> (c: UiColor)
    ensures
        c == bar_color_of(cell),
{
    if cell.mixed {
        return UiColor::Rgb(236, 170, 72);
    }
    match cell.side {
        Some(Side::Bull) => {
            if cell.unread {
                UiColor::Rgb(66, 220, 148)
            } else {
                UiColor::Rgb(48, 181, 122)
            }
        },
        Some(Side::Bear) => {
            if cell.unread {
                UiColor::Rgb(255, 119, 131)
            } else {
                UiColor::Rgb(214, 84, 105)
            }
        },
        _ => UiColor::Rgb(60, 84, 95),
    }
}

/// The word and colour of a side: 多 green, 空 red, 未知 grey.
pub fn side_label(side: Side) -> (r: (&'static str, UiColor))
    ensures
        side == Side::Bull ==> r.0@ == "多"@ && r.1 == UiColor::Rgb(48, 181, 122),
        side == Side::Bear ==> r.0@ == "空"@ && r.1 == UiColor::Rgb(214, 84, 105),
        side == Side::Unknown ==> r.0@ == "未知"@ && r.1 == UiColor::LightGray,
{
    match side {
        Side::Bull => ("多", UiColor::Rgb(48, 181, 122)),
        Side::Bear => ("空", UiColor::Rgb(214, 84, 105)),
        Side::Unknown => ("未知", UiColor::LightGray),
    }
}

/// The health light of the status line: green and "polling fine" after a
/// good poll, red and "last poll failed" after failures, grey and "not
/// polled yet" before any poll.
pub fn poll_state_indicator(last_poll_ok: Option<bool>) -> (r: (UiColor, &'static str))
    ensures
        last_poll_ok == Some(true) ==> r.0 == UiColor::Rgb(48, 181, 122) && r.1@ == "轮询正常"@,
        last_poll_ok == Some(false) ==> r.0 == UiColor::Rgb(214, 84, 105) && r.1@
            == "上次轮询失败"@,
        last_poll_ok is None ==> r.0 == UiColor::LightGray && r.1@ == "尚未轮询"@,
{
    match last_poll_ok {
        Some(true) => (UiColor::Rgb(48, 181, 122), "轮询正常"),
        Some(false) => (UiColor::Rgb(214, 84, 105), "上次轮询失败"),
        None => (UiColor::LightGray, "尚未轮询"),
    }
}

/// The page data of the status line.
pub open spec fn meta_text_of(meta: Option<(u64, u32, u32)>) -> Seq<char> {
    match meta {
        Some((total, page, page_size)) => "total="@ + decimal(total as nat) + ", page="@ + decimal(
            page as nat,
        ) + ", pageSize="@ + decimal(page_size as nat),
        None => "total=0"@,
    }
}

/// The page data of the last poll, as the status line shows it.
pub fn status_meta_text(last_meta: Option<(u64, u32, u32)>) -> (s: String)
    ensures
        s@ == meta_text_of(last_meta),
{
    match last_meta {
        Some((total, page, page_size)) => {
            let mut s = String::new();
            append_str(&mut s, "total=");
            let t = u64_to_decimal(total);
            append_str(&mut s, t.as_str());
            append_str(&mut s, ", page=");
            let p = u64_to_decimal(page as u64);
            append_str(&mut s, p.as_str());
            append_str(&mut s, ", pageSize=");
            let z = u64_to_decimal(page_size as u64);
            append_str(&mut s, z.as_str());
            s
        },
        None => "total=0".to_string(),
    }
}

/// The heading of a hover list.
pub fn popover_title(target: &HoverPanelTarget) -> (t: &'static str)
    ensures
        *target is Global ==> t@ == "全部未读警报"@,
        *target is Group ==> t@ == "分组未读警报"@,
{
    match target {
        HoverPanelTarget::Global => "全部未读警报",
        HoverPanelTarget::Group(_) => "分组未读警报",
    }
}

/// The hover list after a frame: it closes once its closing time has come,
/// otherwise it keeps or clears its closing time as the pointer decides.
pub fn advance_hover_panel(
    panel: Option<HoverPanelState>,
    trigger_hovered: bool,
    panel_hovered: bool,
    now_ms: i64,
    delay_ms: i64,
) -> (r: Option<HoverPanelState>)
    requires
        (!trigger_hovered && !panel_hovered && (panel matches Some(p)
            && p.close_deadline_ms is None)) ==> i64::MIN <= now_ms + delay_ms <= i64::MAX,
    ensures
        match panel {
            None => r is None,
            Some(p) => if trigger_hovered || panel_hovered {
                r matches Some(q) && q.target == p.target && q.close_deadline_ms is None
            } else {
                let d = match p.close_deadline_ms {
                    Some(d) => d as int,
                    None => now_ms + delay_ms,
                };
                if now_ms >= d {
                    r is None
                } else {
                    r matches Some(q) && q.target == p.target && q.close_deadline_ms == Some(
                        d as i64,
                    )
                }
            },
        },
{
    match panel {
        None => None,
        Some(p) => {
            let next = next_close_deadline_ms(
                trigger_hovered,
                panel_hovered,
                now_ms,
                p.close_deadline_ms,
                delay_ms,
            );
            match next {
                Some(deadline) => {
                    if now_ms >= deadline {
                        None
                    } else {
                        Some(HoverPanelState { target: p.target, close_deadline_ms: Some(deadline) })
                    }
                },
                None => Some(HoverPanelState { target: p.target, close_deadline_ms: None }),
            }
        },
    }
}

/// What the runtime asks of the main window.
#[derive(Clone, Copy, Debug, PartialEq, Eq, Structural)]
pub enum UiAction {
    ShowMainWindow,
    HideMainWindowToTray,
    ExitProcess,
}

/// What the main window does to its viewport.
#[derive(Clone, Copy, Debug, PartialEq, Eq, Structural)]
pub enum ViewportClosePlan {
    Show,
    Close,
    MinimizeToTray,
}

/// Showing shows, hiding minimises to the tray, exiting closes.
pub fn action_to_viewport_plan(action: UiAction) -> (p: ViewportClosePlan)
    ensures
        action == UiAction::ShowMainWindow ==> p == ViewportClosePlan::Show,
        action == UiAction::HideMainWindowToTray ==> p == ViewportClosePlan::MinimizeToTray,
        action == UiAction::ExitProcess ==> p == ViewportClosePlan::Close,
{
    match action {
        UiAction::ShowMainWindow => ViewportClosePlan::Show,
        UiAction::HideMainWindowToTray => ViewportClosePlan::MinimizeToTray,
        UiAction::ExitProcess => ViewportClosePlan::Close,
    }
}

/// The texts of a sequence of strings.
pub open spec fn period_texts(v: Seq<String>) -> Seq<Seq<char>> {
    v.map_values(|s: String| s@)
}

/// Longest period first, and periods of one length by their text.
pub open spec fn periods_sorted(s: Seq<Seq<char>>) -> bool {
    forall|i: int, j: int| 0 <= i < j < s.len() ==> period_order(#[trigger] s[i], #[trigger] s[j]) <= 0
}

/// The periods of a group in the order the card lists them: by
/// `compare_period_desc`.
pub fn sorted_periods(periods: &Vec<String>) -> (r: Vec<String>)
    requires
        forall|i: int| 0 <= i < periods@.len() ==> period_in_range(#[trigger] periods@[i]@),
    ensures
        periods_sorted(period_texts(r@)),
        period_texts(r@).to_multiset() == period_texts(periods@).to_multiset(),
{
    let mut r: Vec<String> = Vec::new();
    let mut i: usize = 0;
    assert(period_texts(periods@).take(0) =~= Seq::<Seq<char>>::empty());
    assert(period_texts(r@) =~= Seq::<Seq<char>>::empty());
    while i < periods.len()
        invariant
            i <= periods@.len(),
            forall|k: int| 0 <= k < periods@.len() ==> period_in_range(#[trigger] periods@[k]@),
            forall|k: int| 0 <= k < r@.len() ==> period_in_range(#[trigger] r@[k]@),
            periods_sorted(period_texts(r@)),
            period_texts(r@).to_multiset() == period_texts(periods@).take(i as int).to_multiset(),
        decreases periods@.len() - i,
    {
        let x = &periods[i];
        let ghost old_t = period_texts(r@);
        let mut p: usize = 0;
        while p < r.len() && !period_before(x.as_str(), r[p].as_str())
            invariant
                p <= r@.len(),
                old_t == period_texts(r@),
                period_in_range(x@),
                forall|k: int| 0 <= k < r@.len() ==> period_in_range(#[trigger] r@[k]@),
                forall|k: int| 0 <= k < p ==> period_order(#[trigger] old_t[k], x@) <= 0,
            decreases r@.len() - p,
        {
            proof {
                assert(old_t[p as int] == r@[p as int]@);
                lemma_period_order(x@, old_t[p as int], x@);
            }
            p = p + 1;
        }
        proof {
            if p < r@.len() {
                assert(old_t[p as int] == r@[p as int]@);
            }
        }
        r.insert(p, x.clone());
        proof {
            let nt = period_texts(r@);
            assert(nt =~= old_t.insert(p as int, x@));
            assert forall|a: int, b: int| 0 <= a < b < nt.len() implies period_order(
                #[trigger] nt[a],
                #[trigger] nt[b],
            ) <= 0 by {
                if b == p {
                    assert(nt[a] == old_t[a]);
                } else if a == p {
                    assert(nt[b] == old_t[b - 1]);
                    if b - 1 > p {
                        lemma_period_order(x@, old_t[p as int], old_t[b - 1]);
                    }
                } else {
                    let oa = if a < p { a } else { a - 1 };
                    let ob = if b < p { b } else { b - 1 };
                    assert(nt[a] == old_t[oa]);
                    assert(nt[b] == old_t[ob]);
                    if a < p && b > p {
                        if ob > p {
                            lemma_period_order(x@, old_t[p as int], old_t[ob]);
                        }
                        lemma_period_order(old_t[oa], x@, old_t[ob]);
                    }
                }
            }
            let pt = period_texts(periods@);
            assert(pt.take(i + 1) =~= pt.take(i as int).push(x@));
            vstd::seq_lib::to_multiset_insert(old_t, p as int, x@);
            vstd::seq_lib::to_multiset_build(pt.take(i as int), x@);
            assert forall|k: int| 0 <= k < r@.len() implies period_in_range(#[trigger] r@[k]@) by {
                if k < p {
                    assert(r@[k]@ == old_t[k]);
                } else if k > p {
                    assert(r@[k]@ == old_t[k - 1]);
                }
            }
        }
        i = i + 1;
    }
    assert(period_texts(periods@).take(i as int) =~= period_texts(periods@));
    r
}

/// The positions of `keys` whose signal is effectively unread.
pub open spec fn unread_positions(
    keys: Seq<KeyView>,
    signals: Map<KeyView, SignalState>,
    pending: Set<KeyView>,
) -> Set<int> {
    Set::new(|i: int| 0 <= i < keys.len() && is_effectively_unread(signals, pending, keys[i]))
}

proof fn lemma_unread_filter_counts_positions(
    keys: Seq<KeyView>,
    signals: Map<KeyView, SignalState>,
    pending: Set<KeyView>,
)
    ensures
        unread_positions(keys, signals, pending).finite(),
        keys.filter(|k: KeyView| is_effectively_unread(signals, pending, k)).len()
            == unread_positions(keys, signals, pending).len(),
    decreases keys.len(),
{
    let f = |k: KeyView| is_effectively_unread(signals, pending, k);
    if keys.len() == 0 {
        assert(unread_positions(keys, signals, pending) =~= Set::<int>::empty());
        assert(keys.filter(f) =~= Seq::<KeyView>::empty()) by {
            keys.lemma_filter_len(f);
        }
    } else {
        let dl = keys.drop_last();
        let n = keys.len() - 1;
        lemma_unread_filter_counts_positions(dl, signals, pending);
        assert(keys =~= dl.push(keys.last()));
        dl.lemma_filter_push(keys.last(), f);
        let p0 = unread_positions(dl, signals, pending);
        let p = unread_positions(keys, signals, pending);
        assert forall|i: int| 0 <= i < n implies keys[i] == dl[i] by {}
        if f(keys.last()) {
            assert(p =~= p0.insert(n));
            assert(!p0.contains(n));
        } else {
            assert(p =~= p0);
        }
    }
}

/// The unread count of a group counts every position of the group's list of
/// keys (period by period, type by type) whose signal is effectively
/// unread: each such key once per time the group lists it, and nothing else.
pub proof fn law_group_unread_counts_every_unread_key(
    g: GroupView,
    signals: Map<KeyView, SignalState>,
    pending: Set<KeyView>,
)
    ensures
        unread_positions(group_keys(g), signals, pending).finite(),
        group_unread(g, signals, pending).len() == unread_positions(group_keys(g), signals, pending).len(),
        forall|k: KeyView|
            #[trigger] group_unread(g, signals, pending).contains(k) ==> group_keys(g).contains(k)
                && signals.contains_key(k) && !signals[k].read && !pending.contains(k),
{
    lemma_unread_filter_counts_positions(group_keys(g), signals, pending);
    let f = |k: KeyView| is_effectively_unread(signals, pending, k);
    assert forall|k: KeyView| #[trigger] group_unread(g, signals, pending).contains(k) implies group_keys(g).contains(k)
        && signals.contains_key(k) && !signals[k].read && !pending.contains(k) by {
        group_keys(g).lemma_filter_contains_rev(f, k);
    }
}

/// The bar that the signals `sigs` (side, unread), merged one by one, make of
/// an empty bar.
pub open spec fn merge_all(sigs: Seq<(Side, bool)>) -> BarCell
    decreases sigs.len(),
{
    if sigs.len() == 0 {
        BarCell { side: None, mixed: false, unread: false }
    } else {
        merged_cell(merge_all(sigs.drop_last()), sigs.last().0, sigs.last().1)
    }
}

/// Merging a signal into a bar never clears its mixed or unread mark.
pub proof fn law_merge_keeps_marks(cell: BarCell, side: Side, unread: bool)
    ensures
        cell.mixed ==> merged_cell(cell, side, unread).mixed,
        cell.unread || unread ==> merged_cell(cell, side, unread).unread,
        cell.side is Some ==> merged_cell(cell, side, unread).side == cell.side,
{
}

/// A bar filled from empty shows the side of its first signal, is mixed
/// exactly where two of its signals have different sides, and is unread
/// exactly where one of its signals is.
pub proof fn law_bar_of_signals(sigs: Seq<(Side, bool)>)
    ensures
        merge_all(sigs).side == (if sigs.len() == 0 {
            None
        } else {
            Some(sigs[0].0)
        }),
        merge_all(sigs).mixed <==> exists|i: int, j: int|
            #![trigger sigs[i], sigs[j]]
            0 <= i < sigs.len() && 0 <= j < sigs.len() && sigs[i].0 != sigs[j].0,
        merge_all(sigs).unread <==> exists|i: int| 0 <= i < sigs.len() && (#[trigger] sigs[i]).1,
    decreases sigs.len(),
{
    if sigs.len() > 0 {
        let dl = sigs.drop_last();
        let n = sigs.len() - 1;
        law_bar_of_signals(dl);
        let old = merge_all(dl);
        let last = sigs.last();
        assert forall|i: int| 0 <= i < n implies sigs[i] == dl[i] by {}
        assert(sigs[n] == last);
        if n > 0 {
            assert(sigs[0] == dl[0]);
        }
        // mixed
        if merge_all(sigs).mixed {
            if old.mixed {
                let (i, j) = choose|i: int, j: int|
                    0 <= i < dl.len() && 0 <= j < dl.len() && dl[i].0 != dl[j].0;
                assert(sigs[i] == dl[i] && sigs[j] == dl[j]);
            } else {
                assert(sigs[n].0 != sigs[0].0);
            }
        }
        if exists|i: int, j: int|
            #![trigger sigs[i], sigs[j]]
            0 <= i < sigs.len() && 0 <= j < sigs.len() && sigs[i].0 != sigs[j].0 {
            let (i, j) = choose|i: int, j: int|
                #![trigger sigs[i], sigs[j]]
                0 <= i < sigs.len() && 0 <= j < sigs.len() && sigs[i].0 != sigs[j].0;
            if !old.mixed {
                assert forall|a: int| 0 <= a < dl.len() implies (#[trigger] dl[a]).0 == dl[0].0 by {
                    if dl[a].0 != dl[0].0 {
                        assert(dl[a] == dl[a] && dl[0] == dl[0]);
                    }
                }
                if i < n && j < n {
                    assert(dl[i].0 == dl[0].0 && dl[j].0 == dl[0].0);
                } else if i == n {
                    if j < n {
                        assert(dl[j].0 == dl[0].0);
                    }
                } else {
                    if i < n {
                        assert(dl[i].0 == dl[0].0);
                    }
                }
            }
        }
        // unread
        if merge_all(sigs).unread {
            if old.unread {
                let i = choose|i: int| 0 <= i < dl.len() && dl[i].1;
                assert(sigs[i] == dl[i]);
            } else {
                assert(sigs[n].1);
            }
        }
        if exists|i: int| 0 <= i < sigs.len() && (#[trigger] sigs[i]).1 {
            let i = choose|i: int| 0 <= i < sigs.len() && (#[trigger] sigs[i]).1;
            if i < n {
                assert(dl[i].1);
            }
        }
    }
}

/// Marking a group read leaves none of its keys effectively unread: every
/// key of the list that was effectively unread is among the marked keys,
/// and after the marks none of the listed keys shows unread.
pub proof fn law_group_mark_leaves_nothing_unread(s: StateView, keys: Seq<KeyView>)
    ensures
        forall|i: int|
            0 <= i < keys.len() && s.signals.contains_key(keys[i]) && !s.signals[keys[i]].read
                && !s.pending_read.contains(keys[i]) ==> #[trigger] keys_to_mark(
                keys,
                s.signals,
                s.pending_read,
            ).contains(keys[i]),
        forall|i: int|
            0 <= i < keys.len() ==> !is_effectively_unread(
                mark_group_fold(s, keys).0.signals,
                mark_group_fold(s, keys).0.pending_read,
                #[trigger] keys[i],
            ),
{
    lemma_keys_to_mark_complete(keys, s.signals, s.pending_read);
    law_group_mark_marks_unread_keys(s, keys);
    let t = mark_group_fold(s, keys).0;
    assert forall|i: int| 0 <= i < keys.len() implies !is_effectively_unread(
        t.signals,
        t.pending_read,
        #[trigger] keys[i],
    ) by {
        let k = keys[i];
        assert(is_effectively_unread(t.signals, t.pending_read, k) == (is_effectively_unread(
            s.signals,
            s.pending_read,
            k,
        ) && !mark_group_fold(s, keys).1.contains(k)));
        if is_effectively_unread(s.signals, s.pending_read, k) {
            assert(keys_to_mark(keys, s.signals, s.pending_read).contains(keys[i]));
        }
    }
}

proof fn lemma_keys_to_mark_complete(
    keys: Seq<KeyView>,
    signals: Map<KeyView, SignalState>,
    pending: Set<KeyView>,
)
    ensures
        forall|i: int|
            0 <= i < keys.len() && is_effectively_unread(signals, pending, keys[i])
                ==> #[trigger] keys_to_mark(keys, signals, pending).contains(keys[i]),
    decreases keys.len(),
{
    if keys.len() > 0 {
        let dl = keys.drop_last();
        lemma_keys_to_mark_complete(dl, signals, pending);
        let prev = keys_to_mark(dl, signals, pending);
        let m = keys_to_mark(keys, signals, pending);
        let k = keys.last();
        assert forall|i: int|
            0 <= i < keys.len() && is_effectively_unread(signals, pending, keys[i]) implies #[trigger] m.contains(
            keys[i],
        ) by {
            if i < keys.len() - 1 {
                assert(keys[i] == dl[i]);
                assert(prev.contains(dl[i]));
                let idx = choose|idx: int| 0 <= idx < prev.len() && prev[idx] == dl[i];
                if is_effectively_unread(signals, pending, k) && !prev.contains(k) {
                    assert(m[idx] == prev[idx]);
                }
            } else {
                assert(keys[i] == k);
                if !prev.contains(k) {
                    assert(m[prev.len() as int] == k);
                }
            }
        }
    }
}

/// A period shows unread exactly where one of the group's signal types at
/// that period is effectively unread, whatever the other types are; for a
/// period the group lists, that is where the group's unread keys include
/// one of that period.
pub proof fn law_period_unread_iff_some_type_unread(
    signals: Map<KeyView, SignalState>,
    pending: Set<KeyView>,
    g: GroupView,
    period: Seq<char>,
)
    ensures
        forall|i: int|
            0 <= i < g.signal_types.len() && signals.contains_key((g.symbol, period, g.signal_types[i]))
                && !signals[(g.symbol, period, g.signal_types[i])].read && !pending.contains(
                (g.symbol, period, #[trigger] g.signal_types[i]),
            ) ==> has_unread_at(signals, pending, g, period),
        has_unread_at(signals, pending, g, period) ==> exists|i: int|
            0 <= i < g.signal_types.len() && signals.contains_key(
                (g.symbol, period, #[trigger] g.signal_types[i]),
            ) && !signals[(g.symbol, period, g.signal_types[i])].read && !pending.contains(
                (g.symbol, period, g.signal_types[i]),
            ),
        g.periods.contains(period) ==> (has_unread_at(signals, pending, g, period) <==> exists|k: KeyView|
            #[trigger] group_unread(g, signals, pending).contains(k) && k.1 == period),
{
    let f = |k: KeyView| is_effectively_unread(signals, pending, k);
    if g.periods.contains(period) {
        let p = choose|p: int| 0 <= p < g.periods.len() && g.periods[p] == period;
        lemma_keys_for_contains(g.symbol, g.periods, g.signal_types, p);
        if has_unread_at(signals, pending, g, period) {
            let i = choose|i: int|
                0 <= i < g.signal_types.len() && is_effectively_unread(
                    signals,
                    pending,
                    (g.symbol, period, g.signal_types[i]),
                );
            let k = (g.symbol, period, g.signal_types[i]);
            assert(group_keys(g).contains(k));
            let idx = choose|idx: int| 0 <= idx < group_keys(g).len() && group_keys(g)[idx] == k;
            group_keys(g).lemma_filter_contains(f, idx);
            assert(group_unread(g, signals, pending).contains(k));
        }
        if exists|k: KeyView| #[trigger] group_unread(g, signals, pending).contains(k) && k.1 == period {
            let k = choose|k: KeyView| #[trigger] group_unread(g, signals, pending).contains(k) && k.1 == period;
            group_keys(g).lemma_filter_contains_rev(f, k);
            lemma_keys_for_members(g.symbol, g.periods, g.signal_types, k);
            let t = choose|t: int| 0 <= t < g.signal_types.len() && k.2 == g.signal_types[t];
            assert(k == (g.symbol, period, g.signal_types[t]));
        }
    }
}

/// Every key of period `periods[p]` and every type is among the keys.
proof fn lemma_keys_for_contains(
    symbol: Seq<char>,
    periods: Seq<Seq<char>>,
    types: Seq<Seq<char>>,
    p: int,
)
    requires
        0 <= p < periods.len(),
    ensures
        forall|t: int|
            0 <= t < types.len() ==> #[trigger] keys_for(symbol, periods, types).contains(
                (symbol, periods[p], types[t]),
            ),
    decreases periods.len(),
{
    let dl = periods.drop_last();
    let pre = keys_for(symbol, dl, types);
    let pk = period_keys(symbol, periods.last(), types);
    assert(keys_for(symbol, periods, types) == pre + pk);
    if p < periods.len() - 1 {
        lemma_keys_for_contains(symbol, dl, types, p);
        assert(dl[p] == periods[p]);
        assert forall|t: int| 0 <= t < types.len() implies #[trigger] keys_for(symbol, periods, types).contains(
            (symbol, periods[p], types[t]),
        ) by {
            let k = (symbol, periods[p], types[t]);
            assert(pre.contains(k));
            let idx = choose|idx: int| 0 <= idx < pre.len() && pre[idx] == k;
            assert((pre + pk)[idx] == k);
        }
    } else {
        assert forall|t: int| 0 <= t < types.len() implies #[trigger] keys_for(symbol, periods, types).contains(
            (symbol, periods[p], types[t]),
        ) by {
            assert(pk[t] == (symbol, periods.last(), types[t]));
            assert((pre + pk)[pre.len() + t] == pk[t]);
        }
    }
}

/// Every key among the keys is of the symbol, one of the periods and one of
/// the types.
proof fn lemma_keys_for_members(
    symbol: Seq<char>,
    periods: Seq<Seq<char>>,
    types: Seq<Seq<char>>,
    k: KeyView,
)
    requires
        keys_for(symbol, periods, types).contains(k),
    ensures
        k.0 == symbol,
        periods.contains(k.1),
        exists|t: int| 0 <= t < types.len() && k.2 == types[t],
    decreases periods.len(),
{
    let dl = periods.drop_last();
    let pre = keys_for(symbol, dl, types);
    let pk = period_keys(symbol, periods.last(), types);
    let all = keys_for(symbol, periods, types);
    assert(all == pre + pk);
    let idx = choose|idx: int| 0 <= idx < all.len() && all[idx] == k;
    if idx < pre.len() {
        assert(pre[idx] == k);
        lemma_keys_for_members(symbol, dl, types, k);
        let q = choose|q: int| 0 <= q < dl.len() && dl[q] == k.1;
        assert(periods[q] == k.1);
    } else {
        let t = idx - pre.len();
        assert(pk[t] == k);
        assert(periods[periods.len() - 1] == k.1);
    }
}

} // verus!
