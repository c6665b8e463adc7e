//! Signals, their keys and the period notation of the watch list.
use std::cmp::Ordering;
use vstd::prelude::*;

use crate::text::{
    ascii_upper, chars_of, compare_chars, digits_value, all_digits, is_digit, digit_value,
    parse_i64, seq_compare, trim, trim_chars, upper, seq_lt, lemma_seq_lt_irreflexive,
    lemma_seq_lt_total, lemma_seq_lt_transitive,
};

verus! {

/// The direction of a signal.
#[derive(Debug, Clone, Copy, PartialEq, Eq, Structural)]
pub enum Side {
    Bull,
    Bear,
    Unknown,
}

/// The side that the numeric code of the signal service stands for.
pub open spec fn side_of_code(code: int) -> Side {
    if code == 1 {
        Side::Bull
    } else if code == -1 {
        Side::Bear
    } else {
        Side::Unknown
    }
}

impl Side {
    /// `1` is bullish, `-1` bearish, anything else unknown.
    pub fn from_code(code: i32) -> (s: Self)
        ensures
            s == side_of_code(code as int),
    {
        match code {
            1 => Side::Bull,
            -1 => Side::Bear,
            _ => Side::Unknown,
        }
    }
}

/// A signal is identified by its symbol, its period and its type.
#[derive(Debug, PartialEq, Eq, Hash)]
pub struct SignalKey {
    pub symbol: String,
    pub period: String,
    pub signal_type: String,
}

/// The mathematical value of a key: its three texts.
pub type KeyView = (Seq<char>, Seq<char>, Seq<char>);

impl View for SignalKey {
    type V = KeyView;

    open spec fn view(&self) -> KeyView {
        (self.symbol@, self.period@, self.signal_type@)
    }
}

impl Clone for SignalKey {
    fn clone(&self) -> (r: Self)
        ensures
            r@ == self@,
    {
        SignalKey {
            symbol: self.symbol.clone(),
            period: self.period.clone(),
            signal_type: self.signal_type.clone(),
        }
    }
}

impl SignalKey {
    /// The key of `signal_type` on `symbol` at `period`.
    pub fn new(symbol: &str, period: &str, signal_type: &str) -> (k: Self)
        ensures
            k@ == (symbol@, period@, signal_type@),
    {
        SignalKey {
            symbol: symbol.to_string(),
            period: period.to_string(),
            signal_type: signal_type.to_string(),
        }
    }

    /// Whether two keys name the same signal.
    pub fn same_as(&self, other: &SignalKey) -> (r: bool)
        ensures
            r == (self@ == other@),
    {
        self.symbol == other.symbol && self.period == other.period && self.signal_type
            == other.signal_type
    }
}

/// `s` without the trailing run of `c` (`str::trim_end_matches`).
pub open spec fn strip_trailing(s: Seq<char>, c: char) -> Seq<char>
    decreases s.len(),
{
    if s.len() > 0 && s.last() == c {
        strip_trailing(s.drop_last(), c)
    } else {
        s
    }
}

/// Milliseconds in a week, a day and a minute.
pub const WEEK_MS: i64 = 604_800_000i64;

pub const DAY_MS: i64 = 86_400_000i64;

pub const MINUTE_MS: i64 = 60_000i64;

/// A count of units: an empty count means one unit.
pub open spec fn count_or_one(num: Seq<char>) -> Option<int> {
    if num.len() == 0 {
        Some(1)
    } else {
        parse_i64(num)
    }
}

/// `count` units of `unit` milliseconds.
pub open spec fn scaled(count: Option<int>, unit: int) -> Option<int> {
    match count {
        Some(n) => Some(n * unit),
        None => None,
    }
}

/// The length in milliseconds of a period written as minutes (`"15"`), days
/// (`"4D"`, `"D"`) or weeks (`"2W"`, `"W"`), in either case and with
/// surrounding whitespace; `None` for anything else.
pub open spec fn period_millis(p: Seq<char>) -> Option<int> {
    let n = upper(trim(p));
    if n.len() == 0 {
        None
    } else if n.last() == 'W' {
        scaled(count_or_one(strip_trailing(n, 'W')), WEEK_MS as int)
    } else if n.last() == 'D' {
        scaled(count_or_one(strip_trailing(n, 'D')), DAY_MS as int)
    } else {
        scaled(parse_i64(n), MINUTE_MS as int)
    }
}

/// The length of the period, if any, fits in an `i64`.
pub open spec fn period_in_range(p: Seq<char>) -> bool {
    match period_millis(p) {
        Some(v) => i64::MIN <= v <= i64::MAX,
        None => true,
    }
}

/// An `Option<i64>` read as an optional mathematical integer.
pub open spec fn opt_int(o: Option<i64>) -> Option<int> {
    match o {
        Some(v) => Some(v as int),
        None => None,
    }
}

/// The characters of `v`, upper-cased as `str::to_ascii_uppercase` does.
pub fn upper_chars(v: &Vec<char>) -> (r: Vec<char>)
    ensures
        r@ == upper(v@),
{
    let mut r: Vec<char> = Vec::new();
    let mut i: usize = 0;
    while i < v.len()
        invariant
            i <= v.len(),
            r@ == upper(v@.subrange(0, i as int)),
        decreases v.len() - i,
    {
        let c = v[i];
        let u = if 'a' <= c && c <= 'z' {
            let b: u8 = (c as u32 - 32) as u8;
            proof {
                vstd::utf8::char_u32_cast(c, c as u32);
            }
            b as char
        } else {
            c
        };
        assert(u == ascii_upper(c));
        r.push(u);
        i = i + 1;
        assert(r@ =~= upper(v@.subrange(0, i as int)));
    }
    assert(v@.subrange(0, v.len() as int) =~= v@);
    r
}

/// The first `k` characters of `v`.
pub fn prefix_chars(v: &Vec<char>, k: usize) -> (r: Vec<char>)
    requires
        k <= v.len(),
    ensures
        r@ == v@.subrange(0, k as int),
{
    let mut r: Vec<char> = Vec::new();
    let mut i: usize = 0;
    while i < k
        invariant
            i <= k <= v.len(),
            r@ == v@.subrange(0, i as int),
        decreases k - i,
    {
        r.push(v[i]);
        i = i + 1;
        assert(r@ =~= v@.subrange(0, i as int));
    }
    r
}

/// The length of `v` without its trailing run of `c`.
pub fn stripped_len(v: &Vec<char>, c: char) -> (k: usize)
    ensures
        k <= v.len(),
        v@.subrange(0, k as int) == strip_trailing(v@, c),
{
    let mut k: usize = v.len();
    assert(v@.subrange(0, k as int) =~= v@);
    while k > 0 && v[k - 1] == c
        invariant
            k <= v.len(),
            strip_trailing(v@, c) == strip_trailing(v@.subrange(0, k as int), c),
        decreases k,
    {
        assert(v@.subrange(0, k as int).drop_last() =~= v@.subrange(0, k - 1));
        k = k - 1;
    }
    k
}

/// Digit values are never negative.
pub proof fn lemma_digits_value_nonneg(s: Seq<char>)
    requires
        all_digits(s),
    ensures
        digits_value(s) >= 0,
    decreases s.len(),
{
    if s.len() > 0 {
        assert(all_digits(s.drop_last())) by {
            assert forall|i: int| 0 <= i < s.drop_last().len() implies is_digit(
                #[trigger] s.drop_last()[i],
            ) by {
                assert(s.drop_last()[i] == s[i]);
            }
        }
        lemma_digits_value_nonneg(s.drop_last());
        assert(is_digit(s[s.len() - 1]));
    }
}

proof fn lemma_clamp_step(v: int, d: int, cap: int)
    requires
        v >= 0,
        0 <= d <= 9,
        cap >= 0,
    ensures
        (if v < cap { v } else { cap }) * 10 + d >= cap ==> v * 10 + d >= cap,
        (if v < cap { v } else { cap }) * 10 + d < cap ==> (if v < cap { v } else { cap }) * 10 + d
            == v * 10 + d,
{
    if v >= cap {
        assert(cap * 10 + d >= cap) by (nonlinear_arith)
            requires
                cap >= 0,
                d >= 0,
        ;
    }
}

/// `str::parse::<i64>` on the characters of `v`.
pub fn parse_i64_chars(v: &Vec<char>) -> (r: Option<i64>)
    ensures
        opt_int(r) == parse_i64(v@),
{
    let n = v.len();
    if n == 0 {
        return None;
    }
    let mut start: usize = 0;
    let mut neg = false;
    if v[0] == '-' {
        neg = true;
        start = 1;
    } else if v[0] == '+' {
        start = 1;
    }
    let ghost body = if v@[0] == '-' || v@[0] == '+' {
        v@.drop_first()
    } else {
        v@
    };
    assert(body =~= v@.subrange(start as int, n as int));
    if start == n {
        return None;
    }
    let cap: u128 = 0x8000_0000_0000_0001u128;
    let mut acc: u128 = 0;
    let mut i: usize = start;
    assert(v@.subrange(start as int, start as int) =~= Seq::<char>::empty());
    while i < n
        invariant
            start <= i <= n,
            n == v.len(),
            body == v@.subrange(start as int, n as int),
            n > 0,
            body == (if v@[0] == '-' || v@[0] == '+' { v@.drop_first() } else { v@ }),
            cap == 0x8000_0000_0000_0001u128,
            all_digits(v@.subrange(start as int, i as int)),
            digits_value(v@.subrange(start as int, i as int)) >= 0,
            acc == (if digits_value(v@.subrange(start as int, i as int)) < cap {
                digits_value(v@.subrange(start as int, i as int))
            } else {
                cap as int
            }),
        decreases n - i,
    {
        let c = v[i];
        if !('0' <= c && c <= '9') {
            assert(!is_digit(body[i - start]));
            assert(!all_digits(body));
            return None;
        }
        let d: u128 = (c as u32 - 48) as u128;
        assert(d == digit_value(c));
        let ghost prev = v@.subrange(start as int, i as int);
        let ghost next = v@.subrange(start as int, i + 1);
        assert(next.drop_last() =~= prev);
        assert(digits_value(next) == digits_value(prev) * 10 + d);
        proof {
            lemma_clamp_step(digits_value(prev), d as int, cap as int);
        }
        acc = acc * 10 + d;
        if acc > cap {
            acc = cap;
        }
        i = i + 1;
        assert(all_digits(next)) by {
            assert forall|j: int| 0 <= j < next.len() implies is_digit(#[trigger] next[j]) by {
                if j < prev.len() {
                    assert(next[j] == prev[j]);
                }
            }
        }
    }
    assert(v@.subrange(start as int, n as int) == body);
    if neg {
        if acc <= 0x8000_0000_0000_0000u128 {
            if acc == 0x8000_0000_0000_0000u128 {
                Some(i64::MIN)
            } else {
                let m: i64 = acc as i64;
                Some(-m)
            }
        } else {
            None
        }
    } else {
        if acc <= 0x7fff_ffff_ffff_ffffu128 {
            Some(acc as i64)
        } else {
            None
        }
    }
}

/// The length of a period in milliseconds, or `None` where the text is not a
/// period.
pub fn period_to_millis(period: &str) -> (r: Option<i64>)
    requires
        period_in_range(period@),
    ensures
        opt_int(r) == period_millis(period@),
{
    let raw = chars_of(period);
    let trimmed = trim_chars(&raw);
    let n = upper_chars(&trimmed);
    if n.len() == 0 {
        return None;
    }
    let last = n[n.len() - 1];
    if last == 'W' || last == 'D' {
        let k = stripped_len(&n, last);
        let count: Option<i64> = if k == 0 {
            Some(1)
        } else {
            let num = prefix_chars(&n, k);
            parse_i64_chars(&num)
        };
        match count {
            Some(c) => {
                if last == 'W' {
                    assert(i64::MIN <= c * 604_800_000 <= i64::MAX);
                    Some(c * 7 * 24 * 60 * 60 * 1000)
                } else {
                    assert(i64::MIN <= c * 86_400_000 <= i64::MAX);
                    Some(c * 24 * 60 * 60 * 1000)
                }
            },
            None => None,
        }
    } else {
        let minutes = parse_i64_chars(&n);
        match minutes {
            Some(m) => {
                assert(i64::MIN <= m * 60_000 <= i64::MAX);
                Some(m * 60 * 1000)
            },
            None => None,
        }
    }
}

/// Whether the length of `period`, where it has one, fits in an `i64`: what
/// `period_to_millis` and the functions built on it need of a period.
pub fn period_fits(period: &str) -> (r: bool)
    ensures
        r == period_in_range(period@),
{
    let raw = chars_of(period);
    let trimmed = trim_chars(&raw);
    let n = upper_chars(&trimmed);
    if n.len() == 0 {
        return true;
    }
    let last = n[n.len() - 1];
    if last == 'W' || last == 'D' {
        let k = stripped_len(&n, last);
        let count: Option<i64> = if k == 0 {
            Some(1)
        } else {
            let num = prefix_chars(&n, k);
            parse_i64_chars(&num)
        };
        match count {
            Some(c) => {
                let unit: i64 = if last == 'W' {
                    604_800_000
                } else {
                    86_400_000
                };
                c.checked_mul(unit).is_some()
            },
            None => true,
        }
    } else {
        match parse_i64_chars(&n) {
            Some(m) => m.checked_mul(60_000).is_some(),
            None => true,
        }
    }
}

/// The rank of a period for ordering: its length, or zero where it has none.
pub open spec fn period_rank(p: Seq<char>) -> int {
    match period_millis(p) {
        Some(v) => v,
        None => 0,
    }
}

/// Longer periods first; periods of equal length by their text.
pub open spec fn period_order(a: Seq<char>, b: Seq<char>) -> int {
    if period_rank(b) < period_rank(a) {
        -1
    } else if period_rank(b) > period_rank(a) {
        1
    } else {
        seq_compare(a, b)
    }
}

/// Orders periods from the longest to the shortest, and periods of the same
/// length by their text.
pub fn compare_period_desc(a: &str, b: &str) -> (r: Ordering)
    requires
        period_in_range(a@),
        period_in_range(b@),
    ensures
        (r == Ordering::Less) == (period_order(a@, b@) == -1),
        (r == Ordering::Equal) == (period_order(a@, b@) == 0),
        (r == Ordering::Greater) == (period_order(a@, b@) == 1),
{
    let ma = match period_to_millis(a) {
        Some(v) => v,
        None => 0,
    };
    let mb = match period_to_millis(b) {
        Some(v) => v,
        None => 0,
    };
    if mb < ma {
        Ordering::Less
    } else if mb > ma {
        Ordering::Greater
    } else {
        let va = chars_of(a);
        let vb = chars_of(b);
        let c = compare_chars(&va, &vb);
        if c < 0 {
            Ordering::Less
        } else if c == 0 {
            Ordering::Equal
        } else {
            Ordering::Greater
        }
    }
}

/// The order in which keys are listed: by symbol, then period, then signal
/// type, each compared as text.
pub open spec fn key_lt(a: KeyView, b: KeyView) -> bool {
    ||| seq_lt(a.0, b.0)
    ||| (a.0 == b.0 && seq_lt(a.1, b.1))
    ||| (a.0 == b.0 && a.1 == b.1 && seq_lt(a.2, b.2))
}

/// `key_lt` is a strict total order.
pub proof fn lemma_key_lt_order(a: KeyView, b: KeyView, c: KeyView)
    ensures
        !key_lt(a, a),
        a != b ==> (key_lt(a, b) || key_lt(b, a)),
        !(key_lt(a, b) && key_lt(b, a)),
        key_lt(a, b) && key_lt(b, c) ==> key_lt(a, c),
{
    lemma_seq_lt_irreflexive(a.0);
    lemma_seq_lt_irreflexive(a.1);
    lemma_seq_lt_irreflexive(a.2);
    lemma_seq_lt_total(a.0, b.0);
    lemma_seq_lt_total(a.1, b.1);
    lemma_seq_lt_total(a.2, b.2);
    if seq_lt(a.0, b.0) && seq_lt(b.0, c.0) {
        lemma_seq_lt_transitive(a.0, b.0, c.0);
    }
    if seq_lt(a.1, b.1) && seq_lt(b.1, c.1) {
        lemma_seq_lt_transitive(a.1, b.1, c.1);
    }
    if seq_lt(a.2, b.2) && seq_lt(b.2, c.2) {
        lemma_seq_lt_transitive(a.2, b.2, c.2);
    }
}

/// Whether `a` is listed before `b`.
pub fn key_less(a: &SignalKey, b: &SignalKey) -> (r: bool)
    ensures
        r == key_lt(a@, b@),
{
    let a0 = chars_of(a.symbol.as_str());
    let b0 = chars_of(b.symbol.as_str());
    let c0 = compare_chars(&a0, &b0);
    proof {
        lemma_seq_lt_irreflexive(a@.0);
        lemma_seq_lt_total(a@.0, b@.0);
    }
    if c0 != 0 {
        return c0 < 0;
    }
    let a1 = chars_of(a.period.as_str());
    let b1 = chars_of(b.period.as_str());
    let c1 = compare_chars(&a1, &b1);
    proof {
        lemma_seq_lt_irreflexive(a@.1);
        lemma_seq_lt_total(a@.1, b@.1);
    }
    if c1 != 0 {
        return c1 < 0;
    }
    let a2 = chars_of(a.signal_type.as_str());
    let b2 = chars_of(b.signal_type.as_str());
    let c2 = compare_chars(&a2, &b2);
    proof {
        lemma_seq_lt_irreflexive(a@.2);
        lemma_seq_lt_total(a@.2, b@.2);
    }
    c2 < 0
}

/// Period order is a total order: comparing the other way round gives the
/// opposite answer, only equal texts compare equal, and it is transitive.
pub proof fn lemma_period_order(a: Seq<char>, b: Seq<char>, c: Seq<char>)
    ensures
        period_order(a, b) == -period_order(b, a),
        (period_order(a, b) == 0) == (a == b),
        period_order(a, b) <= 0 && period_order(b, c) <= 0 ==> period_order(a, c) <= 0,
{
    lemma_seq_lt_total(a, b);
    lemma_seq_lt_total(b, c);
    lemma_seq_lt_total(a, c);
    lemma_seq_lt_irreflexive(a);
    if seq_lt(a, b) && seq_lt(b, c) {
        lemma_seq_lt_transitive(a, b, c);
    }
}

/// Whether period `a` is listed before period `b`.
pub fn period_before(a: &str, b: &str) -> (r: bool)
    requires
        period_in_range(a@),
        period_in_range(b@),
    ensures
        r == (period_order(a@, b@) == -1),
{
    match compare_period_desc(a, b) {
        Ordering::Less => true,
        Ordering::Equal => false,
        Ordering::Greater => false,
    }
}

/// Comparing two periods the other way round gives the opposite answer, and
/// only a period compares equal to itself.
pub proof fn law_compare_period_desc_reverses(a: Seq<char>, b: Seq<char>)
    ensures
        (period_order(a, b) == -1) == (period_order(b, a) == 1),
        (period_order(a, b) == 0) == (a == b),
{
    lemma_period_order(a, b, a);
}

} // verus!
