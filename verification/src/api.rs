//! The data that the signal service sends and receives, and where it is
//! sent.
use vstd::prelude::*;

use crate::domain::{prefix_chars, stripped_len, strip_trailing, SignalKey};
use crate::text::{append_str, chars_of, str_eq, string_of};

verus! {

/// The body of a watch-list query: comma-separated symbols, periods and
/// signal types, and the page to fetch.
#[derive(Debug, Clone, PartialEq, Eq)]
pub struct FetchSignalsRequest {
    pub symbols: String,
    pub periods: Option<String>,
    pub signal_types: Option<String>,
    pub page: Option<u32>,
    pub page_size: Option<u32>,
}

/// One page of watch-list results.
#[derive(Debug, Clone, PartialEq, Eq)]
pub struct SignalPage {
    pub total: u64,
    pub page: u32,
    pub page_size: u32,
    pub data: Vec<SignalRow>,
}

/// The signals of one symbol at one period, by signal type.
#[derive(Debug, Clone, PartialEq, Eq)]
pub struct SignalRow {
    pub symbol: String,
    pub period: String,
    pub t: i64,
    pub signals: Vec<(String, SignalState)>,
}

/// The state of one signal: its side code, its trigger time and whether it
/// has been read.
#[derive(Debug, Clone, Copy, PartialEq, Eq, Structural)]
pub struct SignalState {
    pub sd: i32,
    pub t: i64,
    pub read: bool,
}

/// The mathematical value of a row: its texts, time and named signals.
pub struct RowView {
    pub symbol: Seq<char>,
    pub period: Seq<char>,
    pub t: i64,
    pub signals: Seq<(Seq<char>, SignalState)>,
}

/// The mathematical value of a page.
pub struct PageView {
    pub total: u64,
    pub page: u32,
    pub page_size: u32,
    pub rows: Seq<RowView>,
}

/// The named signals of a row, by their names' characters.
pub open spec fn named_signals(s: Seq<(String, SignalState)>) -> Seq<(Seq<char>, SignalState)> {
    s.map_values(|e: (String, SignalState)| (e.0@, e.1))
}

impl View for SignalRow {
    type V = RowView;

    open spec fn view(&self) -> RowView {
        RowView {
            symbol: self.symbol@,
            period: self.period@,
            t: self.t,
            signals: named_signals(self.signals@),
        }
    }
}

/// The names of `signals` are distinct, as the keys of the JSON object that
/// the service sends them in.
pub open spec fn distinct_names(signals: Seq<(Seq<char>, SignalState)>) -> bool {
    forall|i: int, j: int| 0 <= i < j < signals.len() ==> signals[i].0 != signals[j].0
}

/// The state that `signals` gives `name`: the last one listed for it, as a
/// JSON object read into a map keeps it.
pub open spec fn last_state(signals: Seq<(Seq<char>, SignalState)>, name: Seq<char>) -> Option<
    SignalState,
>
    decreases signals.len(),
{
    if signals.len() == 0 {
        None
    } else if signals.last().0 == name {
        Some(signals.last().1)
    } else {
        last_state(signals.drop_last(), name)
    }
}

/// Giving the entry at `i` of a list with distinct names a new state
/// changes what the list says of that name only.
proof fn lemma_last_state_update(
    s: Seq<(Seq<char>, SignalState)>,
    i: int,
    st: SignalState,
    n: Seq<char>,
)
    requires
        distinct_names(s),
        0 <= i < s.len(),
    ensures
        last_state(s.update(i, (s[i].0, st)), n) == if n == s[i].0 {
            Some(st)
        } else {
            last_state(s, n)
        },
    decreases s.len(),
{
    let u = s.update(i, (s[i].0, st));
    if i < s.len() - 1 {
        assert(u.drop_last() =~= s.drop_last().update(i, (s[i].0, st)));
        assert(u.last() == s.last());
        assert(distinct_names(s.drop_last()));
        assert(s.drop_last()[i] == s[i]);
        assert(s.last().0 != s[i].0);
        lemma_last_state_update(s.drop_last(), i, st, n);
    } else {
        assert(u.drop_last() =~= s.drop_last());
    }
}

/// The position of `name` in `signals`, if it is there.
fn find_name(signals: &Vec<(String, SignalState)>, name: &str) -> (r: Option<usize>)
    ensures
        r matches Some(i) ==> i < signals@.len() && signals@[i as int].0@ == name@,
        r is None ==> forall|i: int| 0 <= i < signals@.len() ==> signals@[i].0@ != name@,
{
    let mut i: usize = 0;
    while i < signals.len()
        invariant
            i <= signals@.len(),
            forall|j: int| 0 <= j < i ==> signals@[j].0@ != name@,
        decreases signals@.len() - i,
    {
        if str_eq(signals[i].0.as_str(), name) {
            return Some(i);
        }
        i = i + 1;
    }
    None
}

impl SignalRow {
    /// A row of `symbol` at `period`, whose signals are `signals` with each
    /// name kept once and given the last state listed for it; the names of a
    /// row are thus distinct, as the service's JSON object has them.
    pub fn from_named_signals(
        symbol: String,
        period: String,
        t: i64,
        signals: Vec<(String, SignalState)>,
    ) -> (r: Self)
        ensures
            r.symbol@ == symbol@,
            r.period@ == period@,
            r.t == t,
            distinct_names(r@.signals),
            forall|name: Seq<char>|
                #[trigger] last_state(r@.signals, name) == last_state(named_signals(signals@), name),
    {
        let ghost input = named_signals(signals@);
        let mut out: Vec<(String, SignalState)> = Vec::new();
        let mut k: usize = 0;
        assert(input.take(0) =~= Seq::<(Seq<char>, SignalState)>::empty());
        while k < signals.len()
            invariant
                k <= signals@.len(),
                input == named_signals(signals@),
                distinct_names(named_signals(out@)),
                forall|name: Seq<char>|
                    #[trigger] last_state(named_signals(out@), name) == last_state(
                        input.take(k as int),
                        name,
                    ),
            decreases signals@.len() - k,
        {
            let name = &signals[k].0;
            let st = signals[k].1;
            let ghost before = named_signals(out@);
            let ghost e = input[k as int];
            assert(e == (name@, st));
            assert(input.take(k + 1).drop_last() =~= input.take(k as int));
            assert(input.take(k + 1).last() == e);
            match find_name(&out, name.as_str()) {
                Some(i) => {
                    let kept = out[i].0.clone();
                    out.set(i, (kept, st));
                    proof {
                        assert(named_signals(out@) =~= before.update(i as int, (before[i as int].0, st)));
                        assert forall|n: Seq<char>|
                            #[trigger] last_state(named_signals(out@), n) == last_state(
                                input.take(k + 1),
                                n,
                            ) by {
                            lemma_last_state_update(before, i as int, st, n);
                        }
                        assert forall|a: int, b: int|
                            0 <= a < b < named_signals(out@).len() implies named_signals(out@)[a].0
                            != named_signals(out@)[b].0 by {
                            assert(before[a].0 != before[b].0);
                        }
                    }
                },
                None => {
                    out.push((name.clone(), st));
                    proof {
                        let now = named_signals(out@);
                        assert(now =~= before.push(e));
                        assert(now.drop_last() =~= before);
                        assert forall|n: Seq<char>|
                            #[trigger] last_state(now, n) == last_state(input.take(k + 1), n) by {
                            assert(last_state(before, n) == last_state(input.take(k as int), n));
                            assert(now.last() == e);
                            assert(input.take(k + 1).last() == e);
                            assert(input.take(k + 1).drop_last() =~= input.take(k as int));
                        }
                        assert forall|a: int, b: int|
                            0 <= a < b < now.len() implies now[a].0 != now[b].0 by {
                            if b == before.len() {
                                assert(out@[a].0@ == before[a].0);
                            } else {
                                assert(before[a].0 != before[b].0);
                            }
                        }
                    }
                },
            }
            k = k + 1;
        }
        assert(input.take(k as int) =~= input);
        SignalRow { symbol, period, t, signals: out }
    }
}

/// The views of a sequence of rows.
pub open spec fn rows_view(rows: Seq<SignalRow>) -> Seq<RowView> {
    rows.map_values(|r: SignalRow| r@)
}

impl View for SignalPage {
    type V = PageView;

    open spec fn view(&self) -> PageView {
        PageView {
            total: self.total,
            page: self.page,
            page_size: self.page_size,
            rows: rows_view(self.data@),
        }
    }
}

/// The service's base address without its trailing slashes.
pub open spec fn base_url_of(base: Seq<char>) -> Seq<char> {
    strip_trailing(base, '/')
}

/// The base address as the client keeps it: without trailing slashes, so
/// that paths can be appended.
pub fn normalize_base_url(base: &str) -> (r: String)
    ensures
        r@ == base_url_of(base@),
{
    let v = chars_of(base);
    let k = stripped_len(&v, '/');
    let p = prefix_chars(&v, k);
    string_of(&p)
}

/// The address of the watch-list query.
pub open spec fn signals_path() -> Seq<char> {
    "/api/open/watch-list/symbol-signals"@
}

/// The address of the read-status update.
pub open spec fn read_status_path() -> Seq<char> {
    "/api/open/watch-list/symbol-alert/read-status"@
}

/// The address of the watch-list query under the (normalised) base address.
pub fn signals_url(base_url: &str) -> (r: String)
    ensures
        r@ == base_url@ + signals_path(),
{
    let mut r = base_url.to_string();
    append_str(&mut r, "/api/open/watch-list/symbol-signals");
    r
}

/// The address of the read-status update under the (normalised) base
/// address.
pub fn read_status_url(base_url: &str) -> (r: String)
    ensures
        r@ == base_url@ + read_status_path(),
{
    let mut r = base_url.to_string();
    append_str(&mut r, "/api/open/watch-list/symbol-alert/read-status");
    r
}

/// The body of a read-status update: the signal and its new read state.
#[derive(Debug, Clone, PartialEq, Eq)]
pub struct ReadStatusRequest {
    pub symbol: String,
    pub period: String,
    pub signal_type: String,
    pub read: bool,
}

/// The read-status update that sets `key` to `read`.
pub fn read_status_request(key: &SignalKey, read: bool) -> (r: ReadStatusRequest)
    ensures
        r.symbol@ == key@.0,
        r.period@ == key@.1,
        r.signal_type@ == key@.2,
        r.read == read,
{
    ReadStatusRequest {
        symbol: key.symbol.clone(),
        period: key.period.clone(),
        signal_type: key.signal_type.clone(),
        read,
    }
}

/// How a reply is taken by its HTTP status: a refused key, another failure,
/// or a body to decode.
#[derive(Debug, Clone, Copy, PartialEq, Eq, Structural)]
pub enum ReplyStatus {
    Unauthorized,
    Failed,
    Success,
}

/// 401 means the key was refused; any status outside 200 to 299 is a
/// failure; the rest carry a body to decode.
pub open spec fn reply_status_of(code: u16) -> ReplyStatus {
    if code == 401 {
        ReplyStatus::Unauthorized
    } else if code < 200 || code > 299 {
        ReplyStatus::Failed
    } else {
        ReplyStatus::Success
    }
}

/// How a reply with status `code` is taken.
pub fn classify_reply_status(code: u16) -> (r: ReplyStatus)
    ensures
        r == reply_status_of(code),
{
    if code == 401 {
        ReplyStatus::Unauthorized
    } else if code < 200 || code > 299 {
        ReplyStatus::Failed
    } else {
        ReplyStatus::Success
    }
}

/// The error of a reply whose key was refused.
pub fn unauthorized_message() -> (r: &'static str)
    ensures
        r@ == "api unauthorized: invalid x-api-key"@,
{
    "api unauthorized: invalid x-api-key"
}

} // verus!
