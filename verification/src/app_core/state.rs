//! The one state that the runtime owns, and how each event changes it.
use vstd::prelude::*;

use crate::api::{named_signals, rows_view, PageView, RowView, SignalPage, SignalState};
use crate::app_core::contract::{copy_opt_text, opt_text, AppSnapshot, SnapshotView};
use crate::app_core::queries::unread::{
    collect_new_unread_keys, effective_unread_keys, is_effectively_unread, strictly_sorted,
    unread_set,
};
use crate::collections::{key_views, KeyMap, KeySet, SignalMap};
use crate::config::{group_keys, keys_for, period_keys, GroupConfig, GroupView};
use crate::domain::{KeyView, SignalKey};
use crate::text::append_str;

verus! {

/// The signals, the mark-reads in flight, the read floors that keep a
/// marked signal read across polls, and the health of polling.
#[derive(Debug)]
pub struct AppState {
    pub signals: SignalMap,
    pub pending_read: KeySet,
    pub read_floors: KeyMap<i64>,
    pub last_poll_error: Option<String>,
    pub has_seen_snapshot: bool,
    pub last_poll_ms: Option<i64>,
    pub last_poll_ok: Option<bool>,
    pub consecutive_poll_failures: u32,
    pub last_meta: Option<(u64, u32, u32)>,
    pub last_error: Option<String>,
}

/// The mathematical value of the state.
pub struct StateView {
    pub signals: Map<KeyView, SignalState>,
    pub pending_read: Set<KeyView>,
    pub read_floors: Map<KeyView, i64>,
    pub last_poll_error: Option<Seq<char>>,
    pub has_seen_snapshot: bool,
    pub last_poll_ms: Option<i64>,
    pub last_poll_ok: Option<bool>,
    pub consecutive_poll_failures: u32,
    pub last_meta: Option<(u64, u32, u32)>,
    pub last_error: Option<Seq<char>>,
}

impl View for AppState {
    type V = StateView;

    open spec fn view(&self) -> StateView {
        StateView {
            signals: self.signals@,
            pending_read: self.pending_read@,
            read_floors: self.read_floors@,
            last_poll_error: opt_text(self.last_poll_error),
            has_seen_snapshot: self.has_seen_snapshot,
            last_poll_ms: self.last_poll_ms,
            last_poll_ok: self.last_poll_ok,
            consecutive_poll_failures: self.consecutive_poll_failures,
            last_meta: self.last_meta,
            last_error: opt_text(self.last_error),
        }
    }
}

/// The state before anything happened.
pub open spec fn initial_state() -> StateView {
    StateView {
        signals: Map::empty(),
        pending_read: Set::empty(),
        read_floors: Map::empty(),
        last_poll_error: None,
        has_seen_snapshot: false,
        last_poll_ms: None,
        last_poll_ok: None,
        consecutive_poll_failures: 0,
        last_meta: None,
        last_error: None,
    }
}

/// A signal is marked read optimistically: it shows read at once, its
/// trigger time becomes its read floor and the key is pending until the
/// service answers. A key already pending is left alone.
pub open spec fn mark_read_requested(s: StateView, k: KeyView) -> StateView {
    if s.pending_read.contains(k) {
        s
    } else if s.signals.contains_key(k) {
        StateView {
            read_floors: s.read_floors.insert(k, s.signals[k].t),
            signals: s.signals.insert(k, SignalState { read: true, ..s.signals[k] }),
            pending_read: s.pending_read.insert(k),
            ..s
        }
    } else {
        StateView { pending_read: s.pending_read.insert(k), ..s }
    }
}

/// The service confirmed a mark-read: the key is no longer pending.
pub open spec fn mark_read_synced(s: StateView, k: KeyView) -> StateView {
    StateView { pending_read: s.pending_read.remove(k), ..s }
}

/// The error shown for a failed mark-read.
pub open spec fn sync_failed_message(k: KeyView, err: Seq<char>) -> Seq<char> {
    "sync failed ["@ + k.0 + " "@ + k.1 + " "@ + k.2 + "]: "@ + err
}

/// A mark-read failed: the key is no longer pending, its read floor goes,
/// a signal that was pending shows unread again, and the error is shown.
pub open spec fn sync_failed(s: StateView, k: KeyView, err: Seq<char>) -> StateView {
    StateView {
        pending_read: s.pending_read.remove(k),
        read_floors: s.read_floors.remove(k),
        signals: if s.pending_read.contains(k) && s.signals.contains_key(k) {
            s.signals.insert(k, SignalState { read: false, ..s.signals[k] })
        } else {
            s.signals
        },
        last_error: Some(sync_failed_message(k, err)),
        ..s
    }
}

/// The error shown when a mark-read could not be handed to the runtime.
pub open spec fn send_failed_message(k: KeyView, err: Seq<char>) -> Seq<char> {
    "send mark-read failed ["@ + k.0 + " "@ + k.1 + " "@ + k.2 + "]: "@ + err
}

/// A mark-read that could not be sent is taken back: the key is no longer
/// pending, its read floor goes, the signal shows unread again, and the
/// error is shown.
pub open spec fn send_failed(s: StateView, k: KeyView, err: Seq<char>) -> StateView {
    StateView {
        pending_read: s.pending_read.remove(k),
        read_floors: s.read_floors.remove(k),
        signals: if s.signals.contains_key(k) {
            s.signals.insert(k, SignalState { read: false, ..s.signals[k] })
        } else {
            s.signals
        },
        last_error: Some(send_failed_message(k, err)),
        ..s
    }
}

/// A poll failed: one failure more (saturating); polling counts as healthy
/// up to the first failure in a row, and the error is shown.
pub open spec fn poll_failed(s: StateView, err: Seq<char>) -> StateView {
    let n: u32 = if s.consecutive_poll_failures < u32::MAX {
        (s.consecutive_poll_failures + 1) as u32
    } else {
        u32::MAX
    };
    StateView {
        consecutive_poll_failures: n,
        last_poll_ok: Some(n < 2),
        last_error: Some(err),
        last_poll_error: Some(err),
        ..s
    }
}

/// The entries of a row, keyed by its symbol and period.
pub open spec fn row_entries(r: RowView) -> Seq<(KeyView, SignalState)> {
    r.signals.map_values(|e: (Seq<char>, SignalState)| ((r.symbol, r.period, e.0), e.1))
}

/// The entries of all rows, row by row.
pub open spec fn page_entries(rows: Seq<RowView>) -> Seq<(KeyView, SignalState)>
    decreases rows.len(),
{
    if rows.len() == 0 {
        Seq::empty()
    } else {
        page_entries(rows.drop_last()) + row_entries(rows.last())
    }
}

/// One reported signal taken in: where it has a read floor, it shows read
/// while its time is not after the floor; a later time drops the floor.
pub open spec fn merge_step(
    acc: (Map<KeyView, SignalState>, Map<KeyView, i64>),
    e: (KeyView, SignalState),
) -> (Map<KeyView, SignalState>, Map<KeyView, i64>) {
    let m = acc.0;
    let f = acc.1;
    let k = e.0;
    let st = e.1;
    if f.contains_key(k) {
        if st.t <= f[k] {
            (m.insert(k, SignalState { read: true, ..st }), f)
        } else {
            (m.insert(k, st), f.remove(k))
        }
    } else {
        (m.insert(k, st), f)
    }
}

/// All reported signals taken in, in order, from no signals and the given
/// floors.
pub open spec fn merge_entries(es: Seq<(KeyView, SignalState)>, floors: Map<KeyView, i64>) -> (
    Map<KeyView, SignalState>,
    Map<KeyView, i64>,
)
    decreases es.len(),
{
    if es.len() == 0 {
        (Map::empty(), floors)
    } else {
        merge_step(merge_entries(es.drop_last(), floors), es.last())
    }
}

/// A poll succeeded: the page replaces the signals (read floors applied),
/// polling is healthy again, and the time and page data are kept.
pub open spec fn snapshot_applied(s: StateView, fetched_at_ms: i64, page: PageView) -> StateView {
    let merged = merge_entries(page_entries(page.rows), s.read_floors);
    StateView {
        signals: merged.0,
        read_floors: merged.1,
        last_poll_ms: Some(fetched_at_ms),
        last_meta: Some((page.total, page.page, page.page_size)),
        consecutive_poll_failures: 0,
        last_poll_ok: Some(true),
        last_error: None,
        last_poll_error: None,
        has_seen_snapshot: true,
        ..s
    }
}

/// The keys that a poll newly made unread, which nothing reports for the
/// first poll.
pub open spec fn newly_unread(before: StateView, after: StateView) -> Set<KeyView> {
    if before.has_seen_snapshot {
        unread_set(after.signals, after.pending_read).difference(
            unread_set(before.signals, before.pending_read),
        )
    } else {
        Set::empty()
    }
}

/// Marks the keys of a group read one by one, as `mark_read_requested`
/// does for each key that is unread and not pending at its turn; gives the
/// new state and the keys that were marked.
pub open spec fn mark_group_fold(s: StateView, keys: Seq<KeyView>) -> (StateView, Seq<KeyView>)
    decreases keys.len(),
{
    if keys.len() == 0 {
        (s, Seq::empty())
    } else {
        let prev = mark_group_fold(s, keys.drop_last());
        let k = keys.last();
        let t = prev.0;
        if t.signals.contains_key(k) && !t.signals[k].read && !t.pending_read.contains(k) {
            (mark_read_requested(t, k), prev.1.push(k))
        } else {
            prev
        }
    }
}

/// The snapshot of a state.
pub open spec fn snapshot_of(s: StateView) -> SnapshotView {
    SnapshotView {
        signals: s.signals,
        pending_read: s.pending_read,
        unread_count: unread_set(s.signals, s.pending_read).len(),
        last_poll_ms: s.last_poll_ms,
        last_poll_ok: s.last_poll_ok,
        consecutive_poll_failures: s.consecutive_poll_failures,
        last_meta: s.last_meta,
        last_poll_error: s.last_poll_error,
        last_error: s.last_error,
    }
}

impl Default for AppState {
    fn default() -> (s: Self)
        ensures
            s@ == initial_state(),
    {
        AppState {
            signals: SignalMap::new(),
            pending_read: KeySet::new(),
            read_floors: KeyMap::new(),
            last_poll_error: None,
            has_seen_snapshot: false,
            last_poll_ms: None,
            last_poll_ok: None,
            consecutive_poll_failures: 0,
            last_meta: None,
            last_error: None,
        }
    }
}

/// The error shown when the mark-read of `key` could not be sent.
pub fn send_failed_text(key: &SignalKey, error: &str) -> (msg: String)
    ensures
        msg@ == send_failed_message(key@, error@),
{
    let mut msg = String::new();
    append_str(&mut msg, "send mark-read failed [");
    append_str(&mut msg, key.symbol.as_str());
    append_str(&mut msg, " ");
    append_str(&mut msg, key.period.as_str());
    append_str(&mut msg, " ");
    append_str(&mut msg, key.signal_type.as_str());
    append_str(&mut msg, "]: ");
    append_str(&mut msg, error);
    assert(msg@ =~= send_failed_message(key@, error@));
    msg
}

impl AppState {
    /// The snapshot that the adapters are shown.
    pub fn to_snapshot(&self) -> (snap: AppSnapshot)
        ensures
            snap@ == snapshot_of(self@),
    {
        let unread = effective_unread_keys(&self.signals, &self.pending_read);
        let unread_count = unread.len();
        AppSnapshot {
            signals: self.signals.duplicate(),
            pending_read: self.pending_read.duplicate(),
            unread_count,
            last_poll_ms: self.last_poll_ms,
            last_poll_ok: self.last_poll_ok,
            consecutive_poll_failures: self.consecutive_poll_failures,
            last_meta: self.last_meta,
            last_poll_error: copy_opt_text(&self.last_poll_error),
            last_error: copy_opt_text(&self.last_error),
        }
    }

    /// Marks `key` read at once, before the service confirms it.
    pub fn mark_one_read(&mut self, key: &SignalKey)
        ensures
            final(self)@ == mark_read_requested(old(self)@, key@),
    {
        if self.pending_read.contains(key) {
            return ;
        }
        match self.signals.get(key) {
            Some(st) => {
                self.read_floors.insert(key.clone(), st.t);
                self.signals.set_read(key, true);
            },
            None => {},
        }
        self.pending_read.insert(key.clone());
    }

    /// A request to set the read state of `key`: marking read is applied at
    /// once; marking unread leaves the state to the service's answer.
    pub fn apply_mark_read_request(&mut self, key: &SignalKey, read: bool)
        ensures
            final(self)@ == (if read {
                mark_read_requested(old(self)@, key@)
            } else {
                old(self)@
            }),
    {
        if read {
            self.mark_one_read(key);
        }
    }

    /// The service confirmed the mark-read of `key`.
    pub fn apply_mark_read_synced(&mut self, key: &SignalKey)
        ensures
            final(self)@ == mark_read_synced(old(self)@, key@),
    {
        self.pending_read.remove(key);
    }

    /// The mark-read of `key` failed with `error`.
    pub fn apply_sync_failed(&mut self, key: &SignalKey, error: String)
        ensures
            final(self)@ == sync_failed(old(self)@, key@, error@),
    {
        let was_pending = self.pending_read.remove(key);
        self.read_floors.remove(key);
        if was_pending {
            self.signals.set_read(key, false);
        }
        let mut msg = String::new();
        append_str(&mut msg, "sync failed [");
        append_str(&mut msg, key.symbol.as_str());
        append_str(&mut msg, " ");
        append_str(&mut msg, key.period.as_str());
        append_str(&mut msg, " ");
        append_str(&mut msg, key.signal_type.as_str());
        append_str(&mut msg, "]: ");
        append_str(&mut msg, error.as_str());
        assert(msg@ =~= sync_failed_message(key@, error@));
        self.last_error = Some(msg);
    }

    /// The mark-read of `key` could not be sent to the runtime (with
    /// `error`); the optimistic change is taken back.
    pub fn apply_send_failed(&mut self, key: &SignalKey, error: String)
        ensures
            final(self)@ == send_failed(old(self)@, key@, error@),
    {
        self.pending_read.remove(key);
        self.read_floors.remove(key);
        self.signals.set_read(key, false);
        self.last_error = Some(send_failed_text(key, error.as_str()));
    }

    /// A poll failed with `error`.
    pub fn apply_poll_failed(&mut self, error: String)
        ensures
            final(self)@ == poll_failed(old(self)@, error@),
    {
        self.consecutive_poll_failures = self.consecutive_poll_failures.saturating_add(1);
        self.last_poll_ok = Some(self.consecutive_poll_failures < 2);
        self.last_poll_error = Some(error.clone());
        self.last_error = Some(error);
    }

    /// A poll fetched `page` at `fetched_at_ms`. Gives the keys that the
    /// poll newly made unread, in key order (none for the first poll).
    pub fn apply_snapshot(&mut self, fetched_at_ms: i64, page: &SignalPage) -> (new_unread: Vec<
        SignalKey,
    >)
        ensures
            final(self)@ == snapshot_applied(old(self)@, fetched_at_ms, page@),
            key_views(new_unread@).to_set() == newly_unread(old(self)@, final(self)@),
            strictly_sorted(key_views(new_unread@)),
    {
        let previous = effective_unread_keys(&self.signals, &self.pending_read);
        let ghost floors0 = self.read_floors@;
        let ghost rows = rows_view(page.data@);
        let mut next = SignalMap::new();
        let mut i: usize = 0;
        assert(rows.take(0) =~= Seq::<RowView>::empty());
        while i < page.data.len()
            invariant
                i <= page.data@.len(),
                rows == rows_view(page.data@),
                self.signals@ == old(self)@.signals,
                self.pending_read@ == old(self)@.pending_read,
                self.has_seen_snapshot == old(self)@.has_seen_snapshot,
                previous@ == unread_set(old(self)@.signals, old(self)@.pending_read),
                (next@, self.read_floors@) == merge_entries(page_entries(rows.take(i as int)), floors0),
            decreases page.data@.len() - i,
        {
            let row = &page.data[i];
            let ghost done = page_entries(rows.take(i as int));
            let ghost re = row_entries(row@);
            assert(rows[i as int] == row@);
            let mut j: usize = 0;
            assert(done + re.take(0) =~= done);
            while j < row.signals.len()
                invariant
                    j <= row.signals@.len(),
                    row == &page.data[i as int],
                    re == row_entries(row@),
                    self.signals@ == old(self)@.signals,
                    self.pending_read@ == old(self)@.pending_read,
                    self.has_seen_snapshot == old(self)@.has_seen_snapshot,
                    previous@ == unread_set(old(self)@.signals, old(self)@.pending_read),
                    (next@, self.read_floors@) == merge_entries(done + re.take(j as int), floors0),
                decreases row.signals@.len() - j,
            {
                let name = &row.signals[j].0;
                let mut st = row.signals[j].1;
                let key = SignalKey::new(row.symbol.as_str(), row.period.as_str(), name.as_str());
                let ghost e = re[j as int];
                assert(e == (key@, st));
                let ghost before = (next@, self.read_floors@);
                match self.read_floors.get(&key) {
                    Some(floor) => {
                        if st.t <= floor {
                            st.read = true;
                        } else {
                            self.read_floors.remove(&key);
                        }
                    },
                    None => {},
                }
                next.insert(key, st);
                assert((done + re.take(j as int)).push(e) =~= done + re.take(j + 1));
                assert((done + re.take(j + 1)).drop_last() =~= done + re.take(j as int));
                assert((next@, self.read_floors@) == merge_step(before, e));
                j = j + 1;
            }
            assert(re.take(j as int) =~= re);
            assert(rows.take(i + 1).drop_last() =~= rows.take(i as int));
            assert(rows.take(i + 1).last() == row@);
            i = i + 1;
        }
        assert(rows.take(i as int) =~= rows);
        self.signals = next;
        self.last_poll_ms = Some(fetched_at_ms);
        self.last_meta = Some((page.total, page.page, page.page_size));
        self.consecutive_poll_failures = 0;
        self.last_poll_ok = Some(true);
        self.last_error = None;
        self.last_poll_error = None;
        let current = effective_unread_keys(&self.signals, &self.pending_read);
        if self.has_seen_snapshot {
            collect_new_unread_keys(&previous, &current)
        } else {
            self.has_seen_snapshot = true;
            let none: Vec<SignalKey> = Vec::new();
            assert(key_views(none@).to_set() =~= Set::<KeyView>::empty());
            none
        }
    }

    /// Marks read every unread signal of `group` that is not already being
    /// marked, period by period and type by type. Gives the keys that were
    /// marked, for which the service must be told.
    pub fn mark_group_read(&mut self, group: &GroupConfig) -> (marked: Vec<SignalKey>)
        ensures
            (final(self)@, key_views(marked@)) == mark_group_fold(old(self)@, group_keys(group@)),
    {
        let ghost g = group@;
        let ghost s0 = self@;
        let mut marked: Vec<SignalKey> = Vec::new();
        let mut i: usize = 0;
        assert(g.periods.take(0) =~= Seq::<Seq<char>>::empty());
        assert(key_views(marked@) =~= Seq::<KeyView>::empty());
        while i < group.periods.len()
            invariant
                i <= group.periods@.len(),
                g == group@,
                (self@, key_views(marked@)) == mark_group_fold(
                    s0,
                    keys_for(g.symbol, g.periods.take(i as int), g.signal_types),
                ),
            decreases group.periods@.len() - i,
        {
            let ghost done = keys_for(g.symbol, g.periods.take(i as int), g.signal_types);
            let ghost pk = period_keys(g.symbol, g.periods[i as int], g.signal_types);
            let mut j: usize = 0;
            assert(done + pk.take(0) =~= done);
            while j < group.signal_types.len()
                invariant
                    i < group.periods@.len(),
                    j <= group.signal_types@.len(),
                    g == group@,
                    pk == period_keys(g.symbol, g.periods[i as int], g.signal_types),
                    (self@, key_views(marked@)) == mark_group_fold(s0, done + pk.take(j as int)),
                decreases group.signal_types@.len() - j,
            {
                let key = SignalKey::new(
                    group.symbol.as_str(),
                    group.periods[i].as_str(),
                    group.signal_types[j].as_str(),
                );
                assert(key@ == pk[j as int]);
                assert((done + pk.take(j as int)).push(key@) =~= done + pk.take(j + 1));
                assert((done + pk.take(j + 1)).drop_last() =~= done + pk.take(j as int));
                let ghost before_marked = key_views(marked@);
                let unread = match self.signals.get(&key) {
                    Some(st) => !st.read,
                    None => false,
                };
                if unread && !self.pending_read.contains(&key) {
                    self.mark_one_read(&key);
                    marked.push(key);
                    assert(key_views(marked@) =~= before_marked.push(pk[j as int]));
                }
                j = j + 1;
            }
            assert(pk.take(j as int) =~= pk);
            assert(g.periods.take(i + 1).drop_last() =~= g.periods.take(i as int));
            assert(g.periods.take(i + 1).last() == g.periods[i as int]);
            i = i + 1;
        }
        assert(g.periods.take(i as int) =~= g.periods);
        marked
    }
}

/// Marking a signal read takes it off the unread list at once.
pub proof fn law_mark_read_hides_at_once(s: StateView, k: KeyView)
    ensures
        !is_effectively_unread(
            mark_read_requested(s, k).signals,
            mark_read_requested(s, k).pending_read,
            k,
        ),
{
}

/// A second click on a signal whose mark-read is in flight changes nothing,
/// so marking read twice is marking read once.
pub proof fn law_duplicate_mark_read_ignored(s: StateView, k: KeyView)
    ensures
        s.pending_read.contains(k) ==> mark_read_requested(s, k) == s,
        mark_read_requested(mark_read_requested(s, k), k) == mark_read_requested(s, k),
{
}

/// The first poll raises no alert: nothing counts as newly unread before a
/// snapshot has been seen.
pub proof fn law_first_poll_alerts_nothing(s: StateView, fetched_at_ms: i64, page: PageView)
    requires
        !s.has_seen_snapshot,
    ensures
        newly_unread(s, snapshot_applied(s, fetched_at_ms, page)) == Set::<KeyView>::empty(),
        snapshot_applied(s, fetched_at_ms, page).has_seen_snapshot,
{
}

/// A failed mark-read puts the signal back as it was: unread, not pending,
/// without a read floor, and shows the error.
pub proof fn law_failed_mark_read_rolls_back(s: StateView, k: KeyView, err: Seq<char>)
    requires
        !s.pending_read.contains(k),
        s.signals.contains_key(k),
        !s.signals[k].read,
    ensures
        sync_failed(mark_read_requested(s, k), k, err).signals == s.signals,
        sync_failed(mark_read_requested(s, k), k, err).pending_read == s.pending_read,
        sync_failed(mark_read_requested(s, k), k, err).read_floors == s.read_floors.remove(k),
        is_effectively_unread(
            sync_failed(mark_read_requested(s, k), k, err).signals,
            sync_failed(mark_read_requested(s, k), k, err).pending_read,
            k,
        ),
        sync_failed(mark_read_requested(s, k), k, err).last_error == Some(
            sync_failed_message(k, err),
        ),
{
    let m = mark_read_requested(s, k);
    let t = sync_failed(m, k, err);
    assert(t.signals =~= s.signals);
    assert(t.pending_read =~= s.pending_read);
    assert(t.read_floors =~= s.read_floors.remove(k));
}

/// A mark-read that could not be sent puts the signal back as it was:
/// unread, not pending, without a read floor, and shows the error.
pub proof fn law_unsent_mark_read_rolls_back(s: StateView, k: KeyView, err: Seq<char>)
    requires
        !s.pending_read.contains(k),
        s.signals.contains_key(k),
        !s.signals[k].read,
    ensures
        send_failed(mark_read_requested(s, k), k, err).signals == s.signals,
        send_failed(mark_read_requested(s, k), k, err).pending_read == s.pending_read,
        send_failed(mark_read_requested(s, k), k, err).read_floors == s.read_floors.remove(k),
        is_effectively_unread(
            send_failed(mark_read_requested(s, k), k, err).signals,
            send_failed(mark_read_requested(s, k), k, err).pending_read,
            k,
        ),
        send_failed(mark_read_requested(s, k), k, err).last_error == Some(
            send_failed_message(k, err),
        ),
{
    let m = mark_read_requested(s, k);
    let t = send_failed(m, k, err);
    assert(t.signals =~= s.signals);
    assert(t.pending_read =~= s.pending_read);
    assert(t.read_floors =~= s.read_floors.remove(k));
}

/// A confirmed mark-read leaves the signal read, no longer pending, with
/// its trigger time as the read floor.
pub proof fn law_confirmed_mark_read_stays_read(s: StateView, k: KeyView)
    requires
        !s.pending_read.contains(k),
        s.signals.contains_key(k),
    ensures
        mark_read_synced(mark_read_requested(s, k), k).signals[k].read,
        !mark_read_synced(mark_read_requested(s, k), k).pending_read.contains(k),
        mark_read_synced(mark_read_requested(s, k), k).read_floors[k] == s.signals[k].t,
        !is_effectively_unread(
            mark_read_synced(mark_read_requested(s, k), k).signals,
            mark_read_synced(mark_read_requested(s, k), k).pending_read,
            k,
        ),
{
}

/// A poll never shows a signal unread while its mark-read is in flight.
pub proof fn law_pending_stays_read_across_polls(
    s: StateView,
    fetched_at_ms: i64,
    page: PageView,
    k: KeyView,
)
    requires
        s.pending_read.contains(k),
    ensures
        !is_effectively_unread(
            snapshot_applied(s, fetched_at_ms, page).signals,
            snapshot_applied(s, fetched_at_ms, page).pending_read,
            k,
        ),
{
}

/// While every reported time of a signal is not after its read floor, the
/// signal shows read and the floor stays.
pub proof fn law_read_floor_holds(es: Seq<(KeyView, SignalState)>, floors: Map<KeyView, i64>, k: KeyView)
    requires
        floors.contains_key(k),
        forall|i: int| 0 <= i < es.len() && (#[trigger] es[i]).0 == k ==> es[i].1.t <= floors[k],
    ensures
        merge_entries(es, floors).1.contains_key(k),
        merge_entries(es, floors).1[k] == floors[k],
        merge_entries(es, floors).0.contains_key(k) ==> merge_entries(es, floors).0[k].read,
    decreases es.len(),
{
    if es.len() > 0 {
        assert forall|i: int| 0 <= i < es.drop_last().len() && (#[trigger] es.drop_last()[i]).0 == k implies es.drop_last()[i].1.t <= floors[k] by {
            assert(es.drop_last()[i] == es[i]);
        }
        law_read_floor_holds(es.drop_last(), floors, k);
        assert(es.last() == es[es.len() - 1]);
    }
}

/// After a mark-read, a poll that still reports the marked signal and no
/// newer one shows it read.
pub proof fn law_read_floor_holds_across_polls(
    s: StateView,
    fetched_at_ms: i64,
    page: PageView,
    k: KeyView,
)
    requires
        s.read_floors.contains_key(k),
        forall|i: int|
            0 <= i < page_entries(page.rows).len() && (#[trigger] page_entries(page.rows)[i]).0 == k
                ==> page_entries(page.rows)[i].1.t <= s.read_floors[k],
    ensures
        snapshot_applied(s, fetched_at_ms, page).signals.contains_key(k) ==> snapshot_applied(
            s,
            fetched_at_ms,
            page,
        ).signals[k].read,
        snapshot_applied(s, fetched_at_ms, page).read_floors.contains_key(k),
{
    law_read_floor_holds(page_entries(page.rows), s.read_floors, k);
}

/// The unread count of a snapshot is the number of effectively unread
/// signals.
pub proof fn law_snapshot_counts_unread(s: StateView)
    ensures
        snapshot_of(s).unread_count == unread_set(s.signals, s.pending_read).len(),
        snapshot_of(s).signals == s.signals,
        snapshot_of(s).pending_read == s.pending_read,
{
}

} // verus!
