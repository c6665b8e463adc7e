//! The hover list of unread signals: which rows it shows, in which order,
//! and when it closes.
use vstd::prelude::*;

use crate::api::SignalState;
use crate::app_core::queries::unread::is_effectively_unread;
use crate::collections::{key_views, KeySet, SignalMap};
use crate::config::{group_key_list, group_keys, groups_view, GroupConfig, GroupView};
use crate::domain::{side_of_code, KeyView, Side, SignalKey};

verus! {

/// A hover list closes this many milliseconds after the pointer has left
/// both it and its trigger.
pub const HOVER_CLOSE_DELAY_MS: i64 = 200i64;

/// Which unread signals a hover list shows: all of them, or those of one
/// group (by id).
#[derive(Debug, Clone, PartialEq, Eq)]
pub enum HoverPanelTarget {
    Global,
    Group(String),
}

/// An open hover list and when it closes, if it is closing.
#[derive(Debug, Clone)]
pub struct HoverPanelState {
    pub target: HoverPanelTarget,
    pub close_deadline_ms: Option<i64>,
}

/// One row of a hover list.
#[derive(Debug, Clone)]
pub struct UnreadItemView {
    pub key: SignalKey,
    pub group_id: String,
    pub symbol: String,
    pub period: String,
    pub signal_type: String,
    pub side: Side,
    pub trigger_time_ms: i64,
}

/// The mathematical value of a row.
pub struct ItemView {
    pub key: KeyView,
    pub group_id: Seq<char>,
    pub symbol: Seq<char>,
    pub period: Seq<char>,
    pub signal_type: Seq<char>,
    pub side: Side,
    pub trigger_time_ms: i64,
}

impl View for UnreadItemView {
    type V = ItemView;

    open spec fn view(&self) -> ItemView {
        ItemView {
            key: self.key@,
            group_id: self.group_id@,
            symbol: self.symbol@,
            period: self.period@,
            signal_type: self.signal_type@,
            side: self.side,
            trigger_time_ms: self.trigger_time_ms,
        }
    }
}

/// The views of a sequence of rows.
pub open spec fn items_view(s: Seq<UnreadItemView>) -> Seq<ItemView> {
    s.map_values(|u: UnreadItemView| u@)
}

/// The mathematical value of a target: `None` for all groups, or a group id.
pub open spec fn target_view(t: HoverPanelTarget) -> Option<Seq<char>> {
    match t {
        HoverPanelTarget::Global => None,
        HoverPanelTarget::Group(id) => Some(id@),
    }
}

/// A group is listed where it is enabled and the target takes it in.
pub open spec fn group_listed(g: GroupView, target: Option<Seq<char>>) -> bool {
    g.enabled && match target {
        None => true,
        Some(id) => g.id == id,
    }
}

/// The keys of a group with the group's id.
pub open spec fn tagged_keys(g: GroupView) -> Seq<(Seq<char>, KeyView)> {
    group_keys(g).map_values(|k: KeyView| (g.id, k))
}

/// Every key of every listed group, group by group, with its group's id.
pub open spec fn candidates(groups: Seq<GroupView>, target: Option<Seq<char>>) -> Seq<
    (Seq<char>, KeyView),
>
    decreases groups.len(),
{
    if groups.len() == 0 {
        Seq::empty()
    } else {
        candidates(groups.drop_last(), target) + if group_listed(groups.last(), target) {
            tagged_keys(groups.last())
        } else {
            Seq::empty()
        }
    }
}

/// The row of a candidate.
pub open spec fn row_of(c: (Seq<char>, KeyView), signals: Map<KeyView, SignalState>) -> ItemView {
    ItemView {
        key: c.1,
        group_id: c.0,
        symbol: c.1.0,
        period: c.1.1,
        signal_type: c.1.2,
        side: side_of_code(signals[c.1].sd as int),
        trigger_time_ms: signals[c.1].t,
    }
}

/// A candidate is shown where its signal is effectively unread and, in the
/// list of all groups, no earlier candidate has the same key.
pub open spec fn shown(
    cands: Seq<(Seq<char>, KeyView)>,
    i: int,
    signals: Map<KeyView, SignalState>,
    pending: Set<KeyView>,
    global: bool,
) -> bool {
    &&& !(global && exists|j: int| 0 <= j < i && cands[j].1 == cands[i].1)
    &&& is_effectively_unread(signals, pending, cands[i].1)
}

/// The rows of the shown candidates, in candidate order.
pub open spec fn listed_rows(
    cands: Seq<(Seq<char>, KeyView)>,
    signals: Map<KeyView, SignalState>,
    pending: Set<KeyView>,
    global: bool,
) -> Seq<ItemView>
    decreases cands.len(),
{
    if cands.len() == 0 {
        Seq::empty()
    } else {
        let rest = listed_rows(cands.drop_last(), signals, pending, global);
        if shown(cands, cands.len() - 1, signals, pending, global) {
            rest.push(row_of(cands.last(), signals))
        } else {
            rest
        }
    }
}

/// The rows of `s` with trigger time `v`, in order.
pub open spec fn rows_at(s: Seq<ItemView>, v: i64) -> Seq<ItemView> {
    s.filter(|r: ItemView| r.trigger_time_ms == v)
}

/// Latest trigger time first.
pub open spec fn time_desc(s: Seq<ItemView>) -> bool {
    forall|i: int, j: int|
        0 <= i < j < s.len() ==> (#[trigger] s[i]).trigger_time_ms >= (#[trigger] s[j]).trigger_time_ms
}

/// `sorted` is `rows` sorted by trigger time, latest first, with rows of the
/// same time kept in their order (a stable sort).
pub open spec fn stable_sorted_desc(sorted: Seq<ItemView>, rows: Seq<ItemView>) -> bool {
    &&& time_desc(sorted)
    &&& forall|v: i64| #[trigger] rows_at(sorted, v) == rows_at(rows, v)
}

/// Inserts `x` after every row that is not older.
fn insert_by_time(v: &mut Vec<UnreadItemView>, x: UnreadItemView)
    requires
        time_desc(items_view(old(v)@)),
    ensures
        time_desc(items_view(final(v)@)),
        exists|p: int| 0 <= p <= old(v)@.len() && items_view(final(v)@) == items_view(old(v)@).insert(p, x@),
        forall|t: i64| #[trigger] rows_at(items_view(final(v)@), t) == if t == x.trigger_time_ms {
            rows_at(items_view(old(v)@), t).push(x@)
        } else {
            rows_at(items_view(old(v)@), t)
        },
{
    let ghost old_rows = items_view(v@);
    let mut p: usize = 0;
    while p < v.len() && v[p].trigger_time_ms >= x.trigger_time_ms
        invariant
            p <= v@.len(),
            v@ == old(v)@,
            old_rows == items_view(v@),
            forall|j: int| 0 <= j < p ==> (#[trigger] old_rows[j]).trigger_time_ms >= x.trigger_time_ms,
        decreases v@.len() - p,
    {
        assert(old_rows[p as int] == v@[p as int]@);
        p = p + 1;
    }
    let ghost xv = x@;
    proof {
        if p < v@.len() {
            assert(old_rows[p as int] == v@[p as int]@);
        }
    }
    v.insert(p, x);
    proof {
        let nr = items_view(v@);
        assert(nr =~= old_rows.insert(p as int, xv));
        let a = old_rows.take(p as int);
        let b = old_rows.skip(p as int);
        assert(old_rows =~= a + b);
        assert(nr =~= a.push(xv) + b);
        assert forall|i: int, j: int| 0 <= i < j < nr.len() implies (#[trigger] nr[i]).trigger_time_ms
            >= (#[trigger] nr[j]).trigger_time_ms by {
            if j == p {
                assert(nr[i] == old_rows[i]);
            } else if i == p {
                assert(nr[j] == old_rows[j - 1]);
                if p < old_rows.len() {
                    assert(old_rows[p as int].trigger_time_ms < xv.trigger_time_ms);
                    if j - 1 > p {
                        assert(old_rows[p as int].trigger_time_ms >= old_rows[j - 1].trigger_time_ms);
                    }
                }
            } else {
                let oi = if i < p { i } else { i - 1 };
                let oj = if j < p { j } else { j - 1 };
                assert(nr[i] == old_rows[oi]);
                assert(nr[j] == old_rows[oj]);
            }
        }
        assert forall|t: i64| #[trigger] rows_at(nr, t) == if t == xv.trigger_time_ms {
            rows_at(old_rows, t).push(xv)
        } else {
            rows_at(old_rows, t)
        } by {
            let f = |r: ItemView| r.trigger_time_ms == t;
            Seq::filter_distributes_over_add(a.push(xv), b, f);
            Seq::filter_distributes_over_add(a, b, f);
            a.lemma_filter_push(xv, f);
            if t == xv.trigger_time_ms {
                assert forall|k: int| 0 <= k < b.len() implies !f(#[trigger] b[k]) by {
                    assert(b[k] == old_rows[p + k]);
                    if k > 0 {
                        assert(old_rows[p as int].trigger_time_ms >= old_rows[p + k].trigger_time_ms);
                    }
                }
                b.lemma_all_neg_filter_empty(f);
                assert(b.filter(f) =~= Seq::<ItemView>::empty());
                assert(rows_at(nr, t) =~= rows_at(old_rows, t).push(xv));
            }
        }
    }
}

/// The keys of every listed group, each with its group's id.
fn collect_candidates(groups: &Vec<GroupConfig>, target: &HoverPanelTarget) -> (r: Vec<
    (String, SignalKey),
>)
    ensures
        r@.map_values(|c: (String, SignalKey)| (c.0@, c.1@)) == candidates(
            groups_view(groups@),
            target_view(*target),
        ),
{
    let ghost gv = groups_view(groups@);
    let ghost tv = target_view(*target);
    let mut r: Vec<(String, SignalKey)> = Vec::new();
    let mut i: usize = 0;
    assert(gv.take(0) =~= Seq::<GroupView>::empty());
    assert(r@.map_values(|c: (String, SignalKey)| (c.0@, c.1@)) =~= Seq::<(Seq<char>, KeyView)>::empty());
    while i < groups.len()
        invariant
            i <= groups@.len(),
            gv == groups_view(groups@),
            tv == target_view(*target),
            r@.map_values(|c: (String, SignalKey)| (c.0@, c.1@)) == candidates(gv.take(i as int), tv),
        decreases groups@.len() - i,
    {
        let group = &groups[i];
        assert(gv[i as int] == group@);
        let listed = group.enabled && match target {
            HoverPanelTarget::Global => true,
            HoverPanelTarget::Group(id) => group.id == *id,
        };
        let ghost done = candidates(gv.take(i as int), tv);
        assert(gv.take(i + 1).drop_last() =~= gv.take(i as int));
        assert(gv.take(i + 1).last() == group@);
        if listed {
            let keys = group_key_list(group);
            let ghost tk = tagged_keys(group@);
            let mut j: usize = 0;
            assert(done + tk.take(0) =~= done);
            while j < keys.len()
                invariant
                    j <= keys@.len(),
                    key_views(keys@) == group_keys(group@),
                    tk == tagged_keys(group@),
                    r@.map_values(|c: (String, SignalKey)| (c.0@, c.1@)) == done + tk.take(j as int),
                decreases keys@.len() - j,
            {
                let ghost before = r@.map_values(|c: (String, SignalKey)| (c.0@, c.1@));
                r.push((group.id.clone(), keys[j].clone()));
                assert(r@.map_values(|c: (String, SignalKey)| (c.0@, c.1@)) =~= before.push((group@.id, keys@[j as int]@)));
                assert(tk[j as int] == (group@.id, key_views(keys@)[j as int]));
                assert(done + tk.take(j + 1) =~= (done + tk.take(j as int)).push(tk[j as int]));
                j = j + 1;
            }
            assert(tk.take(j as int) =~= tk);
        } else {
            assert(done + Seq::<(Seq<char>, KeyView)>::empty() =~= done);
        }
        i = i + 1;
    }
    assert(gv.take(i as int) =~= gv);
    r
}

/// The unread rows of the listed groups, latest first: each signal of a
/// listed group that is effectively unread, once per group (once in all in
/// the list of all groups), sorted stably by trigger time.
pub fn build_unread_items(
    groups: &Vec<GroupConfig>,
    signals: &SignalMap,
    pending_read: &KeySet,
    target: &HoverPanelTarget,
) -> (rows: Vec<UnreadItemView>)
    ensures
        stable_sorted_desc(
            items_view(rows@),
            listed_rows(
                candidates(groups_view(groups@), target_view(*target)),
                signals@,
                pending_read@,
                *target is Global,
            ),
        ),
        rows@.len() == listed_rows(
            candidates(groups_view(groups@), target_view(*target)),
            signals@,
            pending_read@,
            *target is Global,
        ).len(),
        forall|a: int|
            0 <= a < rows@.len() ==> is_effectively_unread(
                signals@,
                pending_read@,
                #[trigger] items_view(rows@)[a].key,
            ),
        *target is Global ==> forall|a: int, b: int|
            0 <= a < b < rows@.len() ==> (#[trigger] items_view(rows@)[a]).key != (#[trigger] items_view(
                rows@,
            )[b]).key,
{
    let cands = collect_candidates(groups, target);
    let ghost cv = cands@.map_values(|c: (String, SignalKey)| (c.0@, c.1@));
    let global = match target {
        HoverPanelTarget::Global => true,
        HoverPanelTarget::Group(_) => false,
    };
    let mut seen = KeySet::new();
    let mut rows: Vec<UnreadItemView> = Vec::new();
    let mut i: usize = 0;
    assert(cv.take(0) =~= Seq::<(Seq<char>, KeyView)>::empty());
    while i < cands.len()
        invariant
            i <= cands@.len(),
            cv == cands@.map_values(|c: (String, SignalKey)| (c.0@, c.1@)),
            global == (*target is Global),
            seen@ == Set::new(|k: KeyView| exists|j: int| 0 <= j < i && cv[j].1 == k),
            time_desc(items_view(rows@)),
            rows@.len() == listed_rows(cv.take(i as int), signals@, pending_read@, global).len(),
            forall|a: int|
                0 <= a < rows@.len() ==> is_effectively_unread(
                    signals@,
                    pending_read@,
                    #[trigger] items_view(rows@)[a].key,
                ),
            forall|a: int| 0 <= a < rows@.len() ==> seen@.contains(#[trigger] items_view(rows@)[a].key),
            global ==> forall|a: int, b: int|
                0 <= a < b < rows@.len() ==> (#[trigger] items_view(rows@)[a]).key != (#[trigger] items_view(
                    rows@,
                )[b]).key,
            forall|t: i64| #[trigger] rows_at(items_view(rows@), t) == rows_at(
                listed_rows(cv.take(i as int), signals@, pending_read@, global),
                t,
            ),
        decreases cands@.len() - i,
    {
        let key = &cands[i].1;
        let ghost c = cv[i as int];
        assert(c.1 == key@);
        let ghost seen_before = seen@;
        let first = seen.insert(key.clone());
        let ghost pre = cv.take(i as int);
        let ghost now = cv.take(i + 1);
        assert(now.drop_last() =~= pre);
        assert(now.last() == c);
        assert(first == !(exists|j: int| 0 <= j < i && cv[j].1 == c.1));
        assert((exists|j: int| 0 <= j < i && cv[j].1 == c.1) == (exists|j: int|
            0 <= j < i && now[j].1 == now[i as int].1)) by {
            if exists|j: int| 0 <= j < i && cv[j].1 == c.1 {
                let j = choose|j: int| 0 <= j < i && cv[j].1 == c.1;
                assert(now[j] == cv[j]);
            }
            if exists|j: int| 0 <= j < i && now[j].1 == now[i as int].1 {
                let j = choose|j: int| 0 <= j < i && now[j].1 == now[i as int].1;
                assert(now[j] == cv[j]);
            }
        }
        let ghost before = items_view(rows@);
        if !global || first {
            match signals.get(key) {
                Some(sig) => {
                    if !sig.read && !pending_read.contains(key) {
                        let item = UnreadItemView {
                            key: key.clone(),
                            group_id: cands[i].0.clone(),
                            symbol: key.symbol.clone(),
                            period: key.period.clone(),
                            signal_type: key.signal_type.clone(),
                            side: Side::from_code(sig.sd),
                            trigger_time_ms: sig.t,
                        };
                        assert(item@ == row_of(c, signals@));
                        let ghost ik = item@.key;
                        insert_by_time(&mut rows, item);
                        proof {
                            let p = choose|p: int| 0 <= p <= before.len() && items_view(rows@) == before.insert(p, row_of(c, signals@));
                            let nr = items_view(rows@);
                            assert(nr.len() == before.len() + 1);
                            assert forall|a: int| 0 <= a < nr.len() implies is_effectively_unread(
                                signals@,
                                pending_read@,
                                #[trigger] nr[a].key,
                            ) && seen@.contains(nr[a].key) by {
                                if a < p {
                                    assert(nr[a] == before[a]);
                                } else if a > p {
                                    assert(nr[a] == before[a - 1]);
                                }
                            }
                            if global {
                                assert forall|a: int, b: int| 0 <= a < b < nr.len() implies (#[trigger] nr[a]).key != (#[trigger] nr[b]).key by {
                                    if a != p && b != p {
                                        let oa = if a < p { a } else { a - 1 };
                                        let ob = if b < p { b } else { b - 1 };
                                        assert(nr[a] == before[oa]);
                                        assert(nr[b] == before[ob]);
                                    } else if a == p {
                                        let ob = b - 1;
                                        assert(nr[b] == before[ob]);
                                        assert(seen_before.contains(before[ob].key));
                                    } else {
                                        assert(nr[a] == before[a]);
                                        assert(seen_before.contains(before[a].key));
                                    }
                                }
                            }
                        }
                    }
                },
                None => {},
            }
        }
        proof {
            let lr0 = listed_rows(pre, signals@, pending_read@, global);
            assert(listed_rows(now, signals@, pending_read@, global) == if shown(now, now.len() - 1, signals@, pending_read@, global) {
                lr0.push(row_of(c, signals@))
            } else {
                lr0
            });
            assert(items_view(rows@).len() == listed_rows(now, signals@, pending_read@, global).len());
            assert forall|t: i64| #[trigger] rows_at(items_view(rows@), t) == rows_at(
                listed_rows(now, signals@, pending_read@, global),
                t,
            ) by {
                let f = |r: ItemView| r.trigger_time_ms == t;
                let lr = listed_rows(pre, signals@, pending_read@, global);
                assert(rows_at(before, t) == rows_at(lr, t));
                lr.lemma_filter_push(row_of(c, signals@), f);
            }
        }
        i = i + 1;
        assert(seen@ =~= Set::new(|k: KeyView| exists|j: int| 0 <= j < i && cv[j].1 == k)) by {
            assert forall|k: KeyView| #[trigger] seen@.contains(k) implies exists|j: int|
                0 <= j < i && cv[j].1 == k by {
                if k != c.1 {
                    let j = choose|j: int| 0 <= j < i - 1 && cv[j].1 == k;
                    assert(0 <= j < i && cv[j].1 == k);
                } else {
                    assert(0 <= i - 1 < i && cv[i - 1].1 == k);
                }
            }
        }
    }
    assert(cv.take(i as int) =~= cv);
    rows
}

/// The hover list stays open while the pointer is on its trigger or on the
/// list; once the pointer leaves, it closes `delay_ms` later, and a closing
/// time once set is kept.
pub fn next_close_deadline_ms(
    trigger_hovered: bool,
    panel_hovered: bool,
    now_ms: i64,
    current_deadline_ms: Option<i64>,
    delay_ms: i64,
) -> (r: Option<i64>)
    requires
        !trigger_hovered && !panel_hovered && current_deadline_ms is None ==> i64::MIN <= now_ms
            + delay_ms <= i64::MAX,
    ensures
        r == (if trigger_hovered || panel_hovered {
            None
        } else if current_deadline_ms is Some {
            current_deadline_ms
        } else {
            Some((now_ms + delay_ms) as i64)
        }),
{
    if trigger_hovered || panel_hovered {
        None
    } else if current_deadline_ms.is_some() {
        current_deadline_ms
    } else {
        Some(now_ms + delay_ms)
    }
}

/// Every listed row is the row of one of the candidates.
pub proof fn lemma_listed_rows_from_candidates(
    cands: Seq<(Seq<char>, KeyView)>,
    signals: Map<KeyView, SignalState>,
    pending: Set<KeyView>,
    global: bool,
)
    ensures
        forall|j: int|
            0 <= j < listed_rows(cands, signals, pending, global).len() ==> exists|i: int|
                0 <= i < cands.len() && #[trigger] listed_rows(cands, signals, pending, global)[j]
                    == row_of(cands[i], signals) && is_effectively_unread(signals, pending, cands[i].1),
    decreases cands.len(),
{
    if cands.len() > 0 {
        let pre = cands.drop_last();
        lemma_listed_rows_from_candidates(pre, signals, pending, global);
        let l = listed_rows(cands, signals, pending, global);
        let l0 = listed_rows(pre, signals, pending, global);
        assert forall|j: int| 0 <= j < l.len() implies exists|i: int|
            0 <= i < cands.len() && #[trigger] l[j] == row_of(cands[i], signals)
                && is_effectively_unread(signals, pending, cands[i].1) by {
            if j < l0.len() {
                let i = choose|i: int|
                    0 <= i < pre.len() && l0[j] == row_of(pre[i], signals) && is_effectively_unread(
                        signals,
                        pending,
                        pre[i].1,
                    );
                assert(l[j] == l0[j]);
                assert(cands[i] == pre[i]);
            } else {
                assert(l[j] == row_of(cands[cands.len() - 1], signals));
            }
        }
    }
}

/// The candidates of one group's list all carry that group's id.
pub proof fn lemma_group_candidates_carry_id(groups: Seq<GroupView>, id: Seq<char>)
    ensures
        forall|i: int|
            0 <= i < candidates(groups, Some(id)).len() ==> (#[trigger] candidates(groups, Some(id))[i]).0
                == id,
    decreases groups.len(),
{
    if groups.len() > 0 {
        lemma_group_candidates_carry_id(groups.drop_last(), id);
        let c0 = candidates(groups.drop_last(), Some(id));
        let c = candidates(groups, Some(id));
        let g = groups.last();
        assert forall|i: int| 0 <= i < c.len() implies (#[trigger] c[i]).0 == id by {
            if i >= c0.len() {
                assert(group_listed(g, Some(id)));
                assert(c[i] == tagged_keys(g)[i - c0.len()]);
            } else {
                assert(c[i] == c0[i]);
            }
        }
    }
}

/// The list of one group shows only that group's rows, and only unread ones.
pub proof fn law_group_list_scope(
    groups: Seq<GroupView>,
    id: Seq<char>,
    signals: Map<KeyView, SignalState>,
    pending: Set<KeyView>,
)
    ensures
        forall|j: int|
            0 <= j < listed_rows(candidates(groups, Some(id)), signals, pending, false).len() ==> {
                let r = #[trigger] listed_rows(candidates(groups, Some(id)), signals, pending, false)[j];
                r.group_id == id && is_effectively_unread(signals, pending, r.key)
            },
{
    let c = candidates(groups, Some(id));
    lemma_group_candidates_carry_id(groups, id);
    lemma_listed_rows_from_candidates(c, signals, pending, false);
}

/// Every key of a listed group is among the candidates.
pub proof fn lemma_candidates_cover_groups(
    groups: Seq<GroupView>,
    target: Option<Seq<char>>,
    g: int,
    k: KeyView,
)
    requires
        0 <= g < groups.len(),
        group_listed(groups[g], target),
        group_keys(groups[g]).contains(k),
    ensures
        exists|i: int|
            0 <= i < candidates(groups, target).len() && #[trigger] candidates(groups, target)[i] == (
                groups[g].id,
                k,
            ),
    decreases groups.len(),
{
    let c0 = candidates(groups.drop_last(), target);
    let c = candidates(groups, target);
    if g < groups.len() - 1 {
        assert(groups.drop_last()[g] == groups[g]);
        lemma_candidates_cover_groups(groups.drop_last(), target, g, k);
        let i = choose|i: int| 0 <= i < c0.len() && c0[i] == (groups[g].id, k);
        assert(c[i] == c0[i]);
    } else {
        let ks = group_keys(groups[g]);
        let m = choose|m: int| 0 <= m < ks.len() && ks[m] == k;
        assert(groups.last() == groups[g]);
        assert(c[c0.len() + m] == tagged_keys(groups[g])[m]);
    }
}

/// A key among the candidates that is effectively unread has a row in the
/// list.
pub proof fn lemma_listed_rows_complete(
    cands: Seq<(Seq<char>, KeyView)>,
    signals: Map<KeyView, SignalState>,
    pending: Set<KeyView>,
    global: bool,
    k: KeyView,
)
    requires
        exists|i: int| 0 <= i < cands.len() && cands[i].1 == k,
        is_effectively_unread(signals, pending, k),
    ensures
        exists|j: int|
            0 <= j < listed_rows(cands, signals, pending, global).len() && (#[trigger] listed_rows(
                cands,
                signals,
                pending,
                global,
            )[j]).key == k,
    decreases cands.len(),
{
    let pre = cands.drop_last();
    let l = listed_rows(cands, signals, pending, global);
    let l0 = listed_rows(pre, signals, pending, global);
    if exists|i: int| 0 <= i < pre.len() && pre[i].1 == k {
        lemma_listed_rows_complete(pre, signals, pending, global, k);
        let j = choose|j: int| 0 <= j < l0.len() && l0[j].key == k;
        assert(l[j] == l0[j]);
    } else {
        let n = cands.len() - 1;
        assert(cands[n].1 == k) by {
            let i = choose|i: int| 0 <= i < cands.len() && cands[i].1 == k;
            if i < n {
                assert(pre[i] == cands[i]);
            }
        }
        assert(!(exists|j: int| 0 <= j < n && cands[j].1 == cands[n].1)) by {
            if exists|j: int| 0 <= j < n && cands[j].1 == cands[n].1 {
                let j = choose|j: int| 0 <= j < n && cands[j].1 == cands[n].1;
                assert(pre[j] == cands[j]);
            }
        }
        assert(shown(cands, n, signals, pending, global));
        assert(l[l0.len() as int].key == k);
    }
}

/// The list of all groups shows every unread signal of every enabled group.
pub proof fn law_global_list_complete(
    groups: Seq<GroupView>,
    signals: Map<KeyView, SignalState>,
    pending: Set<KeyView>,
    g: int,
    k: KeyView,
)
    requires
        0 <= g < groups.len(),
        groups[g].enabled,
        group_keys(groups[g]).contains(k),
        is_effectively_unread(signals, pending, k),
    ensures
        exists|j: int|
            0 <= j < listed_rows(candidates(groups, None), signals, pending, true).len()
                && (#[trigger] listed_rows(candidates(groups, None), signals, pending, true)[j]).key
                == k,
{
    lemma_candidates_cover_groups(groups, None, g, k);
    let c = candidates(groups, None);
    let i = choose|i: int| 0 <= i < c.len() && c[i] == (groups[g].id, k);
    assert(c[i].1 == k);
    lemma_listed_rows_complete(c, signals, pending, true, k);
}

/// A stable sort keeps exactly the rows it sorts.
pub proof fn law_stable_sort_keeps_rows(sorted: Seq<ItemView>, rows: Seq<ItemView>, x: ItemView)
    requires
        stable_sorted_desc(sorted, rows),
    ensures
        sorted.contains(x) == rows.contains(x),
{
    broadcast use vstd::seq_lib::group_seq_properties;

    let f = |r: ItemView| r.trigger_time_ms == x.trigger_time_ms;
    assert(rows_at(sorted, x.trigger_time_ms) == rows_at(rows, x.trigger_time_ms));
    if sorted.contains(x) {
        let i = choose|i: int| 0 <= i < sorted.len() && sorted[i] == x;
        sorted.lemma_filter_contains(f, i);
        rows.lemma_filter_contains_rev(f, x);
    }
    if rows.contains(x) {
        let i = choose|i: int| 0 <= i < rows.len() && rows[i] == x;
        rows.lemma_filter_contains(f, i);
        sorted.lemma_filter_contains_rev(f, x);
    }
}

/// Every row of a hover list, in whatever order the sort gave it, is a
/// signal that the service reported unread and that no mark-read holds, and
/// carries that signal's own data: its key's symbol, period and type, its
/// trigger time, and the side its code stands for (1 bull, -1 bear, any
/// other code unknown).
pub proof fn law_rows_carry_their_signal(
    cands: Seq<(Seq<char>, KeyView)>,
    signals: Map<KeyView, SignalState>,
    pending: Set<KeyView>,
    global: bool,
    sorted: Seq<ItemView>,
)
    requires
        stable_sorted_desc(sorted, listed_rows(cands, signals, pending, global)),
    ensures
        forall|i: int|
            0 <= i < sorted.len() ==> {
                let r = #[trigger] sorted[i];
                &&& signals.contains_key(r.key)
                &&& !signals[r.key].read
                &&& !pending.contains(r.key)
                &&& r.side == (if signals[r.key].sd == 1 {
                    Side::Bull
                } else if signals[r.key].sd == -1 {
                    Side::Bear
                } else {
                    Side::Unknown
                })
                &&& r.trigger_time_ms == signals[r.key].t
                &&& r.symbol == r.key.0 && r.period == r.key.1 && r.signal_type == r.key.2
            },
{
    let rows = listed_rows(cands, signals, pending, global);
    lemma_listed_rows_from_candidates(cands, signals, pending, global);
    assert forall|i: int| 0 <= i < sorted.len() implies {
        let r = #[trigger] sorted[i];
        &&& signals.contains_key(r.key)
        &&& !signals[r.key].read
        &&& !pending.contains(r.key)
        &&& r.side == (if signals[r.key].sd == 1 {
            Side::Bull
        } else if signals[r.key].sd == -1 {
            Side::Bear
        } else {
            Side::Unknown
        })
        &&& r.trigger_time_ms == signals[r.key].t
        &&& r.symbol == r.key.0 && r.period == r.key.1 && r.signal_type == r.key.2
    } by {
        let r = sorted[i];
        assert(sorted.contains(r));
        law_stable_sort_keeps_rows(sorted, rows, r);
        let j = choose|j: int| 0 <= j < rows.len() && rows[j] == r;
        let c = choose|c: int|
            0 <= c < cands.len() && #[trigger] rows[j] == row_of(cands[c], signals)
                && is_effectively_unread(signals, pending, cands[c].1);
        assert(r == row_of(cands[c], signals));
    }
}

} // verus!
