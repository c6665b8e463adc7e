//! Which signals count as unread.
use vstd::prelude::*;

use crate::api::SignalState;
use crate::collections::{key_views, lemma_map_of_entries, KeySet, SignalMap};
use crate::domain::{key_less, key_lt, lemma_key_lt_order, KeyView, SignalKey};

verus! {

/// A signal is unread where the service reports it unread and no mark-read of
/// it is in flight.
pub open spec fn is_effectively_unread(
    signals: Map<KeyView, SignalState>,
    pending: Set<KeyView>,
    k: KeyView,
) -> bool {
    signals.contains_key(k) && !signals[k].read && !pending.contains(k)
}

/// The keys of every effectively unread signal.
pub open spec fn unread_set(signals: Map<KeyView, SignalState>, pending: Set<KeyView>) -> Set<
    KeyView,
> {
    Set::new(|k: KeyView| is_effectively_unread(signals, pending, k))
}

/// The keys of the signals that are unread and not being marked read.
pub fn effective_unread_keys(signals: &SignalMap, pending_read: &KeySet) -> (r: KeySet)
    ensures
        r@ == unread_set(signals@, pending_read@),
{
    let n = signals.len();
    let ghost ev = signals.entries_view();
    let mut r = KeySet::new();
    let mut i: usize = 0;
    while i < n
        invariant
            n == ev.len(),
            ev == signals.entries_view(),
            i <= n,
            r@ == Set::new(
                |k: KeyView|
                    exists|j: int|
                        0 <= j < i && ev[j].0 == k && !ev[j].1.read && !pending_read@.contains(
                            k,
                        ),
            ),
        decreases n - i,
    {
        let ghost before = r@;
        let state = signals.state_at(i);
        let key = signals.key_at(i);
        if !state.read && !pending_read.contains(key) {
            r.insert(key.clone());
        }
        i = i + 1;
        assert(r@ =~= Set::new(
            |k: KeyView|
                exists|j: int|
                    0 <= j < i && ev[j].0 == k && !ev[j].1.read && !pending_read@.contains(k),
        )) by {
            assert forall|k: KeyView|
                (exists|j: int|
                    0 <= j < i && ev[j].0 == k && !ev[j].1.read && !pending_read@.contains(
                        k,
                    )) implies #[trigger] r@.contains(k) by {
                let j = choose|j: int|
                    0 <= j < i && ev[j].0 == k && !ev[j].1.read && !pending_read@.contains(k);
                if j < i - 1 {
                    assert(before.contains(k));
                }
            }
        }
    }
    proof {
        lemma_map_of_entries(ev);
        assert(r@ =~= unread_set(signals@, pending_read@)) by {
            assert forall|k: KeyView| #[trigger]
                unread_set(signals@, pending_read@).contains(k) implies r@.contains(k) by {
                let j = choose|j: int| 0 <= j < ev.len() && ev[j].0 == k;
                assert(signals@[ev[j].0] == ev[j].1);
            }
            assert forall|k: KeyView| #[trigger] r@.contains(k) implies unread_set(
                signals@,
                pending_read@,
            ).contains(k) by {
                let j = choose|j: int|
                    0 <= j < n && ev[j].0 == k && !ev[j].1.read && !pending_read@.contains(k);
                assert(signals@[ev[j].0] == ev[j].1);
            }
        }
    }
    r
}

/// Every key of `s` comes strictly before the ones after it.
pub open spec fn strictly_sorted(s: Seq<KeyView>) -> bool {
    forall|i: int, j: int| 0 <= i < j < s.len() ==> key_lt(#[trigger] s[i], #[trigger] s[j])
}

/// Inserts `x` into the strictly sorted `v` at its place.
pub fn insert_sorted_key(v: &mut Vec<SignalKey>, x: SignalKey)
    requires
        strictly_sorted(key_views(old(v)@)),
        !key_views(old(v)@).contains(x@),
    ensures
        strictly_sorted(key_views(final(v)@)),
        key_views(final(v)@).to_set() == key_views(old(v)@).to_set().insert(x@),
        final(v)@.len() == old(v)@.len() + 1,
{
    let ghost old_keys = key_views(v@);
    let mut p: usize = 0;
    while p < v.len() && !key_less(&x, &v[p])
        invariant
            p <= v@.len(),
            v@ == old(v)@,
            old_keys == key_views(v@),
            forall|j: int| 0 <= j < p ==> key_lt(#[trigger] old_keys[j], x@),
            strictly_sorted(old_keys),
            !old_keys.contains(x@),
        decreases v@.len() - p,
    {
        proof {
            lemma_key_lt_order(x@, old_keys[p as int], x@);
            assert(old_keys[p as int] != x@);
        }
        p = p + 1;
    }
    v.insert(p, x);
    proof {
        let nk = key_views(v@);
        assert(nk =~= old_keys.insert(p as int, x@));
        assert forall|i: int, j: int| 0 <= i < j < nk.len() implies key_lt(
            #[trigger] nk[i],
            #[trigger] nk[j],
        ) by {
            if j == p {
                assert(nk[i] == old_keys[i]);
            } else if i == p {
                assert(nk[j] == old_keys[j - 1]);
                if j - 1 > p {
                    assert(key_lt(old_keys[p as int], old_keys[j - 1]));
                    lemma_key_lt_order(x@, old_keys[p as int], old_keys[j - 1]);
                }
            } else {
                let oi = if i < p { i } else { i - 1 };
                let oj = if j < p { j } else { j - 1 };
                assert(nk[i] == old_keys[oi]);
                assert(nk[j] == old_keys[oj]);
                if i < p && j > p {
                    lemma_key_lt_order(old_keys[oi], x@, old_keys[oj]);
                    if oj > p {
                        lemma_key_lt_order(x@, old_keys[p as int], old_keys[oj]);
                    }
                }
            }
        }
        assert(nk.to_set() =~= old_keys.to_set().insert(x@)) by {
            assert forall|k: KeyView| #[trigger] nk.to_set().contains(k) implies old_keys.to_set().insert(x@).contains(k) by {
                let j = choose|j: int| 0 <= j < nk.len() && nk[j] == k;
                if j < p {
                    assert(old_keys[j] == k);
                } else if j > p {
                    assert(old_keys[j - 1] == k);
                }
            }
            assert forall|k: KeyView| #[trigger] old_keys.to_set().insert(x@).contains(k) implies nk.to_set().contains(k) by {
                if k == x@ {
                    assert(nk[p as int] == k);
                } else {
                    let j = choose|j: int| 0 <= j < old_keys.len() && old_keys[j] == k;
                    if j < p {
                        assert(nk[j] == k);
                    } else {
                        assert(nk[j + 1] == k);
                    }
                }
            }
        }
    }
}

/// The keys that are unread now and were not before, in key order.
pub fn collect_new_unread_keys(previous_unread: &KeySet, current_unread: &KeySet) -> (r: Vec<
    SignalKey,
>)
    ensures
        key_views(r@).to_set() == current_unread@.difference(previous_unread@),
        strictly_sorted(key_views(r@)),
{
    let n = current_unread.len();
    let ghost cur = current_unread.keys_view();
    let mut r: Vec<SignalKey> = Vec::new();
    let mut i: usize = 0;
    assert(key_views(r@).to_set() =~= Set::<KeyView>::empty());
    while i < n
        invariant
            n == cur.len(),
            cur == current_unread.keys_view(),
            cur.no_duplicates(),
            i <= n,
            strictly_sorted(key_views(r@)),
            key_views(r@).to_set() == Set::new(
                |k: KeyView|
                    exists|j: int| 0 <= j < i && cur[j] == k && !previous_unread@.contains(k),
            ),
        decreases n - i,
    {
        let key = current_unread.at(i);
        if !previous_unread.contains(key) {
            proof {
                if key_views(r@).contains(key@) {
                    assert(key_views(r@).to_set().contains(key@));
                    let j = choose|j: int|
                        0 <= j < i && cur[j] == key@ && !previous_unread@.contains(key@);
                    assert(cur[j] == cur[i as int]);
                }
            }
            insert_sorted_key(&mut r, key.clone());
        }
        i = i + 1;
        assert(key_views(r@).to_set() =~= Set::new(
            |k: KeyView|
                exists|j: int| 0 <= j < i && cur[j] == k && !previous_unread@.contains(k),
        )) by {
            assert forall|k: KeyView|
                (exists|j: int| 0 <= j < i && cur[j] == k && !previous_unread@.contains(k))
                implies #[trigger] key_views(r@).to_set().contains(k) by {
                let j = choose|j: int| 0 <= j < i && cur[j] == k && !previous_unread@.contains(k);
                if j < i - 1 {
                    assert(Set::new(
                        |k: KeyView|
                            exists|j: int|
                                0 <= j < i - 1 && cur[j] == k && !previous_unread@.contains(k),
                    ).contains(k));
                }
            }
        }
    }
    assert(key_views(r@).to_set() =~= current_unread@.difference(previous_unread@)) by {
        assert forall|k: KeyView| #[trigger] current_unread@.difference(previous_unread@).contains(
            k,
        ) implies key_views(r@).to_set().contains(k) by {
            let j = choose|j: int| 0 <= j < cur.len() && cur[j] == k;
            assert(Set::new(
                |k: KeyView| exists|j: int| 0 <= j < n && cur[j] == k && !previous_unread@.contains(k),
            ).contains(k));
        }
    }
    r
}

} // verus!
