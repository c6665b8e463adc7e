//! The two collections the monitor keeps: the signal states by key, and sets
//! of keys.
use vstd::prelude::*;

use crate::api::SignalState;
use crate::domain::{KeyView, SignalKey};

verus! {

/// The views of a sequence of key-value pairs.
pub open spec fn entry_views<V>(e: Seq<(SignalKey, V)>) -> Seq<(KeyView, V)> {
    e.map_values(|x: (SignalKey, V)| (x.0@, x.1))
}

/// The keys of `s`, in order.
pub open spec fn key_views(s: Seq<SignalKey>) -> Seq<KeyView> {
    s.map_values(|k: SignalKey| k@)
}

/// The keys of a sequence of entries.
pub open spec fn keys_of<V>(s: Seq<(KeyView, V)>) -> Seq<KeyView> {
    s.map_values(|e: (KeyView, V)| e.0)
}

/// The map that a sequence of entries with distinct keys stands for.
pub open spec fn map_of_entries<V>(s: Seq<(KeyView, V)>) -> Map<KeyView, V> {
    Map::new(|k: KeyView| keys_of(s).contains(k), |k: KeyView| s[keys_of(s).index_of(k)].1)
}

/// A sequence of entries with distinct keys holds exactly its entries.
pub proof fn lemma_map_of_entries<V>(s: Seq<(KeyView, V)>)
    requires
        keys_of(s).no_duplicates(),
    ensures
        forall|i: int|
            0 <= i < s.len() ==> #[trigger] map_of_entries(s).contains_key(s[i].0)
                && map_of_entries(s)[s[i].0] == s[i].1,
        forall|k: KeyView|
            #[trigger] map_of_entries(s).contains_key(k) ==> exists|i: int|
                0 <= i < s.len() && s[i].0 == k,
        map_of_entries(s).dom() == keys_of(s).to_set(),
        map_of_entries(s).dom().finite(),
        map_of_entries(s).len() == s.len(),
{
    let m = map_of_entries(s);
    let ks = keys_of(s);
    assert forall|i: int| 0 <= i < s.len() implies #[trigger] m.contains_key(s[i].0) && m[s[i].0]
        == s[i].1 by {
        assert(ks[i] == s[i].0);
        assert(ks.contains(s[i].0));
        let j = ks.index_of(s[i].0);
        assert(ks[j] == s[i].0);
    }
    assert forall|k: KeyView| #[trigger] m.contains_key(k) implies exists|i: int|
        0 <= i < s.len() && s[i].0 == k by {
        let j = ks.index_of(k);
        assert(ks[j] == k);
        assert(s[j].0 == k);
    }
    assert(m.dom() =~= ks.to_set());
    ks.unique_seq_to_set();
}

/// Replacing the entry of a key keeps the keys distinct and updates the map.
pub proof fn lemma_update_entries<V>(
    old_entries: Seq<(KeyView, V)>,
    i: int,
    kv: KeyView,
    state: V,
)
    requires
        keys_of(old_entries).no_duplicates(),
        0 <= i < old_entries.len(),
        old_entries[i].0 == kv,
    ensures
        keys_of(old_entries.update(i, (kv, state))).no_duplicates(),
        map_of_entries(old_entries.update(i, (kv, state))) == map_of_entries(old_entries).insert(
            kv,
            state,
        ),
{
    let ne = old_entries.update(i, (kv, state));
    assert(keys_of(ne) =~= keys_of(old_entries).update(i, kv));
    assert(keys_of(ne).no_duplicates()) by {
        assert forall|a: int, b: int|
            0 <= a < keys_of(ne).len() && 0 <= b < keys_of(ne).len() && a != b implies keys_of(
            ne,
        )[a] != keys_of(ne)[b] by {
            assert(keys_of(old_entries)[i] == kv);
            assert(keys_of(old_entries)[a] != keys_of(old_entries)[b]);
        }
    }
    lemma_map_of_entries(old_entries);
    lemma_map_of_entries(ne);
    assert(map_of_entries(ne) =~= map_of_entries(old_entries).insert(kv, state)) by {
        assert forall|k: KeyView| #[trigger] map_of_entries(ne).contains_key(k) implies map_of_entries(
            old_entries,
        ).insert(kv, state).contains_key(k) by {
            let j = choose|j: int| 0 <= j < ne.len() && ne[j].0 == k;
            if j != i {
                assert(old_entries[j].0 == k);
            }
        }
        assert forall|k: KeyView| #[trigger]
            map_of_entries(old_entries).insert(kv, state).contains_key(k) implies map_of_entries(
            ne,
        ).contains_key(k) && map_of_entries(ne)[k] == map_of_entries(old_entries).insert(
            kv,
            state,
        )[k] by {
            if k == kv {
                assert(ne[i].0 == kv);
            } else {
                let j = choose|j: int| 0 <= j < old_entries.len() && old_entries[j].0 == k;
                assert(j != i);
                assert(ne[j] == old_entries[j]);
            }
        }
    }
}

/// Adding an entry for a new key keeps the keys distinct and extends the map.
pub proof fn lemma_push_entries<V>(old_entries: Seq<(KeyView, V)>, kv: KeyView, state: V)
    requires
        keys_of(old_entries).no_duplicates(),
        !keys_of(old_entries).contains(kv),
    ensures
        keys_of(old_entries.push((kv, state))).no_duplicates(),
        map_of_entries(old_entries.push((kv, state))) == map_of_entries(old_entries).insert(
            kv,
            state,
        ),
{
    let ne = old_entries.push((kv, state));
    assert(keys_of(ne) =~= keys_of(old_entries).push(kv));
    assert(keys_of(ne).no_duplicates()) by {
        assert forall|a: int, b: int|
            0 <= a < keys_of(ne).len() && 0 <= b < keys_of(ne).len() && a != b implies keys_of(
            ne,
        )[a] != keys_of(ne)[b] by {
            if a == old_entries.len() {
                assert(keys_of(old_entries).contains(keys_of(ne)[b]) || b == a);
            }
            if b == old_entries.len() {
                assert(keys_of(old_entries).contains(keys_of(ne)[a]) || b == a);
            }
        }
    }
    lemma_map_of_entries(old_entries);
    lemma_map_of_entries(ne);
    assert(map_of_entries(ne) =~= map_of_entries(old_entries).insert(kv, state)) by {
        assert forall|k: KeyView| #[trigger] map_of_entries(ne).contains_key(k) implies map_of_entries(
            old_entries,
        ).insert(kv, state).contains_key(k) by {
            let j = choose|j: int| 0 <= j < ne.len() && ne[j].0 == k;
            if j < old_entries.len() {
                assert(old_entries[j].0 == k);
            }
        }
        assert forall|k: KeyView| #[trigger]
            map_of_entries(old_entries).insert(kv, state).contains_key(k) implies map_of_entries(
            ne,
        ).contains_key(k) && map_of_entries(ne)[k] == map_of_entries(old_entries).insert(
            kv,
            state,
        )[k] by {
            if k == kv {
                assert(ne[old_entries.len() as int].0 == kv);
            } else {
                let j = choose|j: int| 0 <= j < old_entries.len() && old_entries[j].0 == k;
                assert(ne[j] == old_entries[j]);
            }
        }
    }
}

/// Removing an entry keeps the keys distinct and removes the key from the map.
pub proof fn lemma_remove_entries<V>(old_entries: Seq<(KeyView, V)>, i: int)
    requires
        keys_of(old_entries).no_duplicates(),
        0 <= i < old_entries.len(),
    ensures
        keys_of(old_entries.remove(i)).no_duplicates(),
        map_of_entries(old_entries.remove(i)) == map_of_entries(old_entries).remove(old_entries[i].0),
{
    let ne = old_entries.remove(i);
    let kv = old_entries[i].0;
    assert(keys_of(ne) =~= keys_of(old_entries).remove(i));
    assert(keys_of(ne).no_duplicates()) by {
        assert forall|a: int, b: int|
            0 <= a < keys_of(ne).len() && 0 <= b < keys_of(ne).len() && a != b implies keys_of(
            ne,
        )[a] != keys_of(ne)[b] by {
            let oa = if a < i { a } else { a + 1 };
            let ob = if b < i { b } else { b + 1 };
            assert(keys_of(ne)[a] == keys_of(old_entries)[oa]);
            assert(keys_of(ne)[b] == keys_of(old_entries)[ob]);
        }
    }
    lemma_map_of_entries(old_entries);
    lemma_map_of_entries(ne);
    assert(map_of_entries(ne) =~= map_of_entries(old_entries).remove(kv)) by {
        assert forall|k: KeyView| #[trigger] map_of_entries(ne).contains_key(k) implies map_of_entries(
            old_entries,
        ).remove(kv).contains_key(k) by {
            let j = choose|j: int| 0 <= j < ne.len() && ne[j].0 == k;
            let oj = if j < i { j } else { j + 1 };
            assert(old_entries[oj].0 == k);
            assert(keys_of(old_entries)[oj] != keys_of(old_entries)[i]);
        }
        assert forall|k: KeyView| #[trigger]
            map_of_entries(old_entries).remove(kv).contains_key(k) implies map_of_entries(
            ne,
        ).contains_key(k) && map_of_entries(ne)[k] == map_of_entries(old_entries).remove(kv)[k] by {
            let j = choose|j: int| 0 <= j < old_entries.len() && old_entries[j].0 == k;
            assert(j != i);
            let nj = if j < i { j } else { j - 1 };
            assert(ne[nj] == old_entries[j]);
        }
    }
}

/// A map from signal keys to values, kept as a list of entries with distinct
/// keys.
#[derive(Debug)]
pub struct KeyMap<V> {
    entries: Vec<(SignalKey, V)>,
}

/// The state of every signal that the service reported, by key.
pub type SignalMap = KeyMap<SignalState>;

impl<V> KeyMap<V> {
    /// The entries in the order they are kept.
    pub closed spec fn entries_view(self) -> Seq<(KeyView, V)> {
        entry_views(self.entries@)
    }

    #[verifier::type_invariant]
    closed spec fn distinct_keys(self) -> bool {
        keys_of(self.entries_view()).no_duplicates()
    }

}

impl<V: Copy> KeyMap<V> {
    /// An empty map.
    pub fn new() -> (m: Self)
        ensures
            m.entries_view().len() == 0,
            m@ == Map::<KeyView, V>::empty(),
    {
        let m = KeyMap { entries: Vec::new() };
        assert(m@ =~= Map::<KeyView, V>::empty());
        m
    }

    /// The number of entries; every caller learns here that the keys are
    /// distinct.
    pub fn len(&self) -> (n: usize)
        ensures
            n == self.entries_view().len(),
            keys_of(self.entries_view()).no_duplicates(),
    {
        proof {
            use_type_invariant(self);
        }
        self.entries.len()
    }

    /// The key of the `i`-th entry.
    pub fn key_at(&self, i: usize) -> (k: &SignalKey)
        requires
            i < self.entries_view().len(),
        ensures
            k@ == self.entries_view()[i as int].0,
    {
        &self.entries[i].0
    }

    /// The state of the `i`-th entry.
    pub fn state_at(&self, i: usize) -> (s: V)
        requires
            i < self.entries_view().len(),
        ensures
            s == self.entries_view()[i as int].1,
    {
        self.entries[i].1
    }

    /// The position of `key`, if it is kept.
    fn find(&self, key: &SignalKey) -> (r: Option<usize>)
        ensures
            match r {
                Some(i) => i < self.entries_view().len() && self.entries_view()[i as int].0
                    == key@,
                None => !keys_of(self.entries_view()).contains(key@),
            },
    {
        let mut i: usize = 0;
        while i < self.entries.len()
            invariant
                i <= self.entries@.len(),
                forall|j: int| 0 <= j < i ==> self.entries_view()[j].0 != key@,
            decreases self.entries@.len() - i,
        {
            if self.entries[i].0.same_as(key) {
                return Some(i);
            }
            i = i + 1;
        }
        proof {
            if keys_of(self.entries_view()).contains(key@) {
                let j = keys_of(self.entries_view()).index_of(key@);
                assert(self.entries_view()[j].0 == key@);
            }
        }
        None
    }

    /// The state of `key`, if the map holds it.
    pub fn get(&self, key: &SignalKey) -> (r: Option<V>)
        ensures
            r == (if self@.contains_key(key@) {
                Some(self@[key@])
            } else {
                None::<V>
            }),
    {
        proof {
            use_type_invariant(self);
            lemma_map_of_entries(self.entries_view());
        }
        match self.find(key) {
            Some(i) => Some(self.entries[i].1),
            None => None,
        }
    }

    /// Whether the map holds `key`.
    pub fn contains_key(&self, key: &SignalKey) -> (r: bool)
        ensures
            r == self@.contains_key(key@),
    {
        proof {
            use_type_invariant(self);
            lemma_map_of_entries(self.entries_view());
        }
        self.find(key).is_some()
    }

    /// Sets the state of `key` to `state`, adding the key if it is new.
    pub fn insert(&mut self, key: SignalKey, state: V)
        ensures
            final(self)@ == old(self)@.insert(key@, state),
    {
        proof {
            use_type_invariant(&*self);
        }
        let ghost old_entries = self.entries_view();
        let ghost kv = key@;
        let pos = self.find(&key);
        let mut e: Vec<(SignalKey, V)> = Vec::new();
        std::mem::swap(&mut e, &mut self.entries);
        assert(entry_views(e@) == old_entries);
        match pos {
            Some(i) => {
                e.set(i, (key, state));
                proof {
                    let ne = entry_views(e@);
                    assert(ne =~= old_entries.update(i as int, (kv, state)));
                    lemma_update_entries(old_entries, i as int, kv, state);
                }
            },
            None => {
                e.push((key, state));
                proof {
                    let ne = entry_views(e@);
                    assert(ne =~= old_entries.push((kv, state)));
                    lemma_push_entries(old_entries, kv, state);
                }
            },
        }
        self.entries = e;
    }

    /// Removes `key`, where the map holds it.
    pub fn remove(&mut self, key: &SignalKey)
        ensures
            final(self)@ == old(self)@.remove(key@),
    {
        proof {
            use_type_invariant(&*self);
            lemma_map_of_entries(self.entries_view());
        }
        let ghost old_entries = self.entries_view();
        match self.find(key) {
            Some(i) => {
                let mut e: Vec<(SignalKey, V)> = Vec::new();
                std::mem::swap(&mut e, &mut self.entries);
                e.remove(i);
                proof {
                    let ne = entry_views(e@);
                    assert(ne =~= old_entries.remove(i as int));
                    lemma_remove_entries(old_entries, i as int);
                }
                self.entries = e;
            },
            None => {
                assert(old(self)@.remove(key@) =~= old(self)@);
            },
        }
    }

    /// A copy of the map, entry by entry.
    pub fn duplicate(&self) -> (r: Self)
        ensures
            r@ == self@,
            r.entries_view() == self.entries_view(),
    {
        proof {
            use_type_invariant(self);
        }
        let mut e: Vec<(SignalKey, V)> = Vec::new();
        let mut i: usize = 0;
        while i < self.entries.len()
            invariant
                i <= self.entries@.len(),
                e@.len() == i,
                entry_views(e@) == self.entries_view().subrange(0, i as int),
            decreases self.entries@.len() - i,
        {
            let k = self.entries[i].0.clone();
            let v = self.entries[i].1;
            assert(k@ == self.entries_view()[i as int].0);
            assert(v == self.entries_view()[i as int].1);
            let ghost before = e@;
            e.push((k, v));
            assert(e@ == before.push((k, v)));
            i = i + 1;
            assert forall|j: int| 0 <= j < i implies #[trigger] entry_views(e@)[j] == self.entries_view()[j] by {
                if j < i - 1 {
                    assert(e@[j] == before[j]);
                    assert(entry_views(before)[j] == self.entries_view().subrange(0, i - 1)[j]);
                }
            }
            assert(entry_views(e@) =~= self.entries_view().subrange(0, i as int));
        }
        assert(self.entries_view().subrange(0, i as int) =~= self.entries_view());
        KeyMap { entries: e }
    }
}

impl<V> View for KeyMap<V> {
    type V = Map<KeyView, V>;

    open spec fn view(&self) -> Map<KeyView, V> {
        map_of_entries(self.entries_view())
    }
}

impl KeyMap<SignalState> {
    /// Sets whether `key` has been read, where the map holds it.
    pub fn set_read(&mut self, key: &SignalKey, read: bool)
        ensures
            final(self)@ == (if old(self)@.contains_key(key@) {
                old(self)@.insert(key@, SignalState { read, ..old(self)@[key@] })
            } else {
                old(self)@
            }),
    {
        proof {
            use_type_invariant(&*self);
            lemma_map_of_entries(self.entries_view());
        }
        match self.get(key) {
            Some(s) => {
                let k = key.clone();
                self.insert(k, SignalState { read, ..s });
            },
            None => {},
        }
    }
}


/// A set of signal keys.
#[derive(Debug)]
pub struct KeySet {
    keys: Vec<SignalKey>,
}

impl KeySet {
    /// The keys in the order they are kept.
    pub closed spec fn keys_view(self) -> Seq<KeyView> {
        key_views(self.keys@)
    }

    #[verifier::type_invariant]
    closed spec fn distinct(self) -> bool {
        self.keys_view().no_duplicates()
    }

    /// An empty set.
    pub fn new() -> (s: Self)
        ensures
            s@ == Set::<KeyView>::empty(),
            s.keys_view().len() == 0,
    {
        let s = KeySet { keys: Vec::new() };
        assert(s@ =~= Set::<KeyView>::empty());
        s
    }

    /// The number of keys; every caller learns here that they are distinct.
    pub fn len(&self) -> (n: usize)
        ensures
            n == self.keys_view().len(),
            self.keys_view().no_duplicates(),
            n == self@.len(),
            self@.finite(),
    {
        proof {
            use_type_invariant(self);
            self.keys_view().unique_seq_to_set();
        }
        self.keys.len()
    }

    /// The `i`-th key.
    pub fn at(&self, i: usize) -> (k: &SignalKey)
        requires
            i < self.keys_view().len(),
        ensures
            k@ == self.keys_view()[i as int],
    {
        &self.keys[i]
    }

    fn find(&self, key: &SignalKey) -> (r: Option<usize>)
        ensures
            match r {
                Some(i) => i < self.keys_view().len() && self.keys_view()[i as int] == key@,
                None => !self.keys_view().contains(key@),
            },
    {
        let mut i: usize = 0;
        while i < self.keys.len()
            invariant
                i <= self.keys@.len(),
                forall|j: int| 0 <= j < i ==> self.keys_view()[j] != key@,
            decreases self.keys@.len() - i,
        {
            if self.keys[i].same_as(key) {
                return Some(i);
            }
            i = i + 1;
        }
        None
    }

    /// A copy of the set, key by key.
    pub fn duplicate(&self) -> (r: Self)
        ensures
            r@ == self@,
            r.keys_view() == self.keys_view(),
    {
        proof {
            use_type_invariant(self);
        }
        let mut e: Vec<SignalKey> = Vec::new();
        let mut i: usize = 0;
        while i < self.keys.len()
            invariant
                i <= self.keys@.len(),
                e@.len() == i,
                key_views(e@) == self.keys_view().subrange(0, i as int),
            decreases self.keys@.len() - i,
        {
            let k = self.keys[i].clone();
            let ghost before = e@;
            e.push(k);
            i = i + 1;
            assert forall|j: int| 0 <= j < i implies #[trigger] key_views(e@)[j] == self.keys_view()[j] by {
                if j < i - 1 {
                    assert(e@[j] == before[j]);
                    assert(key_views(before)[j] == self.keys_view().subrange(0, i - 1)[j]);
                }
            }
            assert(key_views(e@) =~= self.keys_view().subrange(0, i as int));
        }
        assert(self.keys_view().subrange(0, i as int) =~= self.keys_view());
        KeySet { keys: e }
    }

    /// Whether `key` is in the set.
    pub fn contains(&self, key: &SignalKey) -> (r: bool)
        ensures
            r == self@.contains(key@),
    {
        self.find(key).is_some()
    }

    /// Adds `key`; true where it was not in the set before.
    pub fn insert(&mut self, key: SignalKey) -> (added: bool)
        ensures
            final(self)@ == old(self)@.insert(key@),
            added == !old(self)@.contains(key@),
    {
        proof {
            use_type_invariant(&*self);
        }
        let ghost old_keys = self.keys_view();
        match self.find(&key) {
            Some(_) => {
                assert(old_keys.to_set().insert(key@) =~= old_keys.to_set());
                false
            },
            None => {
                let ghost kv = key@;
                let mut e: Vec<SignalKey> = Vec::new();
                std::mem::swap(&mut e, &mut self.keys);
                e.push(key);
                proof {
                    let nk = key_views(e@);
                    assert(nk =~= old_keys.push(kv));
                    assert forall|a: int, b: int|
                        0 <= a < nk.len() && 0 <= b < nk.len() && a != b implies nk[a]
                        != nk[b] by {
                        if a == old_keys.len() {
                            assert(old_keys.contains(nk[b]) || b == a);
                        }
                        if b == old_keys.len() {
                            assert(old_keys.contains(nk[a]) || b == a);
                        }
                    }
                    old_keys.lemma_push_to_set_commute(kv);
                }
                self.keys = e;
                true
            },
        }
    }

    /// Removes `key`; true where it was in the set.
    pub fn remove(&mut self, key: &SignalKey) -> (removed: bool)
        ensures
            final(self)@ == old(self)@.remove(key@),
            removed == old(self)@.contains(key@),
    {
        proof {
            use_type_invariant(&*self);
        }
        let ghost old_keys = self.keys_view();
        match self.find(key) {
            Some(i) => {
                let mut e: Vec<SignalKey> = Vec::new();
                std::mem::swap(&mut e, &mut self.keys);
                e.remove(i);
                proof {
                    let nk = key_views(e@);
                    assert(nk =~= old_keys.remove(i as int));
                    assert forall|a: int, b: int|
                        0 <= a < nk.len() && 0 <= b < nk.len() && a != b implies nk[a]
                        != nk[b] by {
                        let oa = if a < i { a } else { a + 1 };
                        let ob = if b < i { b } else { b + 1 };
                        assert(nk[a] == old_keys[oa]);
                        assert(nk[b] == old_keys[ob]);
                    }
                    assert forall|k: KeyView| #[trigger] nk.to_set().contains(k) implies old_keys.to_set().remove(key@).contains(k) by {
                        let j = choose|j: int| 0 <= j < nk.len() && nk[j] == k;
                        let oj = if j < i { j } else { j + 1 };
                        assert(old_keys[oj] == k);
                        assert(oj != i);
                    }
                    assert forall|k: KeyView| #[trigger] old_keys.to_set().remove(key@).contains(k) implies nk.to_set().contains(k) by {
                        let j = choose|j: int| 0 <= j < old_keys.len() && old_keys[j] == k;
                        assert(j != i);
                        let nj = if j < i { j } else { j - 1 };
                        assert(nk[nj] == k);
                    }
                    assert(nk.to_set() =~= old_keys.to_set().remove(key@));
                }
                self.keys = e;
                true
            },
            None => {
                assert(old_keys.to_set().remove(key@) =~= old_keys.to_set());
                false
            },
        }
    }
}

impl View for KeySet {
    type V = Set<KeyView>;

    open spec fn view(&self) -> Set<KeyView> {
        self.keys_view().to_set()
    }
}

} // verus!
