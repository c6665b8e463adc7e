//! The watch-list query that a poll sends.
use vstd::prelude::*;

use crate::api::FetchSignalsRequest;
use crate::config::{GroupConfig, GroupView, PollConfig};
use crate::text::{
    append_str, chars_of, compare_chars, lemma_seq_lt_irreflexive, lemma_seq_lt_total,
    lemma_seq_lt_transitive, push_char, seq_compare, seq_lt, string_of, trim, trim_chars,
};

verus! {

/// Texts listed in strictly increasing order.
pub open spec fn texts_sorted(s: Seq<Seq<char>>) -> bool {
    forall|i: int, j: int| 0 <= i < j < s.len() ==> seq_lt(#[trigger] s[i], #[trigger] s[j])
}

/// The texts joined with commas between them.
pub open spec fn join_commas(parts: Seq<Seq<char>>) -> Seq<char>
    decreases parts.len(),
{
    if parts.len() == 0 {
        Seq::empty()
    } else if parts.len() == 1 {
        parts[0]
    } else {
        join_commas(parts.drop_last()) + seq![','] + parts.last()
    }
}

/// `r` lists the texts of `set` in increasing order, joined with commas (as
/// a `BTreeSet<String>` joined with `","` gives them).
pub open spec fn is_sorted_join(r: Seq<char>, set: Set<Seq<char>>) -> bool {
    exists|parts: Seq<Seq<char>>|
        texts_sorted(parts) && parts.to_set() == set && r == join_commas(parts)
}

/// The trimmed texts of `values` that are not empty.
pub open spec fn trimmed_texts(values: Seq<Seq<char>>) -> Set<Seq<char>> {
    Set::new(|t: Seq<char>| exists|i: int| 0 <= i < values.len() && trim(values[i]) == t && t.len() > 0)
}

/// The views of a sequence of strings.
pub open spec fn texts_of(v: Seq<String>) -> Seq<Seq<char>> {
    v.map_values(|s: String| s@)
}

/// The views of a sequence of character vectors.
pub open spec fn char_texts(v: Seq<Vec<char>>) -> Seq<Seq<char>> {
    v.map_values(|c: Vec<char>| c@)
}

/// Adds `x` to the strictly sorted `v` where it is not there yet.
fn insert_text(v: &mut Vec<Vec<char>>, x: Vec<char>)
    requires
        texts_sorted(char_texts(old(v)@)),
    ensures
        texts_sorted(char_texts(final(v)@)),
        char_texts(final(v)@).to_set() == char_texts(old(v)@).to_set().insert(x@),
{
    let ghost old_t = char_texts(v@);
    let mut p: usize = 0;
    while p < v.len() && compare_chars(&v[p], &x) < 0
        invariant
            p <= v@.len(),
            v@ == old(v)@,
            old_t == char_texts(v@),
            texts_sorted(old_t),
            forall|j: int| 0 <= j < p ==> seq_lt(#[trigger] old_t[j], x@),
        decreases v@.len() - p,
    {
        assert(v@[p as int]@ == old_t[p as int]);
        p = p + 1;
    }
    let c: i8 = if p < v.len() {
        compare_chars(&v[p], &x)
    } else {
        1
    };
    proof {
        if p < v.len() {
            assert(v@[p as int]@ == old_t[p as int]);
        }
    }
    if p < v.len() && c == 0 {
        assert(old_t[p as int] == x@);
        assert(old_t.to_set().insert(x@) =~= old_t.to_set());
        return ;
    }
    proof {
        if p < v.len() {
            lemma_seq_lt_total(old_t[p as int], x@);
            assert(seq_lt(x@, old_t[p as int]));
        }
    }
    v.insert(p, x);
    proof {
        let nt = char_texts(v@);
        assert(nt =~= old_t.insert(p as int, x@));
        assert forall|i: int, j: int| 0 <= i < j < nt.len() implies seq_lt(
            #[trigger] nt[i],
            #[trigger] nt[j],
        ) by {
            if j == p {
                assert(nt[i] == old_t[i]);
            } else if i == p {
                assert(nt[j] == old_t[j - 1]);
                if j - 1 > p {
                    lemma_seq_lt_transitive(x@, old_t[p as int], old_t[j - 1]);
                }
            } else {
                let oi = if i < p { i } else { i - 1 };
                let oj = if j < p { j } else { j - 1 };
                assert(nt[i] == old_t[oi]);
                assert(nt[j] == old_t[oj]);
                if i < p && j > p {
                    if oj > p {
                        lemma_seq_lt_transitive(x@, old_t[p as int], old_t[oj]);
                    }
                    lemma_seq_lt_transitive(old_t[oi], x@, old_t[oj]);
                }
            }
        }
        assert(nt.to_set() =~= old_t.to_set().insert(x@)) by {
            assert forall|k: Seq<char>| #[trigger] nt.to_set().contains(k) implies old_t.to_set().insert(x@).contains(k) by {
                let j = choose|j: int| 0 <= j < nt.len() && nt[j] == k;
                if j < p {
                    assert(old_t[j] == k);
                } else if j > p {
                    assert(old_t[j - 1] == k);
                }
            }
            assert forall|k: Seq<char>| #[trigger] old_t.to_set().insert(x@).contains(k) implies nt.to_set().contains(k) by {
                if k == x@ {
                    assert(nt[p as int] == k);
                } else {
                    let j = choose|j: int| 0 <= j < old_t.len() && old_t[j] == k;
                    if j < p {
                        assert(nt[j] == k);
                    } else {
                        assert(nt[j + 1] == k);
                    }
                }
            }
        }
    }
}

/// The texts of `parts` joined with commas.
fn join_parts(parts: &Vec<Vec<char>>) -> (r: String)
    ensures
        r@ == join_commas(char_texts(parts@)),
{
    let mut r = String::new();
    let mut i: usize = 0;
    assert(char_texts(parts@).take(0) =~= Seq::<Seq<char>>::empty());
    while i < parts.len()
        invariant
            i <= parts@.len(),
            r@ == join_commas(char_texts(parts@).take(i as int)),
        decreases parts@.len() - i,
    {
        let ghost before = char_texts(parts@).take(i as int);
        let ghost after = char_texts(parts@).take(i + 1);
        assert(after.drop_last() =~= before);
        assert(after.last() == parts@[i as int]@);
        if i > 0 {
            push_char(&mut r, ',');
        }
        let s = string_of(&parts[i]);
        append_str(&mut r, s.as_str());
        if i == 0 {
            assert(r@ =~= join_commas(after));
        } else {
            assert(r@ =~= join_commas(after));
        }
        i = i + 1;
    }
    assert(char_texts(parts@).take(i as int) =~= char_texts(parts@));
    r
}

/// A join of texts that are not empty is empty only where there are none.
proof fn lemma_join_empty(parts: Seq<Seq<char>>)
    requires
        forall|i: int| 0 <= i < parts.len() ==> (#[trigger] parts[i]).len() > 0,
    ensures
        (join_commas(parts).len() == 0) == (parts.len() == 0),
    decreases parts.len(),
{
    if parts.len() > 1 {
        lemma_join_empty(parts.drop_last());
    }
}

/// The trimmed, non-empty values without repeats, in increasing order and
/// joined with commas.
pub fn join_unique(values: &Vec<String>) -> (r: String)
    ensures
        is_sorted_join(r@, trimmed_texts(texts_of(values@))),
        (r@.len() == 0) == (trimmed_texts(texts_of(values@)) == Set::<Seq<char>>::empty()),
{
    let ghost vs = texts_of(values@);
    let mut parts: Vec<Vec<char>> = Vec::new();
    let mut i: usize = 0;
    assert(char_texts(parts@).to_set() =~= Set::<Seq<char>>::empty());
    while i < values.len()
        invariant
            i <= values@.len(),
            vs == texts_of(values@),
            texts_sorted(char_texts(parts@)),
            char_texts(parts@).to_set() == Set::new(
                |t: Seq<char>| exists|j: int| 0 <= j < i && trim(vs[j]) == t && t.len() > 0,
            ),
        decreases values@.len() - i,
    {
        let raw = chars_of(values[i].as_str());
        let t = trim_chars(&raw);
        assert(vs[i as int] == values@[i as int]@);
        let ghost tv = t@;
        assert(tv == trim(vs[i as int]));
        let ghost before = char_texts(parts@).to_set();
        if t.len() > 0 {
            insert_text(&mut parts, t);
        }
        i = i + 1;
        assert(char_texts(parts@).to_set() =~= Set::new(
            |t: Seq<char>| exists|j: int| 0 <= j < i && trim(vs[j]) == t && t.len() > 0,
        )) by {
            assert forall|u: Seq<char>|
                (exists|j: int| 0 <= j < i && trim(vs[j]) == u && u.len() > 0) implies #[trigger] char_texts(
                parts@,
            ).to_set().contains(u) by {
                let j = choose|j: int| 0 <= j < i && trim(vs[j]) == u && u.len() > 0;
                if j < i - 1 {
                    assert(before.contains(u));
                }
            }
            assert forall|u: Seq<char>| #[trigger] char_texts(parts@).to_set().contains(u) implies (exists|j: int| 0 <= j < i && trim(vs[j]) == u && u.len() > 0) by {
                if before.contains(u) {
                    let j = choose|j: int| 0 <= j < i - 1 && trim(vs[j]) == u && u.len() > 0;
                    assert(0 <= j < i && trim(vs[j]) == u && u.len() > 0);
                } else {
                    assert(u == tv);
                    assert(0 <= i - 1 < i && trim(vs[i - 1]) == u && u.len() > 0);
                }
            }
        }
    }
    let r = join_parts(&parts);
    proof {
        let ps = char_texts(parts@);
        assert(ps.to_set() =~= trimmed_texts(vs));
        assert forall|k: int| 0 <= k < ps.len() implies (#[trigger] ps[k]).len() > 0 by {
            assert(ps.to_set().contains(ps[k]));
        }
        lemma_join_empty(ps);
        if ps.len() > 0 {
            assert(ps.to_set().contains(ps[0]));
            assert(trimmed_texts(vs).contains(ps[0]));
        } else {
            assert(ps.to_set() =~= Set::<Seq<char>>::empty());
        }
    }
    r
}

/// The views of a sequence of groups.
pub open spec fn group_views(groups: Seq<GroupConfig>) -> Seq<GroupView> {
    groups.map_values(|g: GroupConfig| g@)
}

/// The texts that the enabled groups contribute: each enabled group's
/// symbol, or all its periods, or all its signal types.
pub open spec fn enabled_symbols(groups: Seq<GroupView>) -> Set<Seq<char>> {
    Set::new(
        |t: Seq<char>|
            exists|g: int|
                0 <= g < groups.len() && groups[g].enabled && trim(groups[g].symbol) == t && t.len()
                    > 0,
    )
}

pub open spec fn enabled_periods(groups: Seq<GroupView>) -> Set<Seq<char>> {
    Set::new(
        |t: Seq<char>|
            exists|g: int, p: int|
                0 <= g < groups.len() && groups[g].enabled && 0 <= p < groups[g].periods.len()
                    && trim(groups[g].periods[p]) == t && t.len() > 0,
    )
}

pub open spec fn enabled_types(groups: Seq<GroupView>) -> Set<Seq<char>> {
    Set::new(
        |t: Seq<char>|
            exists|g: int, p: int|
                0 <= g < groups.len() && groups[g].enabled && 0 <= p < groups[g].signal_types.len()
                    && trim(groups[g].signal_types[p]) == t && t.len() > 0,
    )
}

/// Some group is enabled.
pub open spec fn any_enabled(groups: Seq<GroupView>) -> bool {
    exists|g: int| 0 <= g < groups.len() && groups[g].enabled
}

/// `opt` is absent for an empty join and holds the join otherwise.
pub open spec fn optional_join(opt: Option<String>, set: Set<Seq<char>>) -> bool {
    match opt {
        None => set == Set::<Seq<char>>::empty(),
        Some(s) => set != Set::<Seq<char>>::empty() && is_sorted_join(s@, set),
    }
}

/// Appends copies of `src` to `dst`.
fn extend_strings(dst: &mut Vec<String>, src: &Vec<String>)
    ensures
        texts_of(final(dst)@) == texts_of(old(dst)@) + texts_of(src@),
{
    let mut i: usize = 0;
    let ghost start = texts_of(dst@);
    while i < src.len()
        invariant
            i <= src@.len(),
            texts_of(dst@) == start + texts_of(src@).take(i as int),
            start == texts_of(old(dst)@),
        decreases src@.len() - i,
    {
        let ghost before = texts_of(dst@);
        dst.push(src[i].clone());
        assert(texts_of(dst@) =~= before.push(src@[i as int]@));
        i = i + 1;
        assert(texts_of(dst@) =~= start + texts_of(src@).take(i as int));
    }
    assert(texts_of(src@).take(i as int) =~= texts_of(src@));
}

/// The query for the enabled groups: their symbols, periods and signal types
/// each trimmed, without repeats, sorted and joined with commas (periods and
/// types left out where there are none), the first page, and at most 100
/// rows. No query where no group is enabled.
pub fn build_request(groups: &Vec<GroupConfig>, poll: &PollConfig) -> (r: Option<
    FetchSignalsRequest,
>)
    ensures
        r is None <==> !any_enabled(group_views(groups@)),
        r matches Some(q) ==> {
            &&& is_sorted_join(q.symbols@, enabled_symbols(group_views(groups@)))
            &&& optional_join(q.periods, enabled_periods(group_views(groups@)))
            &&& optional_join(q.signal_types, enabled_types(group_views(groups@)))
            &&& q.page == Some(1u32)
            &&& q.page_size == Some(if poll.page_size < 100 { poll.page_size } else { 100u32 })
        },
{
    let ghost gv = group_views(groups@);
    let mut symbols: Vec<String> = Vec::new();
    let mut periods: Vec<String> = Vec::new();
    let mut types: Vec<String> = Vec::new();
    let mut any = false;
    let mut i: usize = 0;
    while i < groups.len()
        invariant
            i <= groups@.len(),
            gv == group_views(groups@),
            any == exists|g: int| 0 <= g < i && gv[g].enabled,
            trimmed_texts(texts_of(symbols@)) == Set::new(
                |t: Seq<char>|
                    exists|g: int|
                        0 <= g < i && gv[g].enabled && trim(gv[g].symbol) == t && t.len() > 0,
            ),
            trimmed_texts(texts_of(periods@)) == Set::new(
                |t: Seq<char>|
                    exists|g: int, p: int|
                        0 <= g < i && gv[g].enabled && 0 <= p < gv[g].periods.len() && trim(
                            gv[g].periods[p],
                        ) == t && t.len() > 0,
            ),
            trimmed_texts(texts_of(types@)) == Set::new(
                |t: Seq<char>|
                    exists|g: int, p: int|
                        0 <= g < i && gv[g].enabled && 0 <= p < gv[g].signal_types.len() && trim(
                            gv[g].signal_types[p],
                        ) == t && t.len() > 0,
            ),
        decreases groups@.len() - i,
    {
        let g = &groups[i];
        assert(gv[i as int] == g@);
        let ghost s0 = texts_of(symbols@);
        let ghost p0 = texts_of(periods@);
        let ghost t0 = texts_of(types@);
        if g.enabled {
            any = true;
            symbols.push(g.symbol.clone());
            assert(texts_of(symbols@) =~= s0.push(g.symbol@));
            extend_strings(&mut periods, &g.periods);
            extend_strings(&mut types, &g.signal_types);
        }
        i = i + 1;
        proof {
            let s1 = texts_of(symbols@);
            let p1 = texts_of(periods@);
            let t1 = texts_of(types@);
            assert(trimmed_texts(s1) =~= Set::new(
                |t: Seq<char>|
                    exists|g: int|
                        0 <= g < i && gv[g].enabled && trim(gv[g].symbol) == t && t.len() > 0,
            )) by {
                assert forall|t: Seq<char>| #[trigger] trimmed_texts(s1).contains(t) implies (exists|g: int|
                        0 <= g < i && gv[g].enabled && trim(gv[g].symbol) == t && t.len() > 0) by {
                    let k = choose|k: int| 0 <= k < s1.len() && trim(s1[k]) == t && t.len() > 0;
                    if k < s0.len() {
                        assert(s1[k] == s0[k]);
                        assert(trimmed_texts(s0).contains(t));
                    }
                }
                assert forall|t: Seq<char>| (exists|g: int|
                        0 <= g < i && gv[g].enabled && trim(gv[g].symbol) == t && t.len() > 0) implies #[trigger] trimmed_texts(s1).contains(t) by {
                    let g = choose|g: int| 0 <= g < i && gv[g].enabled && trim(gv[g].symbol) == t && t.len() > 0;
                    if g < i - 1 {
                        assert(Set::new(
                            |t: Seq<char>|
                                exists|g: int|
                                    0 <= g < i - 1 && gv[g].enabled && trim(gv[g].symbol) == t && t.len() > 0,
                        ).contains(t));
                        let k = choose|k: int| 0 <= k < s0.len() && trim(s0[k]) == t && t.len() > 0;
                        assert(s1[k] == s0[k]);
                    } else {
                        assert(s1[s0.len() as int] == gv[g].symbol);
                    }
                }
            }
            assert(trimmed_texts(p1) =~= Set::new(
                |t: Seq<char>|
                    exists|g: int, p: int|
                        0 <= g < i && gv[g].enabled && 0 <= p < gv[g].periods.len() && trim(
                            gv[g].periods[p],
                        ) == t && t.len() > 0,
            )) by {
                assert forall|t: Seq<char>| #[trigger] trimmed_texts(p1).contains(t) implies (exists|g: int, p: int|
                        0 <= g < i && gv[g].enabled && 0 <= p < gv[g].periods.len() && trim(
                            gv[g].periods[p],
                        ) == t && t.len() > 0) by {
                    let k = choose|k: int| 0 <= k < p1.len() && trim(p1[k]) == t && t.len() > 0;
                    if k < p0.len() {
                        assert(p1[k] == p0[k]);
                        assert(trimmed_texts(p0).contains(t));
                    } else {
                        let q = k - p0.len();
                        assert(p1[k] == gv[i - 1].periods[q]);
                    }
                }
                assert forall|t: Seq<char>| (exists|g: int, p: int|
                        0 <= g < i && gv[g].enabled && 0 <= p < gv[g].periods.len() && trim(
                            gv[g].periods[p],
                        ) == t && t.len() > 0) implies #[trigger] trimmed_texts(p1).contains(t) by {
                    let (g, p) = choose|g: int, p: int|
                        0 <= g < i && gv[g].enabled && 0 <= p < gv[g].periods.len() && trim(
                            gv[g].periods[p],
                        ) == t && t.len() > 0;
                    if g < i - 1 {
                        assert(Set::new(
                            |t: Seq<char>|
                                exists|g: int, p: int|
                                    0 <= g < i - 1 && gv[g].enabled && 0 <= p < gv[g].periods.len() && trim(
                                        gv[g].periods[p],
                                    ) == t && t.len() > 0,
                        ).contains(t));
                        let k = choose|k: int| 0 <= k < p0.len() && trim(p0[k]) == t && t.len() > 0;
                        assert(p1[k] == p0[k]);
                    } else {
                        assert(p1[p0.len() + p] == gv[g].periods[p]);
                    }
                }
            }
            assert(trimmed_texts(t1) =~= Set::new(
                |t: Seq<char>|
                    exists|g: int, p: int|
                        0 <= g < i && gv[g].enabled && 0 <= p < gv[g].signal_types.len() && trim(
                            gv[g].signal_types[p],
                        ) == t && t.len() > 0,
            )) by {
                assert forall|t: Seq<char>| #[trigger] trimmed_texts(t1).contains(t) implies (exists|g: int, p: int|
                        0 <= g < i && gv[g].enabled && 0 <= p < gv[g].signal_types.len() && trim(
                            gv[g].signal_types[p],
                        ) == t && t.len() > 0) by {
                    let k = choose|k: int| 0 <= k < t1.len() && trim(t1[k]) == t && t.len() > 0;
                    if k < t0.len() {
                        assert(t1[k] == t0[k]);
                        assert(trimmed_texts(t0).contains(t));
                    } else {
                        let q = k - t0.len();
                        assert(t1[k] == gv[i - 1].signal_types[q]);
                    }
                }
                assert forall|t: Seq<char>| (exists|g: int, p: int|
                        0 <= g < i && gv[g].enabled && 0 <= p < gv[g].signal_types.len() && trim(
                            gv[g].signal_types[p],
                        ) == t && t.len() > 0) implies #[trigger] trimmed_texts(t1).contains(t) by {
                    let (g, p) = choose|g: int, p: int|
                        0 <= g < i && gv[g].enabled && 0 <= p < gv[g].signal_types.len() && trim(
                            gv[g].signal_types[p],
                        ) == t && t.len() > 0;
                    if g < i - 1 {
                        assert(Set::new(
                            |t: Seq<char>|
                                exists|g: int, p: int|
                                    0 <= g < i - 1 && gv[g].enabled && 0 <= p < gv[g].signal_types.len() && trim(
                                        gv[g].signal_types[p],
                                    ) == t && t.len() > 0,
                        ).contains(t));
                        let k = choose|k: int| 0 <= k < t0.len() && trim(t0[k]) == t && t.len() > 0;
                        assert(t1[k] == t0[k]);
                    } else {
                        assert(t1[t0.len() + p] == gv[g].signal_types[p]);
                    }
                }
            }
        }
    }
    if !any {
        return None;
    }
    assert(trimmed_texts(texts_of(symbols@)) =~= enabled_symbols(gv));
    assert(trimmed_texts(texts_of(periods@)) =~= enabled_periods(gv));
    assert(trimmed_texts(texts_of(types@)) =~= enabled_types(gv));
    let symbols_joined = join_unique(&symbols);
    let periods_joined = join_unique(&periods);
    let types_joined = join_unique(&types);
    let page_size = if poll.page_size < 100 {
        poll.page_size
    } else {
        100
    };
    Some(
        FetchSignalsRequest {
            symbols: symbols_joined,
            periods: if periods_joined.as_str().is_empty() {
                None
            } else {
                Some(periods_joined)
            },
            signal_types: if types_joined.as_str().is_empty() {
                None
            } else {
                Some(types_joined)
            },
            page: Some(1),
            page_size: Some(page_size),
        },
    )
}

/// Two strictly increasing lists of the same texts are the same list.
pub proof fn lemma_sorted_texts_equal(p1: Seq<Seq<char>>, p2: Seq<Seq<char>>)
    requires
        texts_sorted(p1),
        texts_sorted(p2),
        p1.to_set() == p2.to_set(),
    ensures
        p1 == p2,
    decreases p1.len(),
{
    if p1.len() == 0 {
        if p2.len() > 0 {
            assert(p2.to_set().contains(p2[0]));
        }
        assert(p1 =~= p2);
    } else if p2.len() == 0 {
        assert(p1.to_set().contains(p1[0]));
    } else {
        assert(p1.to_set().contains(p1[0]));
        assert(p2.to_set().contains(p2[0]));
        let j = choose|j: int| 0 <= j < p2.len() && p2[j] == p1[0];
        let i = choose|i: int| 0 <= i < p1.len() && p1[i] == p2[0];
        if j > 0 {
            if i > 0 {
                lemma_seq_lt_total(p1[0], p2[0]);
            } else {
                lemma_seq_lt_irreflexive(p1[0]);
            }
        }
        assert(p1[0] == p2[0]);
        let q1 = p1.drop_first();
        let q2 = p2.drop_first();
        assert forall|a: int, b: int| 0 <= a < b < q1.len() implies seq_lt(#[trigger] q1[a], #[trigger] q1[b]) by {
            assert(q1[a] == p1[a + 1]);
            assert(q1[b] == p1[b + 1]);
        }
        assert forall|a: int, b: int| 0 <= a < b < q2.len() implies seq_lt(#[trigger] q2[a], #[trigger] q2[b]) by {
            assert(q2[a] == p2[a + 1]);
            assert(q2[b] == p2[b + 1]);
        }
        assert(q1.to_set() =~= q2.to_set()) by {
            assert forall|t: Seq<char>| #[trigger] q1.to_set().contains(t) implies q2.to_set().contains(t) by {
                let a = choose|a: int| 0 <= a < q1.len() && q1[a] == t;
                assert(p1[a + 1] == t);
                assert(p1.to_set().contains(t));
                let b = choose|b: int| 0 <= b < p2.len() && p2[b] == t;
                if b == 0 {
                    lemma_seq_lt_irreflexive(p1[0]);
                }
                assert(q2[b - 1] == t);
            }
            assert forall|t: Seq<char>| #[trigger] q2.to_set().contains(t) implies q1.to_set().contains(t) by {
                let a = choose|a: int| 0 <= a < q2.len() && q2[a] == t;
                assert(p2[a + 1] == t);
                assert(p2.to_set().contains(t));
                let b = choose|b: int| 0 <= b < p1.len() && p1[b] == t;
                if b == 0 {
                    lemma_seq_lt_irreflexive(p2[0]);
                }
                assert(q1[b - 1] == t);
            }
        }
        lemma_sorted_texts_equal(q1, q2);
        assert(p1 =~= p2) by {
            assert forall|k: int| 0 <= k < p1.len() implies p1[k] == p2[k] by {
                if k > 0 {
                    assert(p1[k] == q1[k - 1]);
                    assert(p2[k] == q2[k - 1]);
                }
            }
        }
    }
}

/// The join of a set of texts does not depend on how the texts were listed:
/// values with the same trimmed texts give the same `join_unique`, whatever
/// their order and repeats.
pub proof fn law_join_depends_only_on_the_set(r1: Seq<char>, r2: Seq<char>, set: Set<Seq<char>>)
    requires
        is_sorted_join(r1, set),
        is_sorted_join(r2, set),
    ensures
        r1 == r2,
{
    let p1 = choose|parts: Seq<Seq<char>>|
        texts_sorted(parts) && parts.to_set() == set && r1 == join_commas(parts);
    let p2 = choose|parts: Seq<Seq<char>>|
        texts_sorted(parts) && parts.to_set() == set && r2 == join_commas(parts);
    lemma_sorted_texts_equal(p1, p2);
}

} // verus!
