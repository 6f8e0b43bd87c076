//! The library of rhythm patterns: durations in ticks that fill a whole
//! number of beats, built from one- and two-beat cells.

use vstd::prelude::*;

use crate::error::ConfigError;
use crate::rng::gen_index;
use crate::tone::TICKS_PER_BEAT;

verus! {

/// The summed length of a pattern.
pub open spec fn total(s: Seq<u64>) -> int
    decreases s.len(),
{
    if s.len() == 0 {
        0
    } else {
        total(s.drop_last()) + s.last()
    }
}

/// A pattern never has a negative length.
pub proof fn lemma_total_nonneg(s: Seq<u64>)
    ensures
        total(s) >= 0,
    decreases s.len(),
{
    if s.len() > 0 {
        lemma_total_nonneg(s.drop_last());
    }
}

/// The length of two patterns played one after the other is the sum of their lengths.
pub proof fn lemma_total_concat(a: Seq<u64>, b: Seq<u64>)
    ensures
        total(a + b) == total(a) + total(b),
    decreases b.len(),
{
    if b.len() == 0 {
        assert(a + b =~= a);
    } else {
        assert((a + b).drop_last() =~= a + b.drop_last());
        lemma_total_concat(a, b.drop_last());
    }
}

/// The patterns of a list of vectors, as sequences.
pub open spec fn view_all(v: Seq<Vec<u64>>) -> Seq<Seq<u64>> {
    v.map_values(|p: Vec<u64>| p@)
}

/// Every pattern fills exactly `beats` beats, is not empty, and has only
/// positive durations.
pub open spec fn fills(ps: Seq<Seq<u64>>, beats: int) -> bool {
    forall|i: int|
        0 <= i < ps.len() ==> #[trigger] total(ps[i]) == beats * 480 && ps[i].len() > 0 && (forall|k: int|
            0 <= k < ps[i].len() ==> ps[i][k] > 0)
}

/// The one-beat cells: a quarter, two eighths.
pub open spec fn one_spec() -> Seq<Seq<u64>> {
    seq![seq![480u64], seq![240u64, 240]]
}

/// The two-beat cells.
pub open spec fn two_spec() -> Seq<Seq<u64>> {
    seq![
        seq![960u64],
        seq![720u64, 240],
        seq![480u64, 480],
        seq![480u64, 240, 240],
        seq![240u64, 720],
        seq![240u64, 480, 240],
        seq![240u64, 240, 480],
        seq![240u64, 240, 240, 240],
    ]
}

/// The three-beat patterns written out directly.
pub open spec fn three_listed() -> Seq<Seq<u64>> {
    seq![
        seq![1440u64],
        seq![1200u64, 240],
        seq![960u64, 480],
        seq![960u64, 240, 240],
        seq![720u64, 720],
        seq![720u64, 480, 240],
        seq![720u64, 240, 480],
        seq![720u64, 240, 240, 240],
        seq![240u64, 960, 240],
        seq![240u64, 720, 480],
        seq![240u64, 720, 240, 240],
        seq![240u64, 480, 480, 240],
        seq![240u64, 480, 240, 480],
        seq![240u64, 480, 240, 240, 240],
    ]
}

/// `p` followed by each pattern of `ts`.
pub open spec fn prefixed(p: Seq<u64>, ts: Seq<Seq<u64>>) -> Seq<Seq<u64>> {
    ts.map_values(|t: Seq<u64>| p + t)
}

/// Each pattern of `ps` followed by each pattern of `ts`.
pub open spec fn pairs(ps: Seq<Seq<u64>>, ts: Seq<Seq<u64>>) -> Seq<Seq<u64>>
    decreases ps.len(),
{
    if ps.len() == 0 {
        Seq::empty()
    } else {
        pairs(ps.drop_last(), ts) + prefixed(ps.last(), ts)
    }
}

/// For each pattern `t` of `ts`, `p` before `t`, then `t` before `p`.
pub open spec fn both_ways(p: Seq<u64>, ts: Seq<Seq<u64>>) -> Seq<Seq<u64>>
    decreases ts.len(),
{
    if ts.len() == 0 {
        Seq::empty()
    } else {
        both_ways(p, ts.drop_last()) + seq![p + ts.last(), ts.last() + p]
    }
}

/// The three-beat patterns: those written out, then a quarter and then
/// two eighths before each two-beat cell.
pub open spec fn three_spec() -> Seq<Seq<u64>> {
    three_listed() + prefixed(one_spec()[0], two_spec()) + prefixed(one_spec()[1], two_spec())
}

/// The four-beat patterns as they are composed: a whole note, every
/// two-beat cell before every two-beat cell, and every one-beat cell before
/// and after every three-beat pattern. Some patterns arise more than once
/// here; the catalog (see [`patterns_for`]) holds each once.
pub open spec fn four_spec() -> Seq<Seq<u64>> {
    seq![seq![1920u64]] + pairs(two_spec(), two_spec()) + both_ways(one_spec()[0], three_spec())
        + both_ways(one_spec()[1], three_spec())
}

/// The patterns that make up the catalog for a beat count, empty outside
/// one to four. The catalog is the set of these: each pattern once.
pub open spec fn catalog_spec(beats: int) -> Seq<Seq<u64>> {
    if beats == 1 {
        one_spec()
    } else if beats == 2 {
        two_spec()
    } else if beats == 3 {
        three_spec()
    } else if beats == 4 {
        four_spec()
    } else {
        Seq::empty()
    }
}

proof fn lemma_fills_concat(a: Seq<u64>, b: Seq<u64>)
    requires
        a.len() > 0,
        forall|k: int| 0 <= k < a.len() ==> a[k] > 0,
        forall|k: int| 0 <= k < b.len() ==> b[k] > 0,
    ensures
        total(a + b) == total(a) + total(b),
        (a + b).len() > 0,
        forall|k: int| 0 <= k < (a + b).len() ==> (a + b)[k] > 0,
{
    lemma_total_concat(a, b);
    assert forall|k: int| 0 <= k < (a + b).len() implies (a + b)[k] > 0 by {
        if k >= a.len() {
            assert((a + b)[k] == b[k - a.len()]);
        }
    }
}

proof fn lemma_prefixed_fills(p: Seq<u64>, q: int, ts: Seq<Seq<u64>>, t: int)
    requires
        fills(seq![p], q),
        fills(ts, t),
    ensures
        fills(prefixed(p, ts), q + t),
{
    assert(total(seq![p][0]) == q * 480);
    assert(seq![p][0] == p);
    assert forall|i: int| 0 <= i < prefixed(p, ts).len() implies #[trigger] total(prefixed(p, ts)[i]) == (q + t) * 480
        && prefixed(p, ts)[i].len() > 0 && (forall|k: int|
        0 <= k < prefixed(p, ts)[i].len() ==> prefixed(p, ts)[i][k] > 0) by {
        assert(total(ts[i]) == t * 480);
        lemma_fills_concat(p, ts[i]);
    }
}

proof fn lemma_pairs_fills(ps: Seq<Seq<u64>>, q: int, ts: Seq<Seq<u64>>, t: int)
    requires
        fills(ps, q),
        fills(ts, t),
    ensures
        fills(pairs(ps, ts), q + t),
    decreases ps.len(),
{
    if ps.len() > 0 {
        let init = ps.drop_last();
        assert forall|i: int| 0 <= i < init.len() implies #[trigger] total(init[i]) == q * 480 && init[i].len() > 0
            && (forall|k: int| 0 <= k < init[i].len() ==> init[i][k] > 0) by {
            assert(init[i] == ps[i]);
            assert(total(ps[i]) == q * 480);
        }
        lemma_pairs_fills(init, q, ts, t);
        assert(total(ps[ps.len() - 1]) == q * 480);
        assert(seq![ps.last()][0] == ps.last());
        lemma_prefixed_fills(ps.last(), q, ts, t);
        let a = pairs(init, ts);
        let b = prefixed(ps.last(), ts);
        assert forall|i: int| 0 <= i < (a + b).len() implies #[trigger] total((a + b)[i]) == (q + t) * 480
            && (a + b)[i].len() > 0 && (forall|k: int| 0 <= k < (a + b)[i].len() ==> (a + b)[i][k] > 0) by {
            if i < a.len() {
                assert((a + b)[i] == a[i]);
                assert(total(a[i]) == (q + t) * 480);
            } else {
                assert((a + b)[i] == b[i - a.len()]);
                assert(total(b[i - a.len()]) == (q + t) * 480);
            }
        }
    }
}

proof fn lemma_both_ways_fills(p: Seq<u64>, q: int, ts: Seq<Seq<u64>>, t: int)
    requires
        fills(seq![p], q),
        fills(ts, t),
    ensures
        fills(both_ways(p, ts), q + t),
    decreases ts.len(),
{
    assert(seq![p][0] == p);
    assert(total(seq![p][0]) == q * 480);
    if ts.len() > 0 {
        let init = ts.drop_last();
        assert forall|i: int| 0 <= i < init.len() implies #[trigger] total(init[i]) == t * 480 && init[i].len() > 0
            && (forall|k: int| 0 <= k < init[i].len() ==> init[i][k] > 0) by {
            assert(init[i] == ts[i]);
            assert(total(ts[i]) == t * 480);
        }
        lemma_both_ways_fills(p, q, init, t);
        let last = ts.last();
        assert(total(ts[ts.len() - 1]) == t * 480);
        lemma_fills_concat(p, last);
        lemma_fills_concat(last, p);
        let a = both_ways(p, init);
        let b = seq![p + last, last + p];
        assert forall|i: int| 0 <= i < (a + b).len() implies #[trigger] total((a + b)[i]) == (q + t) * 480
            && (a + b)[i].len() > 0 && (forall|k: int| 0 <= k < (a + b)[i].len() ==> (a + b)[i][k] > 0) by {
            if i < a.len() {
                assert((a + b)[i] == a[i]);
                assert(total(a[i]) == (q + t) * 480);
            } else {
                assert((a + b)[i] == b[i - a.len()]);
            }
        }
        assert(both_ways(p, ts) == a + b);
    } else {
        assert(both_ways(p, ts) =~= Seq::<Seq<u64>>::empty());
    }
}

proof fn lemma_fills_append(a: Seq<Seq<u64>>, b: Seq<Seq<u64>>, n: int)
    requires
        fills(a, n),
        fills(b, n),
    ensures
        fills(a + b, n),
{
    assert forall|i: int| 0 <= i < (a + b).len() implies #[trigger] total((a + b)[i]) == n * 480
        && (a + b)[i].len() > 0 && (forall|k: int| 0 <= k < (a + b)[i].len() ==> (a + b)[i][k] > 0) by {
        if i < a.len() {
            assert((a + b)[i] == a[i]);
            assert(total(a[i]) == n * 480);
        } else {
            assert((a + b)[i] == b[i - a.len()]);
            assert(total(b[i - a.len()]) == n * 480);
        }
    }
}

/// Every pattern of the catalog for one to four beats fills exactly that
/// many beats with positive durations.
pub proof fn lemma_catalog_fills(beats: int)
    requires
        1 <= beats <= 4,
    ensures
        fills(catalog_spec(beats), beats),
        catalog_spec(beats).len() > 0,
{
    assert(fills(one_spec(), 1)) by { reveal_with_fuel(total, 3); }
    assert(fills(two_spec(), 2)) by { reveal_with_fuel(total, 5); }
    assert(fills(three_listed(), 3)) by { reveal_with_fuel(total, 6); }
    let o0 = one_spec()[0];
    let o1 = one_spec()[1];
    assert(fills(seq![o0], 1)) by { reveal_with_fuel(total, 3); }
    assert(fills(seq![o1], 1)) by { reveal_with_fuel(total, 3); }
    lemma_prefixed_fills(o0, 1, two_spec(), 2);
    lemma_prefixed_fills(o1, 1, two_spec(), 2);
    lemma_fills_append(three_listed(), prefixed(o0, two_spec()), 3);
    lemma_fills_append(three_listed() + prefixed(o0, two_spec()), prefixed(o1, two_spec()), 3);
    lemma_pairs_fills(two_spec(), 2, two_spec(), 2);
    lemma_both_ways_fills(o0, 1, three_spec(), 3);
    lemma_both_ways_fills(o1, 1, three_spec(), 3);
    assert(fills(seq![seq![1920u64]], 4)) by { reveal_with_fuel(total, 2); }
    lemma_fills_append(seq![seq![1920u64]], pairs(two_spec(), two_spec()), 4);
    lemma_fills_append(seq![seq![1920u64]] + pairs(two_spec(), two_spec()), both_ways(o0, three_spec()), 4);
    lemma_fills_append(
        seq![seq![1920u64]] + pairs(two_spec(), two_spec()) + both_ways(o0, three_spec()),
        both_ways(o1, three_spec()),
        4,
    );
}

/// The pattern `a` followed by the pattern `b`.
fn concat(a: &Vec<u64>, b: &Vec<u64>) -> (r: Vec<u64>)
    ensures
        r@ == a@ + b@,
{
    let mut r: Vec<u64> = Vec::new();
    let mut i: usize = 0;
    while i < a.len()
        invariant
            i <= a@.len(),
            r@ == a@.subrange(0, i as int),
        decreases a@.len() - i,
    {
        r.push(a[i]);
        i = i + 1;
    }
    let mut j: usize = 0;
    while j < b.len()
        invariant
            j <= b@.len(),
            r@ == a@ + b@.subrange(0, j as int),
        decreases b@.len() - j,
    {
        r.push(b[j]);
        j = j + 1;
    }
    assert(a@.subrange(0, a@.len() as int) =~= a@);
    assert(b@.subrange(0, b@.len() as int) =~= b@);
    r
}

/// Appends `p` followed by each pattern of `ts`.
fn push_prefixed(v: &mut Vec<Vec<u64>>, p: &Vec<u64>, ts: &Vec<Vec<u64>>)
    ensures
        view_all(final(v)@) == view_all(old(v)@) + prefixed(p@, view_all(ts@)),
{
    let ghost start = view_all(v@);
    let mut j: usize = 0;
    while j < ts.len()
        invariant
            j <= ts@.len(),
            view_all(v@) == start + prefixed(p@, view_all(ts@).subrange(0, j as int)),
        decreases ts@.len() - j,
    {
        let ghost before = v@;
        v.push(concat(p, &ts[j]));
        assert(view_all(v@) =~= view_all(before).push(p@ + ts@[j as int]@));
        assert(prefixed(p@, view_all(ts@).subrange(0, j as int + 1)) =~= prefixed(
            p@,
            view_all(ts@).subrange(0, j as int),
        ).push(p@ + ts@[j as int]@));
        assert(view_all(v@) =~= start + prefixed(p@, view_all(ts@).subrange(0, j as int + 1)));
        j = j + 1;
    }
    assert(view_all(ts@).subrange(0, ts@.len() as int) =~= view_all(ts@));
}

/// Appends, for each pattern `t` of `ts`, `p` before `t` and `t` before `p`.
fn push_both_ways(v: &mut Vec<Vec<u64>>, p: &Vec<u64>, ts: &Vec<Vec<u64>>)
    ensures
        view_all(final(v)@) == view_all(old(v)@) + both_ways(p@, view_all(ts@)),
{
    let ghost start = view_all(v@);
    let mut j: usize = 0;
    while j < ts.len()
        invariant
            j <= ts@.len(),
            view_all(v@) == start + both_ways(p@, view_all(ts@).subrange(0, j as int)),
        decreases ts@.len() - j,
    {
        let ghost before = v@;
        v.push(concat(p, &ts[j]));
        v.push(concat(&ts[j], p));
        let ghost t = ts@[j as int]@;
        assert(view_all(ts@).subrange(0, j as int + 1).drop_last() =~= view_all(ts@).subrange(0, j as int));
        assert(view_all(v@) =~= view_all(before) + seq![p@ + t, t + p@]);
        assert(view_all(v@) =~= start + both_ways(p@, view_all(ts@).subrange(0, j as int + 1)));
        j = j + 1;
    }
    assert(view_all(ts@).subrange(0, ts@.len() as int) =~= view_all(ts@));
}

fn one_beat() -> (r: Vec<Vec<u64>>)
    ensures
        view_all(r@) == one_spec(),
{
    let r = vec![vec![480], vec![240, 240]];
    assert(view_all(r@) =~~= one_spec());
    r
}

fn two_beats() -> (r: Vec<Vec<u64>>)
    ensures
        view_all(r@) == two_spec(),
{
    let r = vec![
        vec![960],
        vec![720, 240],
        vec![480, 480],
        vec![480, 240, 240],
        vec![240, 720],
        vec![240, 480, 240],
        vec![240, 240, 480],
        vec![240, 240, 240, 240],
    ];
    assert(view_all(r@) =~~= two_spec());
    r
}

fn three_beats() -> (r: Vec<Vec<u64>>)
    ensures
        view_all(r@) == three_spec(),
{
    let mut v = vec![
        vec![1440],
        vec![1200, 240],
        vec![960, 480],
        vec![960, 240, 240],
        vec![720, 720],
        vec![720, 480, 240],
        vec![720, 240, 480],
        vec![720, 240, 240, 240],
        vec![240, 960, 240],
        vec![240, 720, 480],
        vec![240, 720, 240, 240],
        vec![240, 480, 480, 240],
        vec![240, 480, 240, 480],
        vec![240, 480, 240, 240, 240],
    ];
    assert(view_all(v@) =~~= three_listed());
    let two = two_beats();
    let one = one_beat();
    assert(one@.len() == view_all(one@).len());
    push_prefixed(&mut v, &one[0], &two);
    push_prefixed(&mut v, &one[1], &two);
    v
}

/// The four-beat catalog: every composed four-beat pattern, each once.
fn four_beats() -> (r: Vec<Vec<u64>>)
    ensures
        view_all(r@).no_duplicates(),
        forall|p: Seq<u64>| view_all(r@).contains(p) <==> four_spec().contains(p),
{
    let composed = four_beat_compositions();
    dedup(&composed)
}

/// Every composition of four beats in order, repeats included.
fn four_beat_compositions() -> (r: Vec<Vec<u64>>)
    ensures
        view_all(r@) == four_spec(),
{
    let mut v = vec![vec![1920]];
    assert(view_all(v@) =~~= seq![seq![1920u64]]);
    let one = one_beat();
    let two = two_beats();
    let three = three_beats();
    let mut a: usize = 0;
    while a < two.len()
        invariant
            a <= two@.len(),
            view_all(two@) == two_spec(),
            view_all(v@) == seq![seq![1920u64]] + pairs(two_spec().subrange(0, a as int), two_spec()),
        decreases two@.len() - a,
    {
        let ghost before = view_all(v@);
        push_prefixed(&mut v, &two[a], &two);
        assert(two_spec().subrange(0, a as int + 1).drop_last() =~= two_spec().subrange(0, a as int));
        assert(view_all(v@) =~= seq![seq![1920u64]] + pairs(two_spec().subrange(0, a as int + 1), two_spec()));
        a = a + 1;
    }
    assert(two_spec().subrange(0, 8) =~= two_spec());
    assert(one@.len() == view_all(one@).len());
    push_both_ways(&mut v, &one[0], &three);
    push_both_ways(&mut v, &one[1], &three);
    v
}

/// The two patterns are equal.
fn same_pattern(a: &Vec<u64>, b: &Vec<u64>) -> (r: bool)
    ensures
        r == (a@ == b@),
{
    if a.len() != b.len() {
        return false;
    }
    let mut i: usize = 0;
    while i < a.len()
        invariant
            i <= a@.len(),
            a@.len() == b@.len(),
            forall|k: int| 0 <= k < i ==> a@[k] == b@[k],
        decreases a@.len() - i,
    {
        if a[i] != b[i] {
            return false;
        }
        i = i + 1;
    }
    assert(a@ =~= b@);
    true
}

/// The patterns of `ps` with repeats removed, first occurrences kept in order.
fn dedup(ps: &Vec<Vec<u64>>) -> (r: Vec<Vec<u64>>)
    ensures
        view_all(r@).no_duplicates(),
        forall|p: Seq<u64>| view_all(r@).contains(p) <==> view_all(ps@).contains(p),
{
    let mut r: Vec<Vec<u64>> = Vec::new();
    let mut i: usize = 0;
    while i < ps.len()
        invariant
            i <= ps@.len(),
            view_all(r@).no_duplicates(),
            forall|p: Seq<u64>| view_all(r@).contains(p) <==> view_all(ps@).subrange(0, i as int).contains(p),
        decreases ps@.len() - i,
    {
        let mut found = false;
        let mut j: usize = 0;
        while j < r.len()
            invariant
                i < ps@.len(),
                j <= r@.len(),
                found <==> exists|k: int| 0 <= k < j && r@[k]@ == ps@[i as int]@,
            decreases r@.len() - j,
        {
            if same_pattern(&r[j], &ps[i]) {
                found = true;
            }
            j = j + 1;
        }
        let ghost before = r@;
        let ghost x = ps@[i as int]@;
        assert(view_all(ps@).subrange(0, i as int + 1) =~= view_all(ps@).subrange(0, i as int).push(x));
        if !found {
            r.push(copy_pattern(&ps[i]));
            assert(view_all(r@) =~= view_all(before).push(x));
            assert forall|p: Seq<u64>| view_all(r@).contains(p) implies view_all(ps@).subrange(0, i as int + 1).contains(p) by {
                let k = choose|k: int| 0 <= k < view_all(r@).len() && #[trigger] view_all(r@)[k] == p;
                if k < before.len() {
                    assert(view_all(before)[k] == p);
                    assert(view_all(before).contains(p));
                    let m = choose|m: int| 0 <= m < i && #[trigger] view_all(ps@).subrange(0, i as int)[m] == p;
                    assert(view_all(ps@).subrange(0, i as int + 1)[m] == p);
                } else {
                    assert(view_all(ps@).subrange(0, i as int + 1)[i as int] == x);
                }
            }
            assert forall|p: Seq<u64>| view_all(ps@).subrange(0, i as int + 1).contains(p) implies view_all(r@).contains(p) by {
                if p == x {
                    assert(view_all(r@)[before.len() as int] == x);
                } else {
                    let k = choose|k: int| 0 <= k < i + 1 && #[trigger] view_all(ps@).subrange(0, i as int + 1)[k] == p;
                    assert(view_all(ps@).subrange(0, i as int)[k] == p);
                    assert(view_all(before).contains(p));
                    let m = choose|m: int| 0 <= m < view_all(before).len() && #[trigger] view_all(before)[m] == p;
                    assert(view_all(r@)[m] == p);
                }
            }
        } else {
            proof {
                let k = choose|k: int| 0 <= k < r@.len() && #[trigger] r@[k]@ == x;
                assert(view_all(r@)[k] == x);
                assert forall|p: Seq<u64>| view_all(ps@).subrange(0, i as int + 1).contains(p) implies view_all(r@).contains(p) by {
                    if p != x {
                        let k2 = choose|k2: int| 0 <= k2 < i + 1 && #[trigger] view_all(ps@).subrange(0, i as int + 1)[k2] == p;
                        assert(view_all(ps@).subrange(0, i as int)[k2] == p);
                    }
                }
            }
        }
        i = i + 1;
    }
    assert(view_all(ps@).subrange(0, ps@.len() as int) =~= view_all(ps@));
    r
}

/// The catalog of patterns that fill `beats` beats, as a set without
/// repeats: for one to four beats, exactly the patterns of
/// [`catalog_spec`], each filling `beats` beats with positive durations;
/// empty for any other count.
pub fn patterns_for(beats: u8) -> (r: Vec<Vec<u64>>)
    ensures
        view_all(r@).no_duplicates(),
        forall|p: Seq<u64>| view_all(r@).contains(p) <==> catalog_spec(beats as int).contains(p),
        1 <= beats <= 4 ==> r@.len() > 0 && fills(view_all(r@), beats as int),
        !(1 <= beats <= 4) ==> r@.len() == 0,
{
    let raw = if beats == 1 {
        one_beat()
    } else if beats == 2 {
        two_beats()
    } else if beats == 3 {
        three_beats()
    } else {
        Vec::new()
    };
    assert(1 <= beats <= 3 ==> view_all(raw@) == catalog_spec(beats as int));
    let r = if beats == 4 {
        four_beats()
    } else {
        dedup(&raw)
    };
    assert(!(1 <= beats <= 4) ==> view_all(raw@) =~= catalog_spec(beats as int));
    assert(forall|p: Seq<u64>| view_all(r@).contains(p) <==> catalog_spec(beats as int).contains(p));
    if 1 <= beats && beats <= 4 {
        proof {
            lemma_catalog_fills(beats as int);
            let c = catalog_spec(beats as int);
            assert(c.contains(c[0]));
            assert(view_all(r@).contains(c[0]));
            assert forall|i: int| 0 <= i < view_all(r@).len() implies #[trigger] total(view_all(r@)[i]) == beats * 480
                && view_all(r@)[i].len() > 0 && (forall|k: int|
                0 <= k < view_all(r@)[i].len() ==> view_all(r@)[i][k] > 0) by {
                let p = view_all(r@)[i];
                assert(view_all(r@).contains(p));
                assert(c.contains(p));
                let j = choose|j: int| 0 <= j < c.len() && #[trigger] c[j] == p;
                assert(total(c[j]) == beats * 480);
            }
        }
    } else {
        assert(view_all(r@).len() == 0) by {
            if view_all(r@).len() > 0 {
                assert(view_all(r@).contains(view_all(r@)[0]));
            }
        }
    }
    r
}

/// A copy of one pattern.
fn copy_pattern(p: &Vec<u64>) -> (r: Vec<u64>)
    ensures
        r@ == p@,
{
    let mut r: Vec<u64> = Vec::new();
    let mut i: usize = 0;
    while i < p.len()
        invariant
            i <= p@.len(),
            r@ == p@.subrange(0, i as int),
        decreases p@.len() - i,
    {
        r.push(p[i]);
        i = i + 1;
    }
    assert(r@ =~= p@);
    r
}

/// A pattern for `beats` beats picked uniformly from the catalog; a beat
/// count whose catalog is empty (outside one to four) is rejected.
pub fn choose_pattern(rng: &mut rand::rngs::StdRng, beats: u8) -> (r: Result<Vec<u64>, ConfigError>)
    ensures
        r is Err <==> !(1 <= beats <= 4),
        r matches Err(e) ==> e == ConfigError::EmptyCatalog,
        r matches Ok(p) ==> catalog_spec(beats as int).contains(p@) && fills(seq![p@], beats as int),
{
    let catalog = patterns_for(beats);
    if catalog.len() == 0 {
        Err(ConfigError::EmptyCatalog)
    } else {
        let i = gen_index(rng, catalog.len());
        let p = copy_pattern(&catalog[i]);
        proof {
            let v = view_all(catalog@);
            assert(v[i as int] == p@);
            assert(v.contains(p@));
            assert(total(v[i as int]) == beats * 480);
        }
        Ok(p)
    }
}

/// A four-beat pattern picked uniformly from the four-beat catalog.
pub fn gen_rythm(rng: &mut rand::rngs::StdRng) -> (r: Vec<u64>)
    ensures
        four_spec().contains(r@),
        fills(seq![r@], 4),
        r@.len() > 0,
        total(r@) == 4 * TICKS_PER_BEAT,
{
    let catalog = patterns_for(4);
    assert(catalog_spec(4) == four_spec());
    let i = gen_index(rng, catalog.len());
    let p = copy_pattern(&catalog[i]);
    proof {
        let v = view_all(catalog@);
        assert(v[i as int] == p@);
        assert(v.contains(p@));
        assert(total(v[i as int]) == 4 * 480);
    }
    p
}

} // verus!
