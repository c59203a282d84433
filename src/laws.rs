//! What holds of the common coverage of several sequences.
use crate::intersector::{fold_prefix, intersect_all, intersect_pair, overlaps_with};
use crate::interval::Interval;
use crate::interval_sequence::{lemma_sort_multiset, lemma_sort_sorted, sorted_by_start};
use vstd::prelude::*;

verus! {

/// `c` picks one interval out of each sequence, in the order of the sequences.
pub open spec fn is_choice(seqs: Seq<Seq<Interval>>, c: Seq<Interval>) -> bool {
    &&& c.len() == seqs.len()
    &&& forall|i: int| 0 <= i < c.len() ==> #[trigger] seqs[i].contains(c[i])
}

/// Every interval of `c` starts before each of the others ends.
pub open spec fn all_meet(c: Seq<Interval>) -> bool {
    forall|i: int, j: int|
        0 <= i < c.len() && 0 <= j < c.len() && i != j ==> #[trigger] c[i].start < #[trigger] c[j].end
}

/// The common part of all intervals of `c`, taken from the first onward;
/// `c` is not empty.
pub open spec fn common(c: Seq<Interval>) -> Interval
    decreases c.len(),
{
    if c.len() <= 1 {
        c[0]
    } else {
        common(c.drop_last()).overlap(c.last())
    }
}

/// Some index in `0 .. n` is sent to `j` by `perm`.
pub open spec fn is_hit(perm: Seq<int>, n: int, j: int) -> bool {
    exists|i: int| 0 <= i < n && #[trigger] perm[i] == j
}

/// `perm` is a permutation of the indices `0 .. n`.
pub open spec fn is_permutation(perm: Seq<int>, n: int) -> bool {
    &&& perm.len() == n
    &&& forall|i: int| 0 <= i < n ==> 0 <= #[trigger] perm[i] < n
    &&& forall|i: int, j: int| 0 <= i < n && 0 <= j < n && i != j ==> perm[i] != perm[j]
    &&& forall|j: int| 0 <= j < n ==> #[trigger] is_hit(perm, n, j)
}

/// The common part starts at the latest start and ends at the earliest end.
proof fn lemma_common_bounds(c: Seq<Interval>)
    requires
        c.len() >= 1,
    ensures
        forall|i: int| 0 <= i < c.len() ==> common(c).start >= #[trigger] c[i].start,
        exists|i: int| 0 <= i < c.len() && common(c).start == #[trigger] c[i].start,
        forall|i: int| 0 <= i < c.len() ==> common(c).end <= #[trigger] c[i].end,
        exists|i: int| 0 <= i < c.len() && common(c).end == #[trigger] c[i].end,
    decreases c.len(),
{
    if c.len() > 1 {
        let d = c.drop_last();
        let n = c.len() - 1;
        lemma_common_bounds(d);
        assert(forall|i: int| 0 <= i < d.len() ==> #[trigger] d[i] == c[i]);
        let is = choose|i: int| 0 <= i < d.len() && common(d).start == #[trigger] d[i].start;
        let ie = choose|i: int| 0 <= i < d.len() && common(d).end == #[trigger] d[i].end;
        assert(d[is] == c[is] && d[ie] == c[ie]);
        assert(c.last() == c[n]);
        assert forall|i: int| 0 <= i < c.len() implies common(c).start >= #[trigger] c[i].start by {
            if i < n {
                assert(d[i] == c[i]);
            }
        }
        assert forall|i: int| 0 <= i < c.len() implies common(c).end <= #[trigger] c[i].end by {
            if i < n {
                assert(d[i] == c[i]);
            }
        }
        if common(c).start == c[n].start {
            assert(common(c).start == c[n].start);
        } else {
            assert(common(c).start == c[is].start);
        }
        if common(c).end == c[n].end {
            assert(common(c).end == c[n].end);
        } else {
            assert(common(c).end == c[ie].end);
        }
    } else {
        assert(common(c).start == c[0].start && common(c).end == c[0].end);
    }
}

/// Adding an interval keeps all of them meeting exactly when it shares an
/// instant with the common part of those before.
proof fn lemma_meet_step(c: Seq<Interval>, a: Interval)
    requires
        c.len() >= 1,
    ensures
        all_meet(c.push(a)) <==> (all_meet(c) && common(c).overlaps(a)),
        common(c.push(a)) == common(c).overlap(a),
{
    let e = c.push(a);
    lemma_common_bounds(c);
    assert(e.drop_last() =~= c);
    assert(forall|i: int| 0 <= i < c.len() ==> e[i] == c[i]);
    if all_meet(e) {
        assert forall|i: int, j: int|
            0 <= i < c.len() && 0 <= j < c.len() && i != j implies #[trigger] c[i].start
            < #[trigger] c[j].end by {
            assert(e[i].start < e[j].end);
        }
        let is = choose|i: int| 0 <= i < c.len() && common(c).start == #[trigger] c[i].start;
        let ie = choose|i: int| 0 <= i < c.len() && common(c).end == #[trigger] c[i].end;
        assert(e[is].start < e[c.len() as int].end);
        assert(e[c.len() as int].start < e[ie].end);
    }
    if all_meet(c) && common(c).overlaps(a) {
        assert forall|i: int, j: int|
            0 <= i < e.len() && 0 <= j < e.len() && i != j implies #[trigger] e[i].start
            < #[trigger] e[j].end by {
            if i < c.len() && j < c.len() {
                assert(c[i].start < c[j].end);
            } else if i < c.len() {
                assert(common(c).start >= c[i].start);
            } else {
                assert(common(c).end <= c[j].end);
            }
        }
    }
}

/// The overlaps of `r` with `s` are the overlaps with its members that share
/// an instant with `r`.
proof fn lemma_overlaps_with_members(r: Interval, s: Seq<Interval>, x: Interval)
    ensures
        overlaps_with(r, s).contains(x) <==> exists|a: Interval|
            s.contains(a) && r.overlaps(a) && x == r.overlap(a),
    decreases s.len(),
{
    if s.len() > 0 {
        let d = s.drop_last();
        let rest = overlaps_with(r, d);
        let o = overlaps_with(r, s);
        let l = s.last();
        lemma_overlaps_with_members(r, d, x);
        assert(s[s.len() - 1] == l);
        if o.contains(x) {
            let k = choose|k: int| 0 <= k < o.len() && o[k] == x;
            if k < rest.len() {
                assert(rest[k] == x);
                let a = choose|a: Interval| d.contains(a) && r.overlaps(a) && x == r.overlap(a);
                let m = choose|m: int| 0 <= m < d.len() && d[m] == a;
                assert(s[m] == a);
            } else {
                assert(r.overlaps(l) && x == r.overlap(l));
            }
        }
        if exists|a: Interval| s.contains(a) && r.overlaps(a) && x == r.overlap(a) {
            let a = choose|a: Interval| s.contains(a) && r.overlaps(a) && x == r.overlap(a);
            let k = choose|k: int| 0 <= k < s.len() && s[k] == a;
            if k < d.len() {
                assert(d[k] == a);
                let m = choose|m: int| 0 <= m < rest.len() && rest[m] == x;
                assert(o[m] == x);
            } else {
                assert(o[o.len() - 1] == x);
            }
        }
    }
}

/// One reduction step holds the overlaps of each member of `run` with each
/// member of `s` that shares an instant with it.
proof fn lemma_intersect_pair_members(run: Seq<Interval>, s: Seq<Interval>, x: Interval)
    ensures
        intersect_pair(run, s).contains(x) <==> exists|r: Interval, a: Interval|
            run.contains(r) && s.contains(a) && r.overlaps(a) && x == r.overlap(a),
    decreases run.len(),
{
    if run.len() > 0 {
        let d = run.drop_last();
        let l = run.last();
        let p = intersect_pair(d, s);
        let o = overlaps_with(l, s);
        lemma_intersect_pair_members(d, s, x);
        lemma_overlaps_with_members(l, s, x);
        assert(run =~= d.push(l));
        assert(run[run.len() - 1] == l);
        if intersect_pair(run, s).contains(x) {
            let k = choose|k: int| 0 <= k < (p + o).len() && (p + o)[k] == x;
            if k < p.len() {
                assert(p[k] == x);
                let (r, a) = choose|r: Interval, a: Interval|
                    d.contains(r) && s.contains(a) && r.overlaps(a) && x == r.overlap(a);
                let m = choose|m: int| 0 <= m < d.len() && d[m] == r;
                assert(run[m] == r);
            } else {
                assert(o[k - p.len()] == x);
            }
        }
        if exists|r: Interval, a: Interval|
            run.contains(r) && s.contains(a) && r.overlaps(a) && x == r.overlap(a) {
            let (r, a) = choose|r: Interval, a: Interval|
                run.contains(r) && s.contains(a) && r.overlaps(a) && x == r.overlap(a);
            let m = choose|m: int| 0 <= m < run.len() && run[m] == r;
            if m < d.len() {
                assert(d[m] == r);
                let k = choose|k: int| 0 <= k < p.len() && p[k] == x;
                assert((p + o)[k] == x);
            } else {
                let k = choose|k: int| 0 <= k < o.len() && o[k] == x;
                assert((p + o)[p.len() + k] == x);
            }
        }
    }
}

/// After `k` sequences, the running result holds exactly the common parts of
/// the choices from those sequences whose intervals all meet.
proof fn lemma_fold_members(seqs: Seq<Seq<Interval>>, k: nat, x: Interval)
    requires
        1 <= k <= seqs.len(),
    ensures
        fold_prefix(seqs, k).contains(x) <==> exists|c: Seq<Interval>|
            is_choice(seqs.take(k as int), c) && all_meet(c) && common(c) == x,
    decreases k,
{
    let t = seqs.take(k as int);
    if k == 1 {
        if fold_prefix(seqs, k).contains(x) {
            let c = seq![x];
            assert(is_choice(t, c));
            assert(all_meet(c));
        }
        if exists|c: Seq<Interval>| is_choice(t, c) && all_meet(c) && common(c) == x {
            let c = choose|c: Seq<Interval>| is_choice(t, c) && all_meet(c) && common(c) == x;
            assert(t[0].contains(c[0]));
        }
    } else {
        let f = fold_prefix(seqs, (k - 1) as nat);
        let s = seqs[k - 1];
        let tp = seqs.take(k - 1);
        assert(forall|i: int| 0 <= i < k - 1 ==> tp[i] == t[i]);
        assert(t[k - 1] == s);
        lemma_intersect_pair_members(f, s, x);
        if fold_prefix(seqs, k).contains(x) {
            let (r, a) = choose|r: Interval, a: Interval|
                f.contains(r) && s.contains(a) && r.overlaps(a) && x == r.overlap(a);
            lemma_fold_members(seqs, (k - 1) as nat, r);
            let cp = choose|c: Seq<Interval>| is_choice(tp, c) && all_meet(c) && common(c) == r;
            let c = cp.push(a);
            lemma_meet_step(cp, a);
            assert forall|i: int| 0 <= i < c.len() implies #[trigger] t[i].contains(c[i]) by {
                if i < k - 1 {
                    assert(tp[i].contains(cp[i]));
                }
            }
            assert(is_choice(t, c));
        }
        if exists|c: Seq<Interval>| is_choice(t, c) && all_meet(c) && common(c) == x {
            let c = choose|c: Seq<Interval>| is_choice(t, c) && all_meet(c) && common(c) == x;
            let cp = c.drop_last();
            let a = c.last();
            assert(cp.push(a) =~= c);
            lemma_meet_step(cp, a);
            assert forall|i: int| 0 <= i < cp.len() implies #[trigger] tp[i].contains(cp[i]) by {
                assert(t[i].contains(c[i]));
            }
            lemma_fold_members(seqs, (k - 1) as nat, common(cp));
            assert(t[k - 1].contains(c[k - 1]));
            assert(f.contains(common(cp)) && s.contains(a));
        }
    }
}

/// An interval is in the common coverage of one or more sequences exactly
/// when it is the common part of one interval picked out of each sequence,
/// where every picked interval starts before each of the others ends.
pub proof fn lemma_intersect_all_members(seqs: Seq<Seq<Interval>>, x: Interval)
    requires
        seqs.len() >= 1,
    ensures
        intersect_all(seqs).contains(x) <==> exists|c: Seq<Interval>|
            is_choice(seqs, c) && all_meet(c) && common(c) == x,
{
    lemma_fold_members(seqs, seqs.len(), x);
    assert(seqs.take(seqs.len() as int) =~= seqs);
    if seqs.len() > 1 {
        let f = fold_prefix(seqs, seqs.len());
        lemma_sort_multiset(f);
        f.to_multiset_ensures();
        intersect_all(seqs).to_multiset_ensures();
        assert(f.to_multiset().count(x) == intersect_all(seqs).to_multiset().count(x));
    }
}

/// If any of the sequences is empty, the common coverage is empty.
pub proof fn lemma_empty_sequence_absorbs(seqs: Seq<Seq<Interval>>, e: int)
    requires
        0 <= e < seqs.len(),
        seqs[e].len() == 0,
    ensures
        intersect_all(seqs).len() == 0,
{
    let r = intersect_all(seqs);
    if r.len() > 0 {
        lemma_intersect_all_members(seqs, r[0]);
        assert(r.contains(r[0]));
        let c = choose|c: Seq<Interval>| is_choice(seqs, c) && all_meet(c) && common(c) == r[0];
        assert(seqs[e].contains(c[e]));
    }
}

/// Two or more sequences whose coverages pairwise share no instant have an
/// empty common coverage.
pub proof fn lemma_disjoint_sequences(seqs: Seq<Seq<Interval>>)
    requires
        seqs.len() >= 2,
        forall|i: int, j: int, a: Interval, b: Interval|
            0 <= i < seqs.len() && 0 <= j < seqs.len() && i != j && #[trigger] seqs[i].contains(a)
                && #[trigger] seqs[j].contains(b) ==> !a.overlaps(b),
    ensures
        intersect_all(seqs).len() == 0,
{
    let r = intersect_all(seqs);
    if r.len() > 0 {
        lemma_intersect_all_members(seqs, r[0]);
        assert(r.contains(r[0]));
        let c = choose|c: Seq<Interval>| is_choice(seqs, c) && all_meet(c) && common(c) == r[0];
        assert(seqs[0].contains(c[0]));
        assert(seqs[1].contains(c[1]));
        assert(c[0].start < c[1].end && c[1].start < c[0].end);
    }
}

/// Reordering the choice by `perm` keeps the common part and keeps all of
/// the intervals meeting.
proof fn lemma_permuted_choice(
    seqs1: Seq<Seq<Interval>>,
    seqs2: Seq<Seq<Interval>>,
    perm: Seq<int>,
    c: Seq<Interval>,
)
    requires
        seqs1.len() >= 1,
        seqs2.len() == seqs1.len(),
        is_permutation(perm, seqs1.len() as int),
        forall|i: int| 0 <= i < seqs2.len() ==> #[trigger] seqs2[i] == seqs1[perm[i]],
        is_choice(seqs1, c),
        all_meet(c),
    ensures
        is_choice(seqs2, Seq::new(c.len(), |i: int| c[perm[i]])),
        all_meet(Seq::new(c.len(), |i: int| c[perm[i]])),
        common(Seq::new(c.len(), |i: int| c[perm[i]])) == common(c),
{
    let n = c.len() as int;
    let d = Seq::new(c.len(), |i: int| c[perm[i]]);
    assert forall|i: int| 0 <= i < n implies #[trigger] seqs2[i].contains(d[i]) by {
        assert(seqs1[perm[i]].contains(c[perm[i]]));
    }
    assert forall|i: int, j: int| 0 <= i < n && 0 <= j < n && i != j implies #[trigger] d[i].start
        < #[trigger] d[j].end by {
        assert(perm[i] != perm[j]);
        assert(c[perm[i]].start < c[perm[j]].end);
    }
    lemma_common_bounds(c);
    lemma_common_bounds(d);
    let is = choose|i: int| 0 <= i < n && common(c).start == #[trigger] c[i].start;
    let ie = choose|i: int| 0 <= i < n && common(c).end == #[trigger] c[i].end;
    let ds = choose|i: int| 0 <= i < n && common(d).start == #[trigger] d[i].start;
    let de = choose|i: int| 0 <= i < n && common(d).end == #[trigger] d[i].end;
    assert(is_hit(perm, n, is));
    assert(is_hit(perm, n, ie));
    let ps = choose|i: int| 0 <= i < n && #[trigger] perm[i] == is;
    let pe = choose|i: int| 0 <= i < n && #[trigger] perm[i] == ie;
    assert(d[ps].start == c[is].start);
    assert(d[pe].end == c[ie].end);
    assert(c[perm[ds]].start == d[ds].start);
    assert(c[perm[de]].end == d[de].end);
}

/// One direction of commutativity: what the first order gives, the second
/// gives too.
proof fn lemma_permuted_members(
    seqs1: Seq<Seq<Interval>>,
    seqs2: Seq<Seq<Interval>>,
    perm: Seq<int>,
    x: Interval,
)
    requires
        seqs1.len() >= 1,
        seqs2.len() == seqs1.len(),
        is_permutation(perm, seqs1.len() as int),
        forall|i: int| 0 <= i < seqs2.len() ==> #[trigger] seqs2[i] == seqs1[perm[i]],
        intersect_all(seqs1).contains(x),
    ensures
        intersect_all(seqs2).contains(x),
{
    lemma_intersect_all_members(seqs1, x);
    lemma_intersect_all_members(seqs2, x);
    let c = choose|c: Seq<Interval>| is_choice(seqs1, c) && all_meet(c) && common(c) == x;
    lemma_permuted_choice(seqs1, seqs2, perm, c);
    let d = Seq::new(c.len(), |i: int| c[perm[i]]);
    assert(is_choice(seqs2, d) && all_meet(d) && common(d) == x);
}

/// The order of the sequences does not change which intervals make up the
/// common coverage: for every permutation of the list, an interval is in the
/// result of one order exactly when it is in the result of the other.
pub proof fn lemma_commutative(
    seqs1: Seq<Seq<Interval>>,
    seqs2: Seq<Seq<Interval>>,
    perm: Seq<int>,
    x: Interval,
)
    requires
        seqs2.len() == seqs1.len(),
        is_permutation(perm, seqs1.len() as int),
        forall|i: int| 0 <= i < seqs2.len() ==> #[trigger] seqs2[i] == seqs1[perm[i]],
    ensures
        intersect_all(seqs1).contains(x) <==> intersect_all(seqs2).contains(x),
{
    let n = seqs1.len() as int;
    if n >= 1 {
        let inv = Seq::new(n as nat, |j: int| choose|i: int| 0 <= i < n && perm[i] == j);
        assert forall|j: int| 0 <= j < n implies 0 <= #[trigger] inv[j] < n && perm[inv[j]] == j by {
            assert(is_hit(perm, n, j));
        }
        assert forall|i: int| 0 <= i < n implies #[trigger] is_hit(inv, n, i) by {
            let j = perm[i];
            assert(perm[inv[j]] == j);
            assert(inv[j] == i);
        }
        assert forall|i: int| 0 <= i < n implies #[trigger] seqs1[i] == seqs2[inv[i]] by {
            assert(perm[inv[i]] == i);
        }
        assert(is_permutation(inv, n));
        if intersect_all(seqs1).contains(x) {
            lemma_permuted_members(seqs1, seqs2, perm, x);
        }
        if intersect_all(seqs2).contains(x) {
            lemma_permuted_members(seqs2, seqs1, inv, x);
        }
    }
}

/// Where only `s[i]` shares an instant with `r`, the overlaps of `r` with
/// the first `m` intervals of `s` are its overlap with `s[i]` once `m` passes
/// `i`, and none before.
proof fn lemma_single_overlap(r: Interval, s: Seq<Interval>, i: int, m: int)
    requires
        0 <= i < s.len(),
        0 <= m <= s.len(),
        r.overlaps(s[i]),
        forall|k: int| 0 <= k < s.len() && k != i ==> !r.overlaps(#[trigger] s[k]),
    ensures
        overlaps_with(r, s.take(m)) == (if m > i {
            seq![r.overlap(s[i])]
        } else {
            Seq::<Interval>::empty()
        }),
    decreases m,
{
    if m > 0 {
        lemma_single_overlap(r, s, i, m - 1);
        assert(s.take(m).drop_last() =~= s.take(m - 1));
        assert(s.take(m).last() == s[m - 1]);
        if m - 1 == i {
            assert(Seq::<Interval>::empty().push(r.overlap(s[i])) =~= seq![r.overlap(s[i])]);
        }
    } else {
        assert(s.take(0) =~= Seq::<Interval>::empty());
    }
}

/// A step against itself gives back a sequence of non-empty intervals that
/// pairwise share no instant.
proof fn lemma_self_step(s: Seq<Interval>, m: int)
    requires
        0 <= m <= s.len(),
        forall|i: int| 0 <= i < s.len() ==> #[trigger] s[i].start < s[i].end,
        forall|i: int, j: int|
            0 <= i < s.len() && 0 <= j < s.len() && i != j ==> !(#[trigger] s[i]).overlaps(
                #[trigger] s[j],
            ),
    ensures
        intersect_pair(s.take(m), s) == s.take(m),
    decreases m,
{
    if m > 0 {
        lemma_self_step(s, m - 1);
        let r = s[m - 1];
        assert(s.take(m).drop_last() =~= s.take(m - 1));
        assert(s.take(m).last() == r);
        assert(r.overlap(r) == r);
        lemma_single_overlap(r, s, m - 1, s.len() as int);
        assert(s.take(s.len() as int) =~= s);
        assert(s.take(m - 1) + seq![r] =~= s.take(m));
    } else {
        assert(s.take(0) =~= Seq::<Interval>::empty());
    }
}

/// A sorted sequence of non-empty intervals, no two of which share an
/// instant, is its own common coverage when given three times.
pub proof fn lemma_idempotent(s: Seq<Interval>)
    requires
        sorted_by_start(s),
        forall|i: int| 0 <= i < s.len() ==> #[trigger] s[i].start < s[i].end,
        forall|i: int, j: int|
            0 <= i < s.len() && 0 <= j < s.len() && i != j ==> !(#[trigger] s[i]).overlaps(
                #[trigger] s[j],
            ),
    ensures
        intersect_all(seq![s, s, s]) == s,
{
    let seqs = seq![s, s, s];
    lemma_self_step(s, s.len() as int);
    assert(s.take(s.len() as int) =~= s);
    assert(fold_prefix(seqs, 1) == s);
    assert(fold_prefix(seqs, 2) == s);
    assert(fold_prefix(seqs, 3) == s);
    lemma_sort_sorted(s);
}

} // verus!
