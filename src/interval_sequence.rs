use crate::interval::Interval;
use vstd::multiset::Multiset;
use vstd::prelude::*;

verus! {

/// Every interval starts no earlier than those before it.
pub open spec fn sorted_by_start(s: Seq<Interval>) -> bool {
    forall|i: int, j: int| 0 <= i <= j < s.len() ==> s[i].start <= s[j].start
}

/// `s` with `x` placed after every interval whose start is not later than
/// that of `x`, counted from the back.
pub open spec fn insert_by_start(s: Seq<Interval>, x: Interval) -> Seq<Interval>
    decreases s.len(),
{
    if s.len() > 0 && x.start < s.last().start {
        insert_by_start(s.drop_last(), x).push(s.last())
    } else {
        s.push(x)
    }
}

/// The stable sort of `s` by start: intervals with equal starts keep their
/// relative order.
pub open spec fn sort_by_start(s: Seq<Interval>) -> Seq<Interval>
    decreases s.len(),
{
    if s.len() == 0 {
        s
    } else {
        insert_by_start(sort_by_start(s.drop_last()), s.last())
    }
}

/// Inserting at the position that follows the last interval with a start
/// not later than that of `x` is what `insert_by_start` does.
proof fn lemma_insert_at(s: Seq<Interval>, x: Interval, j: int)
    requires
        0 <= j <= s.len(),
        forall|k: int| j <= k < s.len() ==> s[k].start > x.start,
        j == 0 || s[j - 1].start <= x.start,
    ensures
        insert_by_start(s, x) == s.insert(j, x),
    decreases s.len(),
{
    if j == s.len() {
        assert(s.push(x) =~= s.insert(j, x));
    } else {
        lemma_insert_at(s.drop_last(), x, j);
        assert(s.drop_last().insert(j, x).push(s.last()) =~= s.insert(j, x));
    }
}

/// Inserting adds `x` to what `s` holds.
proof fn lemma_insert_multiset(s: Seq<Interval>, x: Interval)
    ensures
        insert_by_start(s, x).to_multiset() == s.to_multiset().insert(x),
    decreases s.len(),
{
    s.to_multiset_ensures();
    if s.len() > 0 && x.start < s.last().start {
        let d = s.drop_last();
        lemma_insert_multiset(d, x);
        insert_by_start(d, x).to_multiset_ensures();
        d.to_multiset_ensures();
        assert(d.push(s.last()) =~= s);
        assert(insert_by_start(s, x).to_multiset() =~= s.to_multiset().insert(x));
    }
}

/// Sorting keeps every interval, as many times as it occurs.
pub proof fn lemma_sort_multiset(s: Seq<Interval>)
    ensures
        sort_by_start(s).to_multiset() == s.to_multiset(),
    decreases s.len(),
{
    s.to_multiset_ensures();
    if s.len() > 0 {
        let d = s.drop_last();
        lemma_sort_multiset(d);
        lemma_insert_multiset(sort_by_start(d), s.last());
        d.to_multiset_ensures();
        assert(d.push(s.last()) =~= s);
    } else {
        assert(s.to_multiset() =~= Multiset::empty());
    }
}

/// Sorting a sequence that is already sorted leaves it as it is.
pub proof fn lemma_sort_sorted(s: Seq<Interval>)
    requires
        sorted_by_start(s),
    ensures
        sort_by_start(s) == s,
    decreases s.len(),
{
    if s.len() > 0 {
        lemma_sort_sorted(s.drop_last());
        assert(s.drop_last().push(s.last()) =~= s);
    }
}

/// A start-sorted sequence of intervals. Overlaps inside one sequence are
/// allowed.
#[derive(Debug)]
pub struct IntervalsSequence {
    intervals: Vec<Interval>,
}

impl View for IntervalsSequence {
    type V = Seq<Interval>;

    closed spec fn view(&self) -> Seq<Interval> {
        self.intervals@
    }
}

impl IntervalsSequence {
    #[verifier::type_invariant]
    spec fn is_sorted(&self) -> bool {
        sorted_by_start(self.intervals@)
    }

    /// The sequence of the given intervals, stably sorted by start.
    pub fn new(intervals: Vec<Interval>) -> (r: IntervalsSequence)
        ensures
            r@ == sort_by_start(intervals@),
            sorted_by_start(r@),
            r@.to_multiset() == intervals@.to_multiset(),
    {
        let mut sorted: Vec<Interval> = Vec::new();
        let n = intervals.len();
        let mut i: usize = 0;
        assert(sorted@ =~= intervals@.take(0));
        while i < n
            invariant
                n == intervals.len(),
                i <= n,
                sorted@ == sort_by_start(intervals@.take(i as int)),
                sorted_by_start(sorted@),
                sorted@.to_multiset() == intervals@.take(i as int).to_multiset(),
            decreases n - i,
        {
            let x = intervals[i];
            let mut j: usize = sorted.len();
            while j > 0 && sorted[j - 1].start > x.start
                invariant
                    j <= sorted.len(),
                    forall|k: int| j <= k < sorted.len() ==> sorted[k].start > x.start,
                decreases j,
            {
                j -= 1;
            }
            let ghost before = sorted@;
            proof {
                lemma_insert_at(before, x, j as int);
                assert(intervals@.take(i + 1).drop_last() =~= intervals@.take(i as int));
                assert(intervals@.take(i + 1).last() == x);
                assert(before =~= before.take(j as int) + before.skip(j as int));
                assert(before.insert(j as int, x) =~= before.take(j as int) + seq![x]
                    + before.skip(j as int));
                vstd::seq_lib::lemma_multiset_commutative(before.take(j as int), before.skip(j as int));
                vstd::seq_lib::lemma_multiset_commutative(before.take(j as int) + seq![x], before.skip(j as int));
                vstd::seq_lib::lemma_multiset_commutative(before.take(j as int), seq![x]);
                assert(intervals@.take(i + 1) =~= intervals@.take(i as int).push(x));
                intervals@.take(i as int).to_multiset_ensures();
                seq![x].to_multiset_ensures();
                Seq::<Interval>::empty().to_multiset_ensures();
                assert(seq![x] =~= Seq::<Interval>::empty().push(x));
            }
            sorted.insert(j, x);
            i += 1;
        }
        assert(intervals@.take(n as int) =~= intervals@);
        IntervalsSequence { intervals: sorted }
    }

    /// The intervals, sorted by start.
    pub fn get_intervals(&self) -> (r: &Vec<Interval>)
        ensures
            r@ == self@,
            sorted_by_start(r@),
    {
        proof {
            use_type_invariant(self);
        }
        &self.intervals
    }
}

impl Clone for IntervalsSequence {
    fn clone(&self) -> (r: Self)
        ensures
            r@ == self@,
            sorted_by_start(r@),
    {
        proof {
            use_type_invariant(self);
        }
        let intervals = self.intervals.clone();
        assert(intervals@ =~= self.intervals@);
        IntervalsSequence { intervals }
    }
}

impl PartialEq for IntervalsSequence {
    fn eq(&self, other: &IntervalsSequence) -> (r: bool)
        ensures
            r == (self@ == other@),
    {
        if self.intervals.len() != other.intervals.len() {
            return false;
        }
        let mut i: usize = 0;
        while i < self.intervals.len()
            invariant
                self.intervals.len() == other.intervals.len(),
                i <= self.intervals.len(),
                forall|k: int| 0 <= k < i ==> self.intervals[k] == other.intervals[k],
            decreases self.intervals.len() - i,
        {
            if self.intervals[i] != other.intervals[i] {
                return false;
            }
            i += 1;
        }
        assert(self@ =~= other@);
        true
    }
}

impl vstd::std_specs::cmp::PartialEqSpecImpl for IntervalsSequence {
    open spec fn obeys_eq_spec() -> bool {
        true
    }

    open spec fn eq_spec(&self, other: &IntervalsSequence) -> bool {
        self@ == other@
    }
}

} // verus!
