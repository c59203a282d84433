use crate::interval::Interval;
use crate::interval_sequence::{sort_by_start, sorted_by_start, IntervalsSequence};
use vstd::prelude::*;

verus! {

/// The overlaps of `r` with each interval of `s` that shares an instant with
/// it, in the order of `s`.
pub open spec fn overlaps_with(r: Interval, s: Seq<Interval>) -> Seq<Interval>
    decreases s.len(),
{
    if s.len() == 0 {
        Seq::empty()
    } else {
        let rest = overlaps_with(r, s.drop_last());
        if r.overlaps(s.last()) {
            rest.push(r.overlap(s.last()))
        } else {
            rest
        }
    }
}

/// One step of the reduction: for each interval of `run` in turn, its
/// overlaps with the intervals of `s`.
pub open spec fn intersect_pair(run: Seq<Interval>, s: Seq<Interval>) -> Seq<Interval>
    decreases run.len(),
{
    if run.len() == 0 {
        Seq::empty()
    } else {
        intersect_pair(run.drop_last(), s) + overlaps_with(run.last(), s)
    }
}

/// The running result after the first `k` sequences have been folded, for
/// `k >= 1`.
pub open spec fn fold_prefix(seqs: Seq<Seq<Interval>>, k: nat) -> Seq<Interval>
    decreases k,
{
    if k <= 1 {
        seqs[0]
    } else {
        intersect_pair(fold_prefix(seqs, (k - 1) as nat), seqs[k - 1])
    }
}

/// The common coverage of the sequences: empty for no sequence, the sequence
/// itself for one, and otherwise the folded result sorted by start.
pub open spec fn intersect_all(seqs: Seq<Seq<Interval>>) -> Seq<Interval> {
    if seqs.len() == 0 {
        Seq::empty()
    } else if seqs.len() == 1 {
        seqs[0]
    } else {
        sort_by_start(fold_prefix(seqs, seqs.len()))
    }
}

/// The intervals of each sequence.
pub open spec fn views(seqs: Seq<IntervalsSequence>) -> Seq<Seq<Interval>> {
    seqs.map_values(|s: IntervalsSequence| s@)
}

/// Past index `j`, no interval of `s` shares an instant with `r`.
proof fn lemma_overlaps_prefix(r: Interval, s: Seq<Interval>, j: int)
    requires
        0 <= j <= s.len(),
        forall|m: int| j <= m < s.len() ==> !r.overlaps(#[trigger] s[m]),
    ensures
        overlaps_with(r, s) == overlaps_with(r, s.take(j)),
    decreases s.len() - j,
{
    if j < s.len() {
        lemma_overlaps_prefix(r, s, j + 1);
        assert(s.take(j + 1).drop_last() =~= s.take(j));
    } else {
        assert(s.take(j) =~= s);
    }
}

/// The intervals covered at once by one interval of every sequence.
///
/// With no sequence the result is empty; with one it is that sequence.
/// Otherwise the result is built pairwise, from the first sequence onward,
/// and then sorted by start.
pub fn intersects_intervals_sequences(sequences: &Vec<IntervalsSequence>) -> (r:
    IntervalsSequence)
    ensures
        r@ == intersect_all(views(sequences@)),
        sorted_by_start(r@),
        sequences.len() == 0 ==> r@.len() == 0,
        sequences.len() == 1 ==> r@ == sequences[0]@,
{
    if sequences.len() == 0 {
        return IntervalsSequence::new(Vec::new());
    }
    if sequences.len() == 1 {
        return sequences[0].clone();
    }
    let ghost vs = views(sequences@);
    let mut result_sequence: Vec<Interval> = sequences[0].get_intervals().clone();
    assert(result_sequence@ =~= fold_prefix(vs, 1));
    let mut k: usize = 1;
    while k < sequences.len()
        invariant
            1 <= k <= sequences.len(),
            vs == views(sequences@),
            result_sequence@ == fold_prefix(vs, k as nat),
        decreases sequences.len() - k,
    {
        let second = sequences[k].get_intervals();
        let mut result_intervals: Vec<Interval> = Vec::new();
        let mut i: usize = 0;
        assert(result_sequence@.take(0) =~= Seq::<Interval>::empty());
        while i < result_sequence.len()
            invariant
                i <= result_sequence.len(),
                sorted_by_start(second@),
                result_intervals@ == intersect_pair(result_sequence@.take(i as int), second@),
            decreases result_sequence.len() - i,
        {
            let first = result_sequence[i];
            let mut j: usize = 0;
            assert(second@.take(0) =~= Seq::<Interval>::empty());
            assert(result_intervals@ =~= intersect_pair(result_sequence@.take(i as int), second@)
                + overlaps_with(first, second@.take(0)));
            assert(second@.take(second@.len() as int) =~= second@);
            while j < second.len()
                invariant
                    j <= second.len(),
                    second@.take(second@.len() as int) == second@,
                    sorted_by_start(second@),
                    result_intervals@ == intersect_pair(result_sequence@.take(i as int), second@)
                        + overlaps_with(first, second@.take(j as int)),
                ensures
                    result_intervals@ == intersect_pair(result_sequence@.take(i as int), second@)
                        + overlaps_with(first, second@),
                decreases second.len() - j,
            {
                let candidate = second[j];
                assert(second@.take(j + 1).drop_last() =~= second@.take(j as int));
                if candidate.end <= first.start {
                    // ends before `first` starts: this one is skipped
                    j += 1;
                    continue;
                }
                if candidate.start >= first.end {
                    // this one and all later ones start after `first` ends
                    proof {
                        lemma_overlaps_prefix(first, second@, j as int);
                    }
                    break;
                }
                if first.is_intersects_with(&candidate) {
                    if let Ok(common) = first.intersects_with(&candidate) {
                        result_intervals.push(common);
                    }
                }
                j += 1;
            }
            proof {
                assert(result_sequence@.take(i + 1).drop_last() =~= result_sequence@.take(
                    i as int,
                ));
            }
            i += 1;
        }
        assert(result_sequence@.take(result_sequence@.len() as int) =~= result_sequence@);
        result_sequence = result_intervals;
        k += 1;
    }
    IntervalsSequence::new(result_sequence)
}

} // verus!
