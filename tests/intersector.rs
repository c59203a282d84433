use chrono::NaiveDate;
use interval_intersector::{intersects_intervals_sequences, Instant, Interval, IntervalsSequence};

fn utc_day(year: i32, month: u32, day: u32) -> Instant {
    NaiveDate::from_ymd_opt(year, month, day)
        .unwrap()
        .and_hms_opt(0, 0, 0)
        .unwrap()
        .and_utc()
        .timestamp()
}

fn days(from: (i32, u32, u32), to: (i32, u32, u32)) -> Interval {
    Interval {
        start: utc_day(from.0, from.1, from.2),
        end: utc_day(to.0, to.1, to.2),
    }
}

fn iv(start: i64, end: i64) -> Interval {
    Interval { start, end }
}

#[test]
fn test_intersects_intervals_sequences_empty() {
    let sequences: Vec<IntervalsSequence> = Vec::new();
    let result = intersects_intervals_sequences(&sequences);
    assert_eq!(result.get_intervals().len(), 0);
}

#[test]
fn test_intersects_intervals_sequences_one_seq() {
    let seq = IntervalsSequence::new(vec![
        days((2000, 01, 01), (2000, 01, 03)),
        days((2000, 01, 03), (2000, 01, 05)),
    ]);
    let expected_seq = seq.clone();
    let sequences = vec![seq];

    let result = intersects_intervals_sequences(&sequences);
    assert_eq!(result, expected_seq);
}

#[test]
fn test_intersects_intervals_sequences_identical() {
    let seq_1 = IntervalsSequence::new(vec![
        days((2000, 01, 01), (2000, 01, 10)),
        days((2000, 01, 20), (2000, 01, 30)),
    ]);
    let seq_2 = seq_1.clone();
    let seq_3 = seq_1.clone();
    let expected_seq = seq_1.clone();

    let result = intersects_intervals_sequences(&vec![seq_1, seq_2, seq_3]);
    assert_eq!(result, expected_seq,);
}

#[test]
fn test_intersects_intervals_sequence_one_of_is_empty() {
    let seq_1 = IntervalsSequence::new(vec![
        days((2000, 01, 01), (2000, 01, 10)),
        days((2000, 01, 20), (2000, 01, 30)),
    ]);
    let seq_2 = IntervalsSequence::new(Vec::new());
    let seq_3 = seq_1.clone();
    let expected_seq = seq_2.clone();

    let result = intersects_intervals_sequences(&vec![seq_1, seq_2, seq_3]);
    assert_eq!(result, expected_seq);
}

#[test]
fn test_intersects_intervals_sequences_no_intersection() {
    let seq_1 = IntervalsSequence::new(vec![
        days((2000, 01, 01), (2000, 01, 10)),
        days((2000, 01, 20), (2000, 01, 30)),
    ]);
    let seq_2 = IntervalsSequence::new(vec![
        days((2000, 01, 10), (2000, 01, 10)),
        days((2000, 02, 01), (2000, 02, 10)),
    ]);
    let seq_3 = IntervalsSequence::new(vec![
        seq_1.get_intervals()[0].clone(),
        seq_2.get_intervals()[1].clone(),
    ]);

    let expected_seq = IntervalsSequence::new(Vec::new());

    let result = intersects_intervals_sequences(&vec![seq_1, seq_2, seq_3]);
    assert_eq!(result, expected_seq);
}

// 01-05 10-17 20-25
// 01-15 16-18 21-30
// 02-10 15-30
// 02-05 16-17 21-25
#[test]
fn test_intersects_intervals_sequences() {
    let seq_1 = IntervalsSequence::new(vec![
        days((2000, 01, 01), (2000, 01, 05)),
        days((2000, 01, 10), (2000, 01, 17)),
        days((2000, 01, 20), (2000, 01, 25)),
    ]);
    let seq_2 = IntervalsSequence::new(vec![
        days((2000, 01, 01), (2000, 01, 15)),
        days((2000, 01, 16), (2000, 01, 18)),
        days((2000, 01, 21), (2000, 01, 30)),
    ]);
    let seq_3 = IntervalsSequence::new(vec![
        days((2000, 01, 02), (2000, 01, 10)),
        days((2000, 01, 15), (2000, 01, 30)),
    ]);

    let expected_seq = IntervalsSequence::new(vec![
        days((2000, 01, 02), (2000, 01, 05)),
        days((2000, 01, 16), (2000, 01, 17)),
        days((2000, 01, 21), (2000, 01, 25)),
    ]);

    let result = intersects_intervals_sequences(&vec![seq_1, seq_2, seq_3]);
    assert_eq!(result, expected_seq);
}

#[test]
fn new_sorts_by_start_and_keeps_ties_in_order() {
    let seq = IntervalsSequence::new(vec![iv(5, 6), iv(1, 9), iv(3, 4), iv(1, 2), iv(3, 3)]);
    assert_eq!(
        seq.get_intervals(),
        &vec![iv(1, 9), iv(1, 2), iv(3, 4), iv(3, 3), iv(5, 6)]
    );
}

#[test]
fn new_of_nothing_is_empty() {
    let seq = IntervalsSequence::new(Vec::new());
    assert!(seq.get_intervals().is_empty());
}

#[test]
fn single_unsorted_sequence_comes_back_sorted() {
    let seq = IntervalsSequence::new(vec![iv(20, 30), iv(0, 10), iv(5, 25)]);
    let result = intersects_intervals_sequences(&vec![seq]);
    assert_eq!(result.get_intervals(), &vec![iv(0, 10), iv(5, 25), iv(20, 30)]);
}

#[test]
fn touching_sequences_give_nothing() {
    let a = IntervalsSequence::new(vec![iv(1, 3)]);
    let b = IntervalsSequence::new(vec![iv(3, 5)]);
    let result = intersects_intervals_sequences(&vec![a, b]);
    assert!(result.get_intervals().is_empty());
}

#[test]
fn pairwise_disjoint_sequences_give_nothing() {
    let a = IntervalsSequence::new(vec![iv(0, 2), iv(10, 12)]);
    let b = IntervalsSequence::new(vec![iv(3, 5), iv(13, 15)]);
    let c = IntervalsSequence::new(vec![iv(6, 9), iv(16, 20)]);
    let result = intersects_intervals_sequences(&vec![a, b, c]);
    assert!(result.get_intervals().is_empty());
}

#[test]
fn empty_sequence_anywhere_absorbs() {
    let full = IntervalsSequence::new(vec![iv(0, 100)]);
    let empty = IntervalsSequence::new(Vec::new());
    for order in [
        vec![empty.clone(), full.clone(), full.clone()],
        vec![full.clone(), empty.clone(), full.clone()],
        vec![full.clone(), full.clone(), empty.clone()],
    ] {
        assert!(intersects_intervals_sequences(&order).get_intervals().is_empty());
    }
}

#[test]
fn every_order_of_the_worked_example_agrees() {
    let s1 = IntervalsSequence::new(vec![iv(1, 5), iv(10, 17), iv(20, 25)]);
    let s2 = IntervalsSequence::new(vec![iv(1, 15), iv(16, 18), iv(21, 30)]);
    let s3 = IntervalsSequence::new(vec![iv(2, 10), iv(15, 30)]);
    let expected = vec![iv(2, 5), iv(16, 17), iv(21, 25)];
    let orders = [
        vec![s1.clone(), s2.clone(), s3.clone()],
        vec![s1.clone(), s3.clone(), s2.clone()],
        vec![s2.clone(), s1.clone(), s3.clone()],
        vec![s2.clone(), s3.clone(), s1.clone()],
        vec![s3.clone(), s1.clone(), s2.clone()],
        vec![s3.clone(), s2.clone(), s1.clone()],
    ];
    for order in orders.iter() {
        assert_eq!(intersects_intervals_sequences(order).get_intervals(), &expected);
    }
}

#[test]
fn overlapping_intervals_in_one_sequence_each_count() {
    let a = IntervalsSequence::new(vec![iv(0, 10), iv(5, 15)]);
    let b = IntervalsSequence::new(vec![iv(8, 12)]);
    let result = intersects_intervals_sequences(&vec![a, b]);
    assert_eq!(result.get_intervals(), &vec![iv(8, 10), iv(8, 12)]);
}

#[test]
fn a_long_interval_meets_several_short_ones() {
    let long = IntervalsSequence::new(vec![iv(0, 100)]);
    let short = IntervalsSequence::new(vec![iv(90, 110), iv(-5, 5), iv(40, 60)]);
    let result = intersects_intervals_sequences(&vec![long, short]);
    assert_eq!(result.get_intervals(), &vec![iv(0, 5), iv(40, 60), iv(90, 100)]);
}

#[test]
fn extreme_instants_are_handled() {
    let a = IntervalsSequence::new(vec![iv(i64::MIN, i64::MAX)]);
    let b = IntervalsSequence::new(vec![iv(i64::MIN, 0), iv(1, i64::MAX)]);
    let result = intersects_intervals_sequences(&vec![a, b]);
    assert_eq!(result.get_intervals(), &vec![iv(i64::MIN, 0), iv(1, i64::MAX)]);
}
