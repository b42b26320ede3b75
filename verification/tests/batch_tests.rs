use harvest::batch::{batch_bounds, num_batches, percent_tenths, RunTally};
use harvest::outcome::UnitOutcome;

#[test]
fn batches_concatenate_to_original() {
    let work: Vec<u32> = vec![10, 11, 12, 13, 14];
    let bounds = batch_bounds(work.len(), 2);
    assert_eq!(bounds, vec![(0, 2), (2, 4), (4, 5)]);
    let mut rebuilt: Vec<u32> = Vec::new();
    for (start, end) in bounds {
        rebuilt.extend_from_slice(&work[start..end]);
    }
    assert_eq!(rebuilt, work);
}

#[test]
fn batch_sizes_capped() {
    let bounds = batch_bounds(7, 3);
    assert_eq!(bounds, vec![(0, 3), (3, 6), (6, 7)]);
    for (start, end) in bounds {
        assert!(end - start <= 3);
        assert!(end > start);
    }
}

#[test]
fn batch_count_formula() {
    assert_eq!(num_batches(0, 3), 0);
    assert_eq!(num_batches(1, 30), 1);
    assert_eq!(num_batches(5, 2), 3);
    assert_eq!(num_batches(6, 2), 3);
    assert_eq!(num_batches(30, 30), 1);
    assert_eq!(num_batches(31, 30), 2);
}

#[test]
fn empty_work_has_no_batches() {
    let bounds = batch_bounds(0, 8);
    assert!(bounds.is_empty());
}

#[test]
fn percentage_in_tenths() {
    assert_eq!(percent_tenths(1, 3), 333);
    assert_eq!(percent_tenths(2, 2), 1000);
    assert_eq!(percent_tenths(0, 5), 0);
    assert_eq!(percent_tenths(1, 2), 500);
}

#[test]
fn tally_counts_successes_and_attempts() {
    let mut tally = RunTally::new();
    let batch: Vec<UnitOutcome<u32>> = vec![
        UnitOutcome::Success { key: String::from("a"), payload: 1 },
        UnitOutcome::Failure { key: String::from("b"), reason: String::from("HTTP error: 500") },
        UnitOutcome::Success { key: String::from("c"), payload: 2 },
    ];
    tally.record_batch(&batch);
    assert_eq!(tally.attempted, 3);
    assert_eq!(tally.succeeded, 2);
    let batch2: Vec<UnitOutcome<u32>> = vec![UnitOutcome::Failure {
        key: String::from("d"),
        reason: String::from("Request error: x"),
    }];
    tally.record_batch(&batch2);
    assert_eq!(tally.attempted, 4);
    assert_eq!(tally.succeeded, 2);
}
