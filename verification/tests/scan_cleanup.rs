use maclean::cleanup::{removal_is_success, tally_outcomes, RemovalOutcome};
use maclean::scan::{scan_total, sum_sizes, ScanError};

#[test]
fn scan_sums_the_observed_file_sizes() {
    let sizes = vec![100, 200, 300];
    assert_eq!(scan_total(true, true, &sizes), Ok(600));
    assert_eq!(scan_total(true, true, &vec![]), Ok(0));
}

#[test]
fn scan_rejects_missing_paths() {
    let sizes = vec![];
    assert_eq!(scan_total(false, false, &sizes), Err(ScanError::NotFound));
    // A missing path is reported as missing even before the directory test.
    assert_eq!(scan_total(false, true, &sizes), Err(ScanError::NotFound));
}

#[test]
fn scan_rejects_non_directories() {
    let sizes = vec![42];
    assert_eq!(scan_total(true, false, &sizes), Err(ScanError::NotADirectory));
}

#[test]
fn scanning_the_same_observations_twice_gives_the_same_total() {
    let sizes = vec![123, 456, 789, 1];
    let first = scan_total(true, true, &sizes);
    let second = scan_total(true, true, &sizes);
    assert_eq!(first, second);
    assert_eq!(sum_sizes(&sizes), sum_sizes(&sizes));
}

#[test]
fn scan_saturates_instead_of_overflowing() {
    let sizes = vec![u64::MAX, 1];
    assert_eq!(scan_total(true, true, &sizes), Ok(u64::MAX));
}

#[test]
fn missing_path_counts_as_successful_removal() {
    assert!(removal_is_success(&RemovalOutcome::Missing));
    assert!(removal_is_success(&RemovalOutcome::Removed));
    assert!(!removal_is_success(&RemovalOutcome::Failed));
}

#[test]
fn tally_counts_successes_and_failures() {
    let outcomes = vec![
        RemovalOutcome::Removed,
        RemovalOutcome::Missing,
        RemovalOutcome::Failed,
        RemovalOutcome::Removed,
        RemovalOutcome::Failed,
    ];
    assert_eq!(tally_outcomes(&outcomes), (3, 2));
}

#[test]
fn tally_continues_past_failures() {
    // A failure early in the batch does not stop the later entries from
    // being counted.
    let outcomes = vec![RemovalOutcome::Failed, RemovalOutcome::Removed, RemovalOutcome::Missing];
    assert_eq!(tally_outcomes(&outcomes), (2, 1));
    assert_eq!(tally_outcomes(&vec![]), (0, 0));
}
