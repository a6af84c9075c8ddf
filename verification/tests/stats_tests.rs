//! Run statistics: every outcome counted exactly once.

use drivetrain::activity::Activity;
use drivetrain::pipeline::{run_pipeline, FetchConversion};
use drivetrain::stats::{record_outcome, ActivityOutcome, DownloadStats};

fn activity(id: &str) -> Activity {
    Activity {
        id: String::from(id),
        name: String::from("Ride"),
        start_date_local: String::from("2024-05-01T07:30:00"),
        activity_type: String::from("Ride"),
        elapsed_time: 60,
        distance_bits: None,
    }
}

#[test]
fn new_stats_are_zero() {
    let s = DownloadStats::new();
    assert_eq!(s.downloaded, 0);
    assert_eq!(s.skipped_unchanged, 0);
    assert_eq!(s.downloaded_empty, 0);
    assert_eq!(s.failed, 0);
    assert_eq!(s.deleted, 0);
}

#[test]
fn each_outcome_moves_one_counter() {
    let mut s = DownloadStats::new();
    record_outcome(&mut s, &ActivityOutcome::Geometry);
    record_outcome(&mut s, &ActivityOutcome::Empty);
    record_outcome(&mut s, &ActivityOutcome::Empty);
    record_outcome(&mut s, &ActivityOutcome::Failed);
    assert_eq!(s.downloaded, 1);
    assert_eq!(s.downloaded_empty, 2);
    assert_eq!(s.failed, 1);
    assert_eq!(s.skipped_unchanged, 0);
}

#[test]
fn fifty_outcomes_sum_to_fifty() {
    // A mixed batch of fifty synthetic activities: the counters account
    // for every outcome, none lost, none doubled.
    let queued: Vec<Activity> = (0..50).map(|i| activity(&format!("a{i}"))).collect();
    let results: Vec<FetchConversion> = (0..50)
        .map(|i| match i % 3 {
            0 => FetchConversion::Track(String::from("{\"type\":\"LineString\"}")),
            1 => FetchConversion::NoUsableTrack,
            _ => FetchConversion::Failure,
        })
        .collect();
    let mut stats = DownloadStats::new();
    let staged = run_pipeline(&queued, &results, &mut stats);
    assert_eq!(stats.downloaded, 17);
    assert_eq!(stats.downloaded_empty, 17);
    assert_eq!(stats.failed, 16);
    assert_eq!(stats.downloaded + stats.downloaded_empty + stats.failed, 50);
    // Failures stage nothing; everything else stages exactly one artifact.
    assert_eq!(staged.len(), 34);
}
