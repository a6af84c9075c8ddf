//! Text helpers: durations, dates, decimals, and the status-store
//! update expression.

use drivetrain::status::{
    build_update_expression, phase_status_label, sync_status_label, PhaseStatus,
    SyncStatus,
};
use drivetrain::text::{format_elapsed_time, parse_iso_date, u64_to_dec};

#[test]
fn elapsed_time_formats() {
    assert_eq!(format_elapsed_time(0), "0s");
    assert_eq!(format_elapsed_time(59), "59s");
    assert_eq!(format_elapsed_time(60), "1m0s");
    assert_eq!(format_elapsed_time(61), "1m1s");
    assert_eq!(format_elapsed_time(3600), "1h0m0s");
    assert_eq!(format_elapsed_time(3661), "1h1m1s");
    assert_eq!(format_elapsed_time(7325), "2h2m5s");
}

#[test]
fn iso_date_prefix() {
    assert_eq!(parse_iso_date("2024-05-01T07:30:00"), "2024-05-01");
    assert_eq!(parse_iso_date("2024-05-01"), "2024-05-01");
    assert_eq!(parse_iso_date(""), "");
    assert_eq!(parse_iso_date("T"), "");
}

#[test]
fn decimal_rendering() {
    assert_eq!(u64_to_dec(0), "0");
    assert_eq!(u64_to_dec(7), "7");
    assert_eq!(u64_to_dec(1234567890), "1234567890");
    assert_eq!(u64_to_dec(u64::MAX), "18446744073709551615");
}

#[test]
fn status_labels() {
    assert_eq!(sync_status_label(&SyncStatus::Queued), "queued");
    assert_eq!(sync_status_label(&SyncStatus::InProgress), "in_progress");
    assert_eq!(sync_status_label(&SyncStatus::Completed), "completed");
    assert_eq!(sync_status_label(&SyncStatus::Failed), "failed");
    assert_eq!(phase_status_label(&PhaseStatus::Pending), "pending");
    assert_eq!(phase_status_label(&PhaseStatus::InProgress), "in_progress");
}

#[test]
fn update_expression_numbers_placeholders() {
    let paths = vec![String::from("status"), String::from("startedAt")];
    assert_eq!(
        build_update_expression(&paths),
        "SET status = :val0, startedAt = :val1"
    );
    let one = vec![String::from("phases.analyzing.status")];
    assert_eq!(
        build_update_expression(&one),
        "SET phases.analyzing.status = :val0"
    );
}
