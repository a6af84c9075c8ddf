//! The fingerprint: stability, format, and sensitivity to exactly the
//! five documented fields.

use drivetrain::activity::Activity;

fn base_activity() -> Activity {
    Activity {
        id: String::from("i123"),
        name: String::from("Morning Ride"),
        start_date_local: String::from("2024-05-01T07:30:00"),
        activity_type: String::from("Ride"),
        elapsed_time: 3600,
        distance_bits: Some(25000.0f64.to_bits()),
    }
}

#[test]
fn fingerprint_is_deterministic() {
    let a = base_activity();
    let b = base_activity();
    assert_eq!(a.compute_hash(), b.compute_hash());
}

#[test]
fn fingerprint_is_sixteen_lowercase_hex_chars() {
    let h = base_activity().compute_hash();
    assert_eq!(h.len(), 16);
    assert!(h.chars().all(|c| c.is_ascii_hexdigit() && !c.is_ascii_uppercase()));
}

#[test]
fn fingerprint_changes_with_id() {
    let mut a = base_activity();
    a.id = String::from("i124");
    assert_ne!(a.compute_hash(), base_activity().compute_hash());
}

#[test]
fn fingerprint_changes_with_name() {
    let mut a = base_activity();
    a.name = String::from("Evening Ride");
    assert_ne!(a.compute_hash(), base_activity().compute_hash());
}

#[test]
fn fingerprint_changes_with_start_timestamp() {
    let mut a = base_activity();
    a.start_date_local = String::from("2024-05-01T07:30:01");
    assert_ne!(a.compute_hash(), base_activity().compute_hash());
}

#[test]
fn fingerprint_changes_with_elapsed_time() {
    let mut a = base_activity();
    a.elapsed_time = 3601;
    assert_ne!(a.compute_hash(), base_activity().compute_hash());
}

#[test]
fn fingerprint_changes_with_distance() {
    let mut a = base_activity();
    a.distance_bits = Some(25000.5f64.to_bits());
    assert_ne!(a.compute_hash(), base_activity().compute_hash());
}

#[test]
fn absent_distance_differs_from_zero() {
    let mut absent = base_activity();
    absent.distance_bits = None;
    let mut zero = base_activity();
    zero.distance_bits = Some(0.0f64.to_bits());
    assert_ne!(absent.compute_hash(), zero.compute_hash());
}

#[test]
fn fingerprint_ignores_activity_type() {
    let mut a = base_activity();
    a.activity_type = String::from("Run");
    assert_eq!(a.compute_hash(), base_activity().compute_hash());
}

#[test]
fn clone_matches_original_fingerprint() {
    let a = base_activity();
    assert_eq!(a.clone_activity().compute_hash(), a.compute_hash());
}
