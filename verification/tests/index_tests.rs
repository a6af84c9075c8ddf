//! The change-detection index and the diff engine over it.

use drivetrain::activity::Activity;
use drivetrain::archive::{
    ActivityArchiveManager, ActivityIndex as ArchiveIndex, ActivityIndexEntry,
};
use drivetrain::index::ActivityIndex;
use drivetrain::plan::plan_sync;

fn activity(id: &str, name: &str) -> Activity {
    Activity {
        id: String::from(id),
        name: String::from(name),
        start_date_local: String::from("2024-05-01T07:30:00"),
        activity_type: String::from("Ride"),
        elapsed_time: 1800,
        distance_bits: Some(10000.0f64.to_bits()),
    }
}

#[test]
fn create_key_joins_id_and_hash() {
    assert_eq!(ActivityIndex::create_key("a1", "h1"), "a1:h1");
}

#[test]
fn new_empty_index_has_no_activities() {
    let index = ActivityIndex::new_empty(String::from("athlete"));
    assert_eq!(index.total_activities(), 0);
    assert_eq!(index.athlete_id, "athlete");
}

#[test]
fn insert_geojson_is_idempotent() {
    let mut index = ActivityIndex::new_empty(String::from("athlete"));
    index.insert_geojson("a1", "h1");
    index.insert_geojson("a1", "h1");
    index.insert_geojson("a2", "h2");
    assert_eq!(index.total_activities(), 2);
}

#[test]
fn insert_empty_is_idempotent() {
    let mut index = ActivityIndex::new_empty(String::from("athlete"));
    index.insert_empty("a1", "h1");
    index.insert_empty("a1", "h1");
    assert_eq!(index.total_activities(), 1);
}

#[test]
fn try_copy_hits_geometry_entry() {
    let a = activity("a1", "Ride one");
    let hash = a.compute_hash();
    let mut prior = ActivityIndex::new_empty(String::from("athlete"));
    prior.insert_geojson("a1", &hash);
    let mut target = ActivityIndex::new_empty(String::from("athlete"));
    assert!(prior.try_copy(&a, &mut target));
    assert_eq!(target.total_activities(), 1);
    assert!(target.has_geojson_key(&ActivityIndex::create_key("a1", &hash)));
}

#[test]
fn try_copy_hits_empty_entry() {
    let a = activity("a1", "Ride one");
    let hash = a.compute_hash();
    let mut prior = ActivityIndex::new_empty(String::from("athlete"));
    prior.insert_empty("a1", &hash);
    let mut target = ActivityIndex::new_empty(String::from("athlete"));
    assert!(prior.try_copy(&a, &mut target));
    assert_eq!(target.total_activities(), 1);
    assert!(!target.has_geojson_key(&ActivityIndex::create_key("a1", &hash)));
}

#[test]
fn try_copy_misses_changed_fingerprint() {
    let a = activity("a1", "Ride one");
    let hash = a.compute_hash();
    let mut prior = ActivityIndex::new_empty(String::from("athlete"));
    prior.insert_geojson("a1", &hash);
    let mut changed = activity("a1", "Renamed ride");
    changed.elapsed_time = 1801;
    let mut target = ActivityIndex::new_empty(String::from("athlete"));
    assert!(!prior.try_copy(&changed, &mut target));
    assert_eq!(target.total_activities(), 0);
}

#[test]
fn partition_counts_cover_catalog() {
    // Partition completeness over a mixed catalog: carried + queued = K,
    // and nothing lands on both sides.
    let catalog: Vec<Activity> = (0..10)
        .map(|i| activity(&format!("a{i}"), &format!("Ride {i}")))
        .collect();
    let mut prior = ActivityIndex::new_empty(String::from("athlete"));
    for a in catalog.iter().take(4) {
        prior.insert_geojson(&a.id, &a.compute_hash());
    }
    for a in catalog.iter().skip(4).take(3) {
        prior.insert_empty(&a.id, &a.compute_hash());
    }
    let mut carried = ActivityIndex::new_empty(String::from("athlete"));
    let queued = plan_sync(&catalog, &prior, &mut carried);
    assert_eq!(carried.total_activities(), 7);
    assert_eq!(queued.len(), 3);
    assert_eq!(carried.total_activities() + queued.len(), catalog.len());
    for q in &queued {
        let key = ActivityIndex::create_key(&q.id, &q.compute_hash());
        assert!(!carried.has_geojson_key(&key));
    }
}

#[test]
fn deletion_by_omission_drops_absent_activity() {
    // An activity in the prior index but not in the catalog never reaches
    // the new index.
    let gone = activity("gone", "Deleted ride");
    let kept = activity("kept", "Kept ride");
    let mut prior = ActivityIndex::new_empty(String::from("athlete"));
    prior.insert_geojson(&gone.id, &gone.compute_hash());
    prior.insert_geojson(&kept.id, &kept.compute_hash());
    let catalog = vec![kept.clone_activity()];
    let mut carried = ActivityIndex::new_empty(String::from("athlete"));
    let queued = plan_sync(&catalog, &prior, &mut carried);
    assert!(queued.is_empty());
    assert_eq!(carried.total_activities(), 1);
    let gone_key = ActivityIndex::create_key(&gone.id, &gone.compute_hash());
    assert!(!carried.has_geojson_key(&gone_key));
    assert!(carried.has_geojson_key(&ActivityIndex::create_key(
        &kept.id,
        &kept.compute_hash()
    )));
}

#[test]
fn fresh_start_queues_everything() {
    let catalog = vec![activity("a1", "One"), activity("a2", "Two")];
    let prior = ActivityIndex::new_empty(String::from("athlete"));
    let mut carried = ActivityIndex::new_empty(String::from("athlete"));
    let queued = plan_sync(&catalog, &prior, &mut carried);
    assert_eq!(queued.len(), 2);
    assert_eq!(carried.total_activities(), 0);
}

#[test]
fn archive_index_contains_activity_with_hash() {
    let index = ArchiveIndex {
        athlete_id: String::from("athlete"),
        last_updated: String::new(),
        entries: vec![ActivityIndexEntry {
            activity_id: String::from("a1"),
            activity_hash: String::from("h1"),
        }],
    };
    assert!(index.contains_activity_with_hash("a1", "h1"));
    assert!(!index.contains_activity_with_hash("a1", "h2"));
    assert!(!index.contains_activity_with_hash("a2", "h1"));
}

#[test]
fn archive_manager_reports_unchanged_activity() {
    let a = activity("a1", "Ride one");
    let index = ArchiveIndex {
        athlete_id: String::from("athlete"),
        last_updated: String::new(),
        entries: vec![ActivityIndexEntry {
            activity_id: String::from("a1"),
            activity_hash: a.compute_hash(),
        }],
    };
    assert!(ActivityArchiveManager::is_activity_unchanged(&index, &a));
    let mut changed = activity("a1", "Ride one");
    changed.elapsed_time = 9999;
    assert!(!ActivityArchiveManager::is_activity_unchanged(&index, &changed));
}
