//! Record lines, staged file names, the finalizer's filter-and-merge,
//! and the idempotence of a whole sync over an unchanged catalog.

use drivetrain::activity::Activity;
use drivetrain::archive::ActivityArchiveManager;
use drivetrain::finalize::{carry_forward_line, finalize_lines, StagedArtifact};
use drivetrain::index::ActivityIndex;
use drivetrain::json::{feature_line, parse_feature_key};
use drivetrain::pipeline::{run_pipeline, FetchConversion};
use drivetrain::plan::plan_sync;
use drivetrain::stats::DownloadStats;

fn activity(id: &str, name: &str) -> Activity {
    Activity {
        id: String::from(id),
        name: String::from(name),
        start_date_local: String::from("2024-05-01T07:30:00"),
        activity_type: String::from("Ride"),
        elapsed_time: 1800,
        distance_bits: Some(10000.0f64.to_bits()),
    }
}

const GEOMETRY: &str = "{\"type\":\"LineString\",\"coordinates\":[[8.0,47.0],[8.1,47.1]]}";

#[test]
fn feature_line_parses_back() {
    let a = activity("a1", "Morning Ride");
    let line = feature_line(&a, "00ff00ff00ff00ff", GEOMETRY);
    let (id, hash) = parse_feature_key(&line).unwrap();
    assert_eq!(id, "a1");
    assert_eq!(hash, "00ff00ff00ff00ff");
}

#[test]
fn feature_line_escapes_awkward_characters() {
    let mut a = activity("a\"1\\x", "Ride \"quoted\"\nnewline");
    a.start_date_local = String::from("2024-05-01T07:30:00");
    let line = feature_line(&a, "0123456789abcdef", GEOMETRY);
    assert!(!line.contains('\n'));
    let (id, hash) = parse_feature_key(&line).unwrap();
    assert_eq!(id, "a\"1\\x");
    assert_eq!(hash, "0123456789abcdef");
}

#[test]
fn feature_line_is_valid_json_with_expected_properties() {
    let a = activity("a1", "Morning \"R\"ide");
    let line = feature_line(&a, "0123456789abcdef", GEOMETRY);
    let v: serde_json::Value = serde_json::from_str(&line).unwrap();
    assert_eq!(v["type"], "FeatureCollection");
    let f = &v["features"][0];
    assert_eq!(f["type"], "Feature");
    assert_eq!(f["properties"]["id"], "a1");
    assert_eq!(f["properties"]["activity_hash"], "0123456789abcdef");
    assert_eq!(f["properties"]["name"], "Morning \"R\"ide");
    assert_eq!(f["properties"]["type"], "Ride");
    assert_eq!(f["properties"]["date"], "2024-05-01T07:30:00");
    assert_eq!(f["geometry"]["type"], "LineString");
}

#[test]
fn malformed_lines_do_not_parse() {
    assert!(parse_feature_key("").is_none());
    assert!(parse_feature_key("{\"type\":\"Feature\"}").is_none());
    assert!(parse_feature_key("not json at all").is_none());
}

#[test]
fn staged_filename_round_trip() {
    let name = ActivityArchiveManager::staged_activity_filename("a_b1", "00ff", "geojson");
    assert_eq!(name, "activity_a_b1_00ff.geojson");
    let (id, hash, ext) = ActivityArchiveManager::parse_activity_filename(&name).unwrap();
    assert_eq!(id, "a_b1");
    assert_eq!(hash, "00ff");
    assert_eq!(ext, "geojson");
}

#[test]
fn filename_without_prefix_or_dot_does_not_parse() {
    assert!(ActivityArchiveManager::parse_activity_filename("ride_a_b.geojson").is_none());
    assert!(ActivityArchiveManager::parse_activity_filename("activity_a_b").is_none());
}

#[test]
fn carry_forward_keeps_only_carried_keys() {
    let a = activity("a1", "One");
    let hash = a.compute_hash();
    let line = feature_line(&a, &hash, GEOMETRY);
    let mut carried = ActivityIndex::new_empty(String::from("athlete"));
    assert!(!carry_forward_line(&line, &carried));
    carried.insert_geojson(&a.id, &hash);
    assert!(carry_forward_line(&line, &carried));
}

#[test]
fn finalize_merges_prior_and_staged() {
    let kept = activity("kept", "Kept");
    let kept_hash = kept.compute_hash();
    let dropped = activity("dropped", "Dropped");
    let dropped_hash = dropped.compute_hash();
    let fresh = activity("fresh", "Fresh");
    let fresh_hash = fresh.compute_hash();

    let prior_lines = vec![
        feature_line(&kept, &kept_hash, GEOMETRY),
        feature_line(&dropped, &dropped_hash, GEOMETRY),
        String::from("malformed line"),
    ];
    let mut index = ActivityIndex::new_empty(String::from("athlete"));
    index.insert_geojson(&kept.id, &kept_hash);
    let staged = vec![
        StagedArtifact {
            activity_id: fresh.id.clone(),
            activity_hash: fresh_hash.clone(),
            content: Some(feature_line(&fresh, &fresh_hash, GEOMETRY)),
        },
        StagedArtifact {
            activity_id: String::from("quiet"),
            activity_hash: String::from("0000000000000000"),
            content: None,
        },
    ];
    let out = finalize_lines(&prior_lines, &staged, &mut index);
    assert_eq!(out.len(), 2);
    assert_eq!(out[0], prior_lines[0]);
    assert_eq!(out[1], feature_line(&fresh, &fresh_hash, GEOMETRY));
    assert_eq!(index.total_activities(), 3);
    assert!(index.has_geojson_key(&ActivityIndex::create_key(&fresh.id, &fresh_hash)));
    assert!(!index.has_geojson_key(&ActivityIndex::create_key(
        "quiet",
        "0000000000000000"
    )));
}

#[test]
fn scenario_carry_one_add_one() {
    // Prior index holds a1 under its current fingerprint as geometry; the
    // catalog brings a1 unchanged and a new a2. a1 is carried, a2 queued,
    // and after processing a2 as geometry the final geometry set holds
    // both keys.
    let a1 = activity("a1", "One");
    let h1 = a1.compute_hash();
    let a2 = activity("a2", "Two");
    let h2 = a2.compute_hash();
    let mut prior = ActivityIndex::new_empty(String::from("athlete"));
    prior.insert_geojson(&a1.id, &h1);

    let catalog = vec![a1.clone_activity(), a2.clone_activity()];
    let mut carried = ActivityIndex::new_empty(String::from("athlete"));
    let queued = plan_sync(&catalog, &prior, &mut carried);
    assert!(carried.has_geojson_key(&ActivityIndex::create_key("a1", &h1)));
    assert_eq!(carried.total_activities(), 1);
    assert_eq!(queued.len(), 1);
    assert_eq!(queued[0].id, "a2");

    let mut stats = DownloadStats::new();
    let results = vec![FetchConversion::Track(String::from(GEOMETRY))];
    let staged = run_pipeline(&queued, &results, &mut stats);
    assert_eq!(stats.downloaded, 1);

    let prior_lines = vec![feature_line(&a1, &h1, GEOMETRY)];
    let out = finalize_lines(&prior_lines, &staged, &mut carried);
    assert_eq!(out.len(), 2);
    assert!(carried.has_geojson_key(&ActivityIndex::create_key("a1", &h1)));
    assert!(carried.has_geojson_key(&ActivityIndex::create_key("a2", &h2)));
    assert_eq!(carried.total_activities(), 2);
}

#[test]
fn changed_activity_is_replaced_not_duplicated() {
    // The prior dataset holds a record for a1 under its old fingerprint;
    // the catalog brings a1 changed. The old record is not carried, the
    // reprocessed one is appended, and the dataset ends with exactly one
    // record per identifier.
    let old = activity("a1", "Before rename");
    let old_hash = old.compute_hash();
    let mut changed = activity("a1", "After rename");
    changed.elapsed_time = 2400;

    let mut prior = ActivityIndex::new_empty(String::from("athlete"));
    prior.insert_geojson(&old.id, &old_hash);
    let prior_lines = vec![feature_line(&old, &old_hash, GEOMETRY)];

    let catalog = vec![changed.clone_activity()];
    let mut index = ActivityIndex::new_empty(String::from("athlete"));
    let queued = plan_sync(&catalog, &prior, &mut index);
    assert_eq!(queued.len(), 1);

    let mut stats = DownloadStats::new();
    let results = vec![FetchConversion::Track(String::from(GEOMETRY))];
    let staged = run_pipeline(&queued, &results, &mut stats);
    let out = finalize_lines(&prior_lines, &staged, &mut index);

    assert_eq!(out.len(), 1, "the old record is dropped, the new one appended");
    let (id, hash) = parse_feature_key(&out[0]).unwrap();
    assert_eq!(id, "a1");
    assert_eq!(hash, changed.compute_hash());
    assert_ne!(hash, old_hash);
    assert_eq!(index.total_activities(), 1);
}

#[test]
fn second_run_is_idempotent() {
    // First run from nothing, then a second run over the unchanged
    // catalog: nothing queued, zero downloads, identical key sets, and a
    // byte-identical dataset.
    let a1 = activity("a1", "One");
    let a2 = activity("a2", "Two");
    let catalog = vec![a1.clone_activity(), a2.clone_activity()];

    // First run: empty prior state.
    let empty_prior = ActivityIndex::new_empty(String::from("athlete"));
    let mut index1 = ActivityIndex::new_empty(String::from("athlete"));
    let queued1 = plan_sync(&catalog, &empty_prior, &mut index1);
    assert_eq!(queued1.len(), 2);
    let mut stats1 = DownloadStats::new();
    let results1 = vec![
        FetchConversion::Track(String::from(GEOMETRY)),
        FetchConversion::NoUsableTrack,
    ];
    let staged1 = run_pipeline(&queued1, &results1, &mut stats1);
    let lines1 = finalize_lines(&Vec::new(), &staged1, &mut index1);
    assert_eq!(lines1.len(), 1);
    assert_eq!(index1.total_activities(), 2);

    // Second run: the finished state of the first is the prior state.
    let mut index2 = ActivityIndex::new_empty(String::from("athlete"));
    let queued2 = plan_sync(&catalog, &index1, &mut index2);
    assert_eq!(queued2.len(), 0, "an unchanged catalog downloads nothing");
    let mut stats2 = DownloadStats::new();
    let staged2 = run_pipeline(&queued2, &Vec::new(), &mut stats2);
    assert_eq!(stats2.downloaded, 0);
    let lines2 = finalize_lines(&lines1, &staged2, &mut index2);
    assert_eq!(lines2, lines1, "the dataset is byte-identical");
    assert_eq!(index2.total_activities(), index1.total_activities());
    assert_eq!(
        index2.geojson_activities.iter().collect::<std::collections::BTreeSet<_>>(),
        index1.geojson_activities.iter().collect::<std::collections::BTreeSet<_>>()
    );
    assert_eq!(
        index2.empty_activities.iter().collect::<std::collections::BTreeSet<_>>(),
        index1.empty_activities.iter().collect::<std::collections::BTreeSet<_>>()
    );
}

#[test]
fn streaming_filter_handles_a_large_prior_dataset() {
    // The filter-and-forward step sees one record at a time; here a large
    // synthetic prior dataset is streamed through it line by line, never
    // materialized as anything but the one line in hand.
    let mut index = ActivityIndex::new_empty(String::from("athlete"));
    let keeper = activity("keeper", "Kept ride");
    let keeper_hash = keeper.compute_hash();
    index.insert_geojson(&keeper.id, &keeper_hash);
    let mut kept: usize = 0;
    for i in 0..50_000usize {
        let line = if i % 2 == 0 {
            feature_line(&keeper, &keeper_hash, GEOMETRY)
        } else {
            let other = activity(&format!("other{i}"), "Forgotten ride");
            feature_line(&other, &other.compute_hash(), GEOMETRY)
        };
        if carry_forward_line(&line, &index) {
            kept += 1;
        }
    }
    assert_eq!(kept, 25_000);
}
