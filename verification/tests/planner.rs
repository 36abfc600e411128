use polaris::api::{CatalogMarket, CatalogResponse, CatalogSource, SnapshotEntry};
use polaris::calendar::Timestamp;
use polaris::layout::Layout;
use polaris::planner::{
    classify_snapshots, effective_range, intersect_ranges, locate_snapshots, LocalSnapshotState,
    SnapshotPlan, SnapshotProbe, SyncPlan, TimeWindow,
};

fn at(day: u32, hour: u32) -> Timestamp {
    Timestamp::from_ymd_hms_opt(2026, 6, day, hour, 0, 0).unwrap()
}

#[test]
fn coverage_intersection_handles_overlap_and_gaps() {
    let requested = TimeWindow {
        from: Timestamp::from_ymd_hms_opt(2026, 6, 1, 0, 0, 0).unwrap(),
        to: Timestamp::from_ymd_hms_opt(2026, 6, 2, 0, 0, 0).unwrap(),
    };
    let available = TimeWindow {
        from: Timestamp::from_ymd_hms_opt(2026, 6, 1, 12, 0, 0).unwrap(),
        to: Timestamp::from_ymd_hms_opt(2026, 6, 3, 0, 0, 0).unwrap(),
    };
    let intersection = intersect_ranges(&requested, &available).expect("intersection");
    assert_eq!(intersection.from, available.from);
    assert_eq!(intersection.to, requested.to);

    let missing = TimeWindow {
        from: Timestamp::from_ymd_hms_opt(2026, 6, 3, 0, 0, 0).unwrap(),
        to: Timestamp::from_ymd_hms_opt(2026, 6, 4, 0, 0, 0).unwrap(),
    };
    assert!(intersect_ranges(&requested, &missing).is_none());
}

#[test]
fn ranges_that_touch_share_an_instant() {
    let a = TimeWindow { from: at(1, 0), to: at(2, 0) };
    let b = TimeWindow { from: at(2, 0), to: at(3, 0) };
    assert_eq!(intersect_ranges(&a, &b), Some(TimeWindow { from: at(2, 0), to: at(2, 0) }));
    assert_eq!(intersect_ranges(&b, &a), intersect_ranges(&a, &b));
}

#[test]
fn sync_plan_summaries_are_consistent() {
    let snapshots = vec![
        SnapshotPlan {
            key: "a".into(),
            local_path: "/tmp/a".into(),
            temp_path: "/tmp/a.part".into(),
            local_size: 5,
            state: LocalSnapshotState::Present,
        },
        SnapshotPlan {
            key: "b".into(),
            local_path: "/tmp/b".into(),
            temp_path: "/tmp/b.part".into(),
            local_size: 0,
            state: LocalSnapshotState::Missing,
        },
    ];
    let plan = SyncPlan {
        exchange: "ex".into(),
        asset: "asset".into(),
        requested_range: TimeWindow { from: at(1, 0), to: at(1, 0) },
        effective_range: TimeWindow { from: at(1, 0), to: at(1, 0) },
        root: "/tmp".into(),
        total_remote_bytes: 10,
        snapshots,
    };
    assert_eq!(plan.remote_total(), 2);
    assert_eq!(plan.present_total(), 1);
    assert_eq!(plan.missing_total(), 1);
    assert_eq!(plan.missing_bytes(), 5);
    assert_eq!(plan.present_bytes(), 5);
    assert_eq!(plan.missing_keys(), vec!["b"]);
    assert_eq!(plan.missing_snapshots().len(), 1);
}

#[test]
fn diff_classifies_present_missing_and_incomplete() {
    let layout = Layout::new("/tmp/tick".into());
    let entry = |key: &str| SnapshotEntry { key: key.into(), date: None };
    let places = locate_snapshots(
        &layout,
        &vec![
            entry("bronze/ex/asset/2026-01-01/present.jsonl.zst"),
            entry("bronze/ex/asset/2026-01-01/missing.jsonl.zst"),
            entry("bronze/ex/asset/2026-01-01/incomplete.jsonl.zst"),
        ],
    )
    .expect("places");
    assert_eq!(
        places[0].local_path,
        "/tmp/tick/data/bronze/ex/asset/2026-01-01/present.jsonl.zst"
    );
    let snapshots = classify_snapshots(
        places,
        &vec![
            SnapshotProbe { temp_exists: false, local_size: Some(2) },
            SnapshotProbe { temp_exists: false, local_size: None },
            SnapshotProbe { temp_exists: true, local_size: Some(7) },
        ],
    );
    let states: Vec<LocalSnapshotState> = snapshots.iter().map(|item| item.state).collect();
    assert_eq!(
        states,
        vec![
            LocalSnapshotState::Present,
            LocalSnapshotState::Missing,
            LocalSnapshotState::Incomplete,
        ]
    );
    assert_eq!(snapshots[0].local_size, 2);
    assert_eq!(snapshots[2].local_size, 0);
}

#[test]
fn empty_files_are_missing_and_bad_keys_are_refused() {
    let layout = Layout::new("/r".into());
    let entry = |key: &str| SnapshotEntry { key: key.into(), date: None };
    let places = locate_snapshots(&layout, &vec![entry("a-b-c-2026-06-01")]).expect("places");
    let plans = classify_snapshots(
        places,
        &vec![SnapshotProbe { temp_exists: false, local_size: Some(0) }],
    );
    assert_eq!(plans[0].state, LocalSnapshotState::Missing);
    let error =
        locate_snapshots(&layout, &vec![entry("a-b-c-2026-06-01"), entry("nope")]).unwrap_err();
    assert_eq!(error.text(), "opaque key does not contain a date: nope");
}

fn catalog() -> CatalogResponse {
    CatalogResponse {
        sources: vec![CatalogSource {
            id: "aster".into(),
            markets: vec![CatalogMarket {
                id: "BTCUSDT".into(),
                start: at(1, 0),
                end: at(2, 0),
                catalog_source: None,
                categories: Vec::new(),
                access: None,
            }],
        }],
        updated_at: None,
    }
}

#[test]
fn missing_datasets_and_ranges_are_unavailable() {
    let window = TimeWindow { from: at(1, 12), to: at(5, 0) };
    let error = effective_range(&catalog(), "aster", "ETHUSDT", &window).unwrap_err();
    assert_eq!(error.exit_code(), 2);
    assert_eq!(error.text(), "dataset aster/ETHUSDT is not available");
    let range = effective_range(&catalog(), "aster", "BTCUSDT", &window).unwrap();
    assert_eq!(range, TimeWindow { from: at(1, 12), to: at(2, 0) });
    let later = TimeWindow { from: at(3, 0), to: at(5, 0) };
    let error = effective_range(&catalog(), "aster", "BTCUSDT", &later).unwrap_err();
    assert_eq!(
        error.text(),
        "requested range does not overlap remote coverage for aster/BTCUSDT"
    );
    assert_eq!(error.exit_code(), 2);
}
