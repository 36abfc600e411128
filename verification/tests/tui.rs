use polaris::api::{DatasetAccess, DatasetAccessStatus, SnapshotEntry};
use polaris::calendar::{Date, Timestamp};
use polaris::collections::TextSet;
use polaris::layout::LocalSnapshotEntry;
use polaris::tui::browser::RemoteListTui;
use polaris::tui::coverage::{
    api_key_requirement_for_download, build_day_coverages, diff_missing_snapshot_keys,
};
use polaris::tui::model::{
    ActiveDaySync, ApiKeyRequirement, BrowserCategory, DatasetView, DaySyncUpdate,
    FileManagerTarget, RemoteDatasetEntry, RemoteTuiSeed, ViewMode,
};
use polaris::tui::page::format_snapshot_location;
use polaris::tui::storage::{reveal_candidates, snapshot_reveal_target, PathKind};

fn open() -> DatasetAccess {
    DatasetAccess { status: DatasetAccessStatus::Open, public_cutoff_date: None }
}

fn restricted() -> DatasetAccess {
    DatasetAccess { status: DatasetAccessStatus::Restricted, public_cutoff_date: None }
}

fn preview(year: i32, month: u32, day: u32) -> DatasetAccess {
    DatasetAccess {
        status: DatasetAccessStatus::Preview,
        public_cutoff_date: Some(Date::from_ymd_opt(year, month, day).unwrap()),
    }
}

fn dataset(
    source: &str,
    market: &str,
    access: DatasetAccess,
    categories: &[&str],
) -> RemoteDatasetEntry {
    RemoteDatasetEntry {
        source: source.into(),
        market: market.into(),
        start: Timestamp::from_ymd_hms_opt(2026, 6, 1, 0, 0, 0).unwrap(),
        end: Timestamp::from_ymd_hms_opt(2026, 6, 2, 0, 0, 0).unwrap(),
        catalog_source: Some("manifest".into()),
        access: Some(access),
        categories: categories.iter().map(|name| name.to_string()).collect(),
        dataset: format!("{source}:{market}"),
    }
}

fn browser(datasets: Vec<RemoteDatasetEntry>, bookmarks: &[&str]) -> RemoteListTui {
    RemoteListTui::new(
        datasets,
        Vec::<LocalSnapshotEntry>::new(),
        "/tmp/tick".into(),
        4,
        RemoteTuiSeed::default(),
        Ok(TextSet::from_texts(bookmarks.iter().map(|name| name.to_string()).collect())),
    )
}

/// What is shown for a snapshot when only these paths are there.
fn shown_for(snapshot: &str, there: &[(&str, PathKind)]) -> Option<FileManagerTarget> {
    let candidates = reveal_candidates("/tmp/t/data", &vec![snapshot.to_string()]);
    let kinds: Vec<PathKind> = candidates
        .iter()
        .map(|candidate| {
            there
                .iter()
                .find(|(path, _)| *path == candidate.path)
                .map(|(_, kind)| *kind)
                .unwrap_or(PathKind::Nothing)
        })
        .collect();
    snapshot_reveal_target(&candidates, &kinds)
}

#[test]
fn tui_search_filters_remote_datasets() {
    let datasets = vec![
        dataset("aster", "BTCUSDT", open(), &[]),
        dataset("binance", "ETHUSDT", restricted(), &[]),
    ];
    let app = RemoteListTui::new(
        datasets,
        Vec::<LocalSnapshotEntry>::new(),
        "/tmp/tick".into(),
        4,
        RemoteTuiSeed { search: Some("btc".into()), ..RemoteTuiSeed::default() },
        Ok(TextSet::new()),
    );

    assert_eq!(app.filtered_indices.len(), 1);
    assert_eq!(
        app.selected_dataset().map(|dataset| dataset.dataset.as_str()),
        Some("aster:BTCUSDT")
    );
}

#[test]
fn tui_access_search_filters_remote_datasets() {
    let datasets = vec![
        dataset("aster", "BTCUSDT", preview(2026, 5, 28), &[]),
        dataset("binance", "ETHUSDT", restricted(), &[]),
    ];
    let app = RemoteListTui::new(
        datasets,
        Vec::<LocalSnapshotEntry>::new(),
        "/tmp/tick".into(),
        4,
        RemoteTuiSeed { search: Some("access:restricted".into()), ..RemoteTuiSeed::default() },
        Ok(TextSet::new()),
    );

    assert_eq!(app.filtered_indices.len(), 1);
    assert_eq!(
        app.selected_dataset().map(|dataset| dataset.dataset.as_str()),
        Some("binance:ETHUSDT")
    );
}

#[test]
fn tui_bookmarked_datasets_sort_to_top() {
    let bookmarked = "binance:ETHUSDT".to_string();
    let app = browser(
        vec![
            dataset("aster", "BTCUSDT", open(), &[]),
            dataset("binance", "ETHUSDT", open(), &[]),
        ],
        &[bookmarked.as_str()],
    );

    assert_eq!(app.filtered_indices, vec![1, 0]);
    assert_eq!(
        app.selected_dataset().map(|dataset| dataset.dataset.as_str()),
        Some(bookmarked.as_str())
    );
}

#[test]
fn tui_toggling_bookmark_persists_without_reordering_current_session() {
    let bookmarked = "binance:ETHUSDT".to_string();
    let mut app = browser(
        vec![
            dataset("aster", "BTCUSDT", open(), &[]),
            dataset("binance", "ETHUSDT", open(), &[]),
        ],
        &[],
    );

    app.selected = 1;
    let toggle = app.bookmark_toggle().expect("toggle bookmark");
    let saved = toggle.bookmarks.items().clone();
    app.toggle_current_bookmark(toggle);

    assert_eq!(app.filtered_indices, vec![0, 1]);
    assert_eq!(app.selected, 1);
    assert!(app.is_bookmarked(bookmarked.as_str()));
    assert_eq!(saved, vec![bookmarked]);
    assert_eq!(app.status_message.as_deref(), Some("bookmarked binance:ETHUSDT"));
}

#[test]
fn tui_category_carousel_cycles_through_bookmarks_and_catalog_categories() {
    let bookmarked = "binance:ETHUSDT".to_string();
    let mut app = browser(
        vec![
            dataset("aster", "BTCUSDT", open(), &["Spot"]),
            dataset("binance", "ETHUSDT", open(), &["Futures"]),
        ],
        &[bookmarked.as_str()],
    );

    assert_eq!(
        app.categories.iter().map(BrowserCategory::label).collect::<Vec<_>>(),
        vec!["All", "Bookmarks", "Futures", "Spot"]
    );
    assert_eq!(app.selected_category().label(), "All");
    assert_eq!(app.category_display_labels(), vec!["all", "bookmarks", "futures", "spot"]);

    app.cycle_category(-1);
    assert_eq!(app.selected_category().label(), "Spot");
    assert_eq!(app.category_display_labels(), vec!["spot", "all", "bookmarks", "futures"]);
    assert_eq!(app.filtered_indices.len(), 1);
    assert_eq!(
        app.selected_dataset().map(|dataset| dataset.dataset.as_str()),
        Some("aster:BTCUSDT")
    );

    app.cycle_category(1);
    assert_eq!(app.selected_category().label(), "All");
    assert_eq!(app.category_display_labels(), vec!["all", "bookmarks", "futures", "spot"]);

    app.cycle_category(1);
    assert_eq!(app.selected_category().label(), "Bookmarks");
    assert_eq!(app.category_display_labels(), vec!["bookmarks", "futures", "spot", "all"]);
    assert_eq!(app.filtered_indices.len(), 1);
    assert_eq!(
        app.selected_dataset().map(|dataset| dataset.dataset.as_str()),
        Some(bookmarked.as_str())
    );

    app.cycle_category(1);
    assert_eq!(app.selected_category().label(), "Futures");
    assert_eq!(app.category_display_labels(), vec!["futures", "spot", "all", "bookmarks"]);
    assert_eq!(app.filtered_indices.len(), 1);
    assert_eq!(
        app.selected_dataset().map(|dataset| dataset.dataset.as_str()),
        Some(bookmarked.as_str())
    );

    app.cycle_category(1);
    assert_eq!(app.selected_category().label(), "Spot");
    assert_eq!(app.category_display_labels(), vec!["spot", "all", "bookmarks", "futures"]);
    assert_eq!(app.filtered_indices.len(), 1);
    assert_eq!(
        app.selected_dataset().map(|dataset| dataset.dataset.as_str()),
        Some("aster:BTCUSDT")
    );
}

#[test]
fn tui_removing_bookmark_refreshes_bookmarks_category() {
    let bookmarked = "binance:ETHUSDT".to_string();
    let mut app = browser(
        vec![dataset("binance", "ETHUSDT", open(), &["Futures"])],
        &[bookmarked.as_str()],
    );

    app.cycle_category(1);
    assert_eq!(app.selected_category().label(), "Bookmarks");
    assert_eq!(app.filtered_indices.len(), 1);

    let toggle = app.bookmark_toggle().expect("toggle bookmark");
    app.toggle_current_bookmark(toggle);

    assert!(app.filtered_indices.is_empty());
    assert!(app.selected_dataset().is_none());
    assert!(!app.is_bookmarked(bookmarked.as_str()));
}

#[test]
fn tui_diff_marks_only_missing_remote_keys() {
    let missing = diff_missing_snapshot_keys(
        vec!["a".into(), "b".into(), "c".into()],
        &vec!["a".into(), "c".into()],
    );
    assert_eq!(missing, vec!["b"]);
}

#[test]
fn tui_day_coverages_classify_full_partial_and_empty_days() {
    let entry = |key: &str| SnapshotEntry { key: key.into(), date: None };
    let remote = vec![
        entry("bronze/aster/BTCUSDT/2026-06-01/a.jsonl.zst"),
        entry("bronze/aster/BTCUSDT/2026-06-01/b.jsonl.zst"),
        entry("bronze/aster/BTCUSDT/2026-06-02/c.jsonl.zst"),
        entry("bronze/aster/BTCUSDT/2026-06-03/d.jsonl.zst"),
    ];
    let local = vec![
        "bronze/aster/BTCUSDT/2026-06-01/a.jsonl.zst".to_string(),
        "bronze/aster/BTCUSDT/2026-06-01/b.jsonl.zst".to_string(),
        "bronze/aster/BTCUSDT/2026-06-02/c.jsonl.zst".to_string(),
    ];

    let days = build_day_coverages(
        remote,
        &local,
        Timestamp::from_ymd_hms_opt(2026, 6, 1, 0, 0, 0).unwrap().date(),
        Timestamp::from_ymd_hms_opt(2026, 6, 4, 0, 0, 0).unwrap().date(),
    );

    assert_eq!(days[0].missing_keys.len(), 0);
    assert_eq!(days[1].missing_keys.len(), 0);
    assert_eq!(days[2].missing_keys.len(), 1);
    assert_eq!(days[3].remote_keys.len(), 0);
}

#[test]
fn tui_selected_day_summary_reports_snapshot_location() {
    let date = Date::from_ymd_opt(2026, 6, 1).unwrap();
    let days = build_day_coverages(Vec::new(), &Vec::new(), date, date);
    let view = DatasetView {
        dataset: dataset("aster", "BTCUSDT", open(), &[]),
        days,
        selected_day: 0,
    };
    assert_eq!(
        format_snapshot_location(&view, &view.days[0]),
        "will store under: data/<source>/aster/BTCUSDT/2026-06-01"
    );

    let mut view = view;
    view.days[0].local_keys = vec!["bronze/aster/BTCUSDT/2026-06-01/a.jsonl.zst".into()];
    assert_eq!(
        format_snapshot_location(&view, &view.days[0]),
        "stored under: data/bronze/aster/BTCUSDT/2026-06-01"
    );
}

#[test]
fn tui_reveal_target_prefers_exact_snapshot_file() {
    let snapshot_path = "/tmp/t/data/bronze/aster/BTCUSDT/2026-06-01/file.jsonl.zst".to_string();
    assert_eq!(
        shown_for(&snapshot_path, &[(&snapshot_path, PathKind::File)]),
        Some(FileManagerTarget::File(snapshot_path))
    );
}

#[test]
fn tui_reveal_target_falls_back_to_snapshot_directory_when_file_is_missing() {
    let snapshot_path = "/tmp/t/data/bronze/aster/BTCUSDT/2026-06-01/file.jsonl.zst".to_string();
    let day_dir = "/tmp/t/data/bronze/aster/BTCUSDT/2026-06-01".to_string();
    assert_eq!(
        shown_for(&snapshot_path, &[(&day_dir, PathKind::Directory)]),
        Some(FileManagerTarget::Directory(day_dir))
    );
}

#[test]
fn tui_reveal_target_falls_back_to_data_root_when_no_snapshot_parents_exist() {
    let snapshot_path = "/tmp/t/data/bronze/aster/BTCUSDT/2026-06-01/file.jsonl.zst".to_string();
    assert_eq!(
        shown_for(&snapshot_path, &[("/tmp/t/data", PathKind::Directory)]),
        Some(FileManagerTarget::Directory("/tmp/t/data".into()))
    );
    assert_eq!(shown_for(&snapshot_path, &[("/tmp/t", PathKind::Directory)]), None);
}

#[test]
fn tui_sync_updates_do_not_skip_progress_frames() {
    let date = Date::from_ymd_opt(2026, 6, 1).unwrap();
    let remote_snapshot = SnapshotEntry {
        key: "snapshots/standard/aster/ASTERUSDT/2026-06-01.jsonl.zst".into(),
        date: None,
    };
    let mut entry = dataset("aster", "ASTERUSDT", preview(2026, 5, 28), &[]);
    entry.end = Timestamp::from_ymd_hms_opt(2026, 6, 1, 23, 59, 59).unwrap();
    let mut app = browser(vec![entry.clone()], &[]);
    app.mode = ViewMode::Dataset(DatasetView {
        dataset: entry.clone(),
        days: build_day_coverages(vec![remote_snapshot.clone()], &Vec::new(), date, date),
        selected_day: 0,
    });
    app.active_sync = Some(ActiveDaySync {
        dataset: entry.dataset.clone(),
        date,
        remote_total: 1,
        local_present: 0,
        downloaded: 0,
        failed: 0,
        download_bytes: 0,
        download_total_bytes: None,
        deferred_update: None,
    });

    let finished = app.pump_sync_updates(
        vec![
            DaySyncUpdate::Started { total_bytes: Some(2048) },
            DaySyncUpdate::Progress { downloaded_bytes: 1024, total_bytes: Some(2048) },
            DaySyncUpdate::Downloaded { total_bytes: 2048 },
            DaySyncUpdate::Finished { downloaded: 1, failed: 0 },
        ],
        false,
    );
    assert!(finished.is_none());
    let sync = app.active_sync.as_ref().expect("sync still active");
    assert_eq!(sync.downloaded, 1);
    assert_eq!(sync.download_bytes, 2048);
    assert_eq!(sync.download_total_bytes, Some(2048));
    assert!(matches!(sync.deferred_update, Some(DaySyncUpdate::Finished { .. })));
    assert_eq!(
        app.status_message.as_deref(),
        Some("syncing 2026-06-01 (1/1, 2.00 KiB / 2.00 KiB)")
    );

    let finished = app.pump_sync_updates(Vec::new(), true).expect("second pump");
    assert_eq!(finished.dataset, entry.dataset);
    app.refresh_dataset_view(&entry, vec![remote_snapshot], finished.date);
    app.set_status(Some(finished.status));
    assert_eq!(app.status_message.as_deref(), Some("synced 1 snapshot(s), failed 0"));
    assert!(app.active_sync.is_none());
}

#[test]
fn tui_restricted_datasets_without_api_key_require_prompt() {
    let today = Date::from_ymd_opt(2026, 6, 10).unwrap();
    let selected_date = Date::from_ymd_opt(2026, 6, 2).unwrap();
    assert_eq!(
        api_key_requirement_for_download(Some(restricted()), selected_date, today, false, 1),
        Some(ApiKeyRequirement::Restricted)
    );
}

#[test]
fn tui_preview_datasets_require_prompt_before_cutoff() {
    let today = Date::from_ymd_opt(2026, 6, 10).unwrap();
    let selected_date = Date::from_ymd_opt(2026, 5, 27).unwrap();
    assert_eq!(
        api_key_requirement_for_download(
            Some(preview(2026, 5, 28)),
            selected_date,
            today,
            false,
            1
        ),
        Some(ApiKeyRequirement::Preview {
            public_cutoff_date: Some(Date::from_ymd_opt(2026, 5, 28).unwrap()),
        })
    );
}

#[test]
fn tui_preview_datasets_do_not_require_prompt_on_or_after_cutoff() {
    let today = Date::from_ymd_opt(2026, 6, 10).unwrap();
    let selected_date = Date::from_ymd_opt(2026, 5, 28).unwrap();
    assert_eq!(
        api_key_requirement_for_download(
            Some(preview(2026, 5, 28)),
            selected_date,
            today,
            false,
            1
        ),
        None
    );
}

#[test]
fn tui_legacy_older_downloads_without_access_metadata_require_prompt() {
    let today = Date::from_ymd_opt(2026, 6, 10).unwrap();
    let selected_date = Date::from_ymd_opt(2026, 6, 2).unwrap();
    assert_eq!(
        api_key_requirement_for_download(None, selected_date, today, false, 1),
        Some(ApiKeyRequirement::LegacyPreviewWindow)
    );
}

#[test]
fn tui_prompt_is_skipped_when_api_key_exists_or_no_download_is_needed() {
    let today = Date::from_ymd_opt(2026, 6, 10).unwrap();
    let selected_date = Date::from_ymd_opt(2026, 6, 1).unwrap();
    assert_eq!(
        api_key_requirement_for_download(Some(restricted()), selected_date, today, true, 1),
        None
    );
    assert_eq!(
        api_key_requirement_for_download(Some(restricted()), selected_date, today, false, 0),
        None
    );
}
