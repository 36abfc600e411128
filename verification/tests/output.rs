use polaris::api::{DatasetAccess, DatasetAccessStatus};
use polaris::calendar::{Date, Timestamp};
use polaris::commands::{wants_browser, LocalListFilters, RemoteListFilters};
use polaris::layout::{Layout, LocalSnapshotEntry};
use polaris::output::{
    filters_line, reset_roots, HumanOutput, LocalListOutput, RemoteListOutput, ResetOutput,
    SyncOutput,
};
use polaris::planner::{build_sync_plan, LocalSnapshotState, SnapshotPlan, TimeWindow};
use polaris::syncer::{FailedDownload, SyncExecution};
use polaris::tui::model::RemoteDatasetEntry;

fn at(day: u32) -> Timestamp {
    Timestamp::from_ymd_hms_opt(2026, 6, day, 0, 0, 0).unwrap()
}

#[test]
fn remote_lists_are_readable() {
    let entry = RemoteDatasetEntry {
        source: "aster".into(),
        market: "BTCUSDT".into(),
        start: at(1),
        end: Timestamp::parse("2026-06-03T13:10:01.561Z").unwrap(),
        catalog_source: None,
        access: Some(DatasetAccess {
            status: DatasetAccessStatus::Preview,
            public_cutoff_date: Date::from_ymd_opt(2026, 5, 28),
        }),
        categories: Vec::new(),
        dataset: "aster:BTCUSDT".into(),
    };
    let filters = RemoteListFilters {
        exchange: Some("as\"ter".into()),
        asset: None,
        search: Some("btc".into()),
    };
    let output = RemoteListOutput::from_entries(filters, vec![entry]);
    assert_eq!(output.command, "catalog");
    assert_eq!(output.dataset_total, 1);
    assert_eq!(
        output.render_human(),
        "catalog\nfilters: exchange=Some(\"as\\\"ter\") asset=None search=Some(\"btc\")\n\
         datasets: 1\nremote datasets:\n  aster:BTCUSDT 2026-06-01 00:00:00 UTC -> \
         2026-06-03 13:10:01.561 UTC (preview from 2026-05-28)"
    );
    let none = RemoteListFilters { exchange: None, asset: None, search: None };
    let empty = RemoteListOutput::from_entries(none, Vec::new());
    assert_eq!(empty.render_human(), "catalog\ndatasets: 0");
    assert_eq!(filters_line("a", "b", "date", "c"), "filters: exchange=a asset=b date=c");
}

fn snapshot(key: String) -> LocalSnapshotEntry {
    LocalSnapshotEntry {
        path: format!("/r/data/{key}"),
        filename: key.clone(),
        key,
        source: None,
        market: None,
        date: None,
        start: None,
        end: None,
    }
}

#[test]
fn local_lists_show_fifty_keys() {
    let none = || LocalListFilters { exchange: None, asset: None, date: None };
    let few = LocalListOutput::from_entries("/r".into(), none(), vec![snapshot("a".into())]);
    assert_eq!(few.render_human(), "list\nroot: /r\nsnapshots: 1\nlocal snapshots:\n  a");
    let many: Vec<LocalSnapshotEntry> = (0..52).map(|n| snapshot(format!("k{n}"))).collect();
    let text = LocalListOutput::from_entries("/r".into(), none(), many).render_human();
    assert!(text.ends_with("  k49\n  ... 2 more"));
    assert!(text.contains("snapshots: 52"));
    let narrowed = LocalListFilters { exchange: None, asset: None, date: Some("d".into()) };
    assert_eq!(
        LocalListOutput::from_entries("/r".into(), narrowed, Vec::new()).render_human(),
        "list\nroot: /r\nfilters: exchange=None asset=None date=Some(\"d\")\nsnapshots: 0"
    );
}

#[test]
fn downloads_tell_what_came_of_them() {
    let window = TimeWindow { from: at(1), to: at(2) };
    let plan = build_sync_plan(
        "aster",
        "BTCUSDT",
        window,
        window,
        "/r",
        10,
        vec![SnapshotPlan {
            key: "a".into(),
            local_path: "/r/a".into(),
            temp_path: "/r/a.part".into(),
            local_size: 1,
            state: LocalSnapshotState::Present,
        }],
    );
    let execution = SyncExecution {
        downloaded_keys: vec!["b".into()],
        failed: vec![FailedDownload { key: "c".into(), error: "boom".into() }],
    };
    let output = SyncOutput::from_parts(&plan, execution);
    assert_eq!(output.exit_code(), 1);
    assert_eq!(
        output.render_human(),
        "download aster BTCUSDT\nroot: /r\n\
         requested: 2026-06-01 00:00:00 UTC -> 2026-06-02 00:00:00 UTC\n\
         effective: 2026-06-01 00:00:00 UTC -> 2026-06-02 00:00:00 UTC\n\
         remote: 1\ndownloaded: 1\nskipped: 1\nfailed: 1\nfailed keys:\n  c: boom"
    );
    let fine = SyncOutput::from_parts(&plan, SyncExecution::new());
    assert_eq!(fine.exit_code(), 0);
    assert!(fine.render_human().ends_with("failed: 0"));
}

#[test]
fn resets_tell_what_was_removed() {
    let layout = Layout::new("/tmp/polaris".into());
    let roots = reset_roots(&layout);
    assert_eq!(roots, vec!["/tmp/polaris/data", "/tmp/polaris/tmp", "/tmp/polaris/cache"]);
    assert_eq!(
        ResetOutput::new(&layout, 3, &roots).render_human(),
        "reset\nroot: /tmp/polaris\nremoved snapshots: 3\nremoved roots:\n  /tmp/polaris/data\n  \
         /tmp/polaris/tmp\n  /tmp/polaris/cache"
    );
    assert_eq!(
        ResetOutput::new(&layout, 0, &Vec::new()).render_human(),
        "reset\nroot: /tmp/polaris\nremoved snapshots: 0"
    );
}

#[test]
fn the_browser_needs_a_terminal() {
    assert!(wants_browser(false, true, true));
    assert!(!wants_browser(true, true, true));
    assert!(!wants_browser(false, false, true));
    assert!(!wants_browser(false, true, false));
}
