use polaris::api::SnapshotEntry;
use polaris::calendar::Date;
use polaris::layout::{Layout, LocalSnapshotEntry};
use polaris::materialize::{
    built_day, collect_candidate_dates, dataset_entries, judge_day, range_dates, DayDecision,
    MaterializeDayStatus, MaterializeRun,
};
use polaris::staging::StagedSource;

fn date(day: u32) -> Date {
    Date::from_ymd_opt(2026, 6, day).unwrap()
}

fn local(key: &str, day: &str) -> LocalSnapshotEntry {
    LocalSnapshotEntry {
        key: key.into(),
        path: format!("/tmp/{key}"),
        filename: key.into(),
        source: Some("ex".into()),
        market: Some("asset".into()),
        date: Some(day.into()),
        start: None,
        end: None,
    }
}

fn remote(key: &str) -> SnapshotEntry {
    SnapshotEntry { key: key.into(), date: None }
}

#[test]
fn candidate_dates_respect_filter_or_local_days() {
    let local = vec![
        LocalSnapshotEntry {
            key: "a".into(),
            path: "/tmp/a".into(),
            filename: "a".into(),
            source: Some("ex".into()),
            market: Some("asset".into()),
            date: Some("2026-06-02".into()),
            start: None,
            end: None,
        },
        LocalSnapshotEntry {
            key: "b".into(),
            path: "/tmp/b".into(),
            filename: "b".into(),
            source: Some("ex".into()),
            market: Some("asset".into()),
            date: Some("2026-06-01".into()),
            start: None,
            end: None,
        },
    ];

    let inferred = collect_candidate_dates(&local, None);
    assert_eq!(
        inferred,
        vec![
            Date::from_ymd_opt(2026, 6, 1).unwrap(),
            Date::from_ymd_opt(2026, 6, 2).unwrap()
        ]
    );

    let filtered =
        collect_candidate_dates(&local, Some(Date::from_ymd_opt(2026, 6, 3).unwrap()));
    assert_eq!(filtered, vec![Date::from_ymd_opt(2026, 6, 3).unwrap()]);
}

#[test]
fn days_are_listed_once_and_nonsense_is_left_out() {
    let entries = vec![local("a", "2026-06-02"), local("b", "2026-06-02"), local("c", "soon")];
    assert_eq!(collect_candidate_dates(&entries, None), vec![date(2)]);
    assert_eq!(range_dates(date(1), date(3)), vec![date(1), date(2), date(3)]);
    assert_eq!(range_dates(date(3), date(1)), vec![]);
}

#[test]
fn other_datasets_are_left_out() {
    let mut other = local("c", "2026-06-01");
    other.market = Some("other".into());
    let kept = dataset_entries(vec![local("a", "2026-06-01"), other], "ex", "asset");
    assert_eq!(kept.len(), 1);
    assert_eq!(kept[0].key, "a");
}

#[test]
fn a_day_is_built_when_everything_is_there() {
    let entries = vec![local("a", "2026-06-01"), local("b", "2026-06-01"), local("c", "2026-06-02")];
    match judge_day(date(1), &vec![remote("b"), remote("a")], &entries) {
        DayDecision::Build { inputs, remote_total, local_total } => {
            assert_eq!(inputs, vec!["/tmp/b", "/tmp/a"]);
            assert_eq!((remote_total, local_total), (2, 2));
        }
        other => panic!("expected build, got {other:?}"),
    }
    match judge_day(date(1), &vec![remote("b"), remote("c"), remote("d")], &entries) {
        DayDecision::Report(day) => {
            assert_eq!(day.status, MaterializeDayStatus::Incomplete);
            assert_eq!(day.date, "2026-06-01");
            assert_eq!((day.remote_total, day.local_total, day.missing_total), (3, 2, 2));
        }
        other => panic!("expected report, got {other:?}"),
    }
    match judge_day(date(3), &Vec::new(), &entries) {
        DayDecision::Report(day) => {
            assert_eq!(day.status, MaterializeDayStatus::NoRemoteData);
            assert_eq!(day.missing_total, 0);
            assert_eq!(day.output_path, None);
        }
        other => panic!("expected report, got {other:?}"),
    }
}

#[test]
fn runs_go_through_the_days_in_order() {
    let mut run = MaterializeRun::new(vec![date(1), date(2)]);
    let (first, window) = run.next_day().expect("first day");
    assert_eq!(first, date(1));
    assert_eq!(window.from.stamp(), "2026-06-01T00:00:00Z");
    assert_eq!(window.to.stamp(), "2026-06-01T23:59:59Z");
    run.finish_day(built_day(first, 2, 2, "/out".into()));
    let (second, _) = run.next_day().expect("second day");
    match judge_day(second, &Vec::new(), &Vec::new()) {
        DayDecision::Report(day) => run.finish_day(day),
        other => panic!("expected report, got {other:?}"),
    }
    assert!(run.next_day().is_none());
    let execution = run.finish("ex", "asset");
    assert_eq!(execution.built_total, 1);
    assert_eq!(execution.incomplete_total, 0);
    assert_eq!(execution.no_remote_total, 1);
    assert_eq!(execution.days[0].output_path.as_deref(), Some("/out"));
}

#[test]
fn daily_files_lie_in_the_cache() {
    let staged = Layout::new("/r".into()).staged_day("ex", "asset", date(1), vec!["/tmp/a".into()]);
    assert_eq!(staged.local_path, "/r/cache/daily/ex/asset/2026-06-01.jsonl.zst");
    assert!(staged.temp_path.starts_with("/r/tmp/"));
    assert!(staged.temp_path.ends_with(".part"));
    match staged.source {
        StagedSource::Files(inputs) => assert_eq!(inputs, vec!["/tmp/a"]),
        other => panic!("expected files, got {other:?}"),
    }
}
