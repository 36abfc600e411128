use polaris::api::SnapshotEntry;
use polaris::auth::{
    checked_key, credential_fallback_path, fallback_result, keychain_problem, store_typed_key,
    CredentialLookup, CredentialSource, CredentialStore, LookupStep,
};
use polaris::calendar::Timestamp;
use polaris::error::TickError;
use polaris::layout::Layout;
use polaris::planner::{build_sync_plan, LocalSnapshotState, SnapshotPlan, TimeWindow};
use polaris::staging::{Stage, StageAction, StageReport, StagedFile, StagedSource};
use polaris::syncer::{
    download_outcome, layout_for_root, staged_snapshot, DownloadOutcome, FailedDownload, LockTable, Retry,
    SyncExecution, SyncProgressEvent, SyncRun,
};

#[test]
fn second_sync_lock_is_rejected() {
    let layout = Layout::new("/tmp/t".into());
    let mut locks = LockTable::new();
    locks.acquire(&layout.lock_path()).expect("first lock");
    let err = locks.acquire(&layout.lock_path()).expect_err("lock should fail");
    assert!(matches!(err, TickError::LockHeld(_)));
    locks.release(&layout.lock_path());
    locks.acquire(&layout.lock_path()).expect("lock again");
}

#[test]
fn locks_that_cannot_be_had_are_given_back() {
    let mut locks = LockTable::new();
    locks.acquire("/r/lock").unwrap();
    assert_eq!(locks.settle("/r/lock", false, false).unwrap_err().text(), "failed to open /r/lock");
    locks.acquire("/r/lock").unwrap();
    assert!(matches!(locks.settle("/r/lock", true, false), Err(TickError::LockHeld(_))));
    locks.acquire("/r/lock").unwrap();
    assert!(locks.settle("/r/lock", true, true).is_ok());
    assert!(locks.acquire("/r/lock").is_err());
    assert_eq!(layout_for_root("/r".into()).root(), "/r");
}

#[test]
fn failures_are_retried_five_times() {
    let busy = || TickError::Request { status: Some(500), message: "busy".into(), retryable: true };
    let mut retry = Retry::new();
    let mut pauses = Vec::new();
    let last = loop {
        match retry.after_failure(busy()) {
            Ok(pause) => pauses.push(pause),
            Err(error) => break error,
        }
    };
    assert_eq!(pauses, vec![500, 1000, 2000, 4000, 8000]);
    assert_eq!(last, busy());
    assert!(Retry::new().after_failure(TickError::Other("x".into())).is_err());
}

#[test]
fn one_lock_however_its_path_is_written() {
    let mut locks = LockTable::new();
    locks.acquire("/a/locks/sync.lock").unwrap();
    let held = locks.acquire("/a//locks/./sync.lock").unwrap_err();
    assert_eq!(held, TickError::LockHeld("/a//locks/./sync.lock".into()));
    assert!(locks.acquire("/a/b/sync.lock").is_ok());
    locks.release("/a//locks/sync.lock/");
    assert!(locks.acquire("/a/locks/sync.lock").is_ok());
}

#[test]
fn every_missing_snapshot_is_counted_once() {
    let window = TimeWindow {
        from: Timestamp::from_ymd_hms_opt(2026, 6, 1, 0, 0, 0).unwrap(),
        to: Timestamp::from_ymd_hms_opt(2026, 6, 2, 0, 0, 0).unwrap(),
    };
    let snapshots = vec![
        plan(LocalSnapshotState::Missing),
        plan(LocalSnapshotState::Present),
        plan(LocalSnapshotState::Missing),
        plan(LocalSnapshotState::Missing),
    ];
    let plan = build_sync_plan("aster", "BTC", window, window, "/r", 0, snapshots);
    let mut run = SyncRun::new(&plan);
    assert_eq!(run.missing.len(), 3);
    assert!(!run.is_done());
    run.record(DownloadOutcome::Downloaded { key: "b".into(), total_bytes: 7 });
    run.record(DownloadOutcome::Lost("panicked".into()));
    assert!(!run.is_done());
    let failed = FailedDownload { key: "a".into(), error: "e".into() };
    let event = run.record(DownloadOutcome::Failed(failed));
    assert_eq!(event, SyncProgressEvent::Failed { key: "a".into(), error: "e".into() });
    assert!(run.is_done());
    let execution = run.finish();
    assert_eq!(execution.downloaded_keys, vec!["b"]);
    assert_eq!(execution.failed_total(), 2);
    assert_eq!(
        execution.downloaded_total() + execution.failed_total(),
        plan.missing_total()
    );
}

#[test]
fn every_missing_key_is_noted_once() {
    let window = TimeWindow {
        from: Timestamp::from_ymd_hms_opt(2026, 6, 1, 0, 0, 0).unwrap(),
        to: Timestamp::from_ymd_hms_opt(2026, 6, 2, 0, 0, 0).unwrap(),
    };
    let snapshots = ["c", "a", "b", "a"]
        .iter()
        .map(|key| SnapshotPlan {
            key: key.to_string(),
            ..plan(LocalSnapshotState::Missing)
        })
        .collect();
    let plan = build_sync_plan("aster", "BTC", window, window, "/r", 0, snapshots);
    let mut run = SyncRun::new(&plan);
    for (i, snapshot) in plan.missing_snapshots().iter().enumerate() {
        let result = if i % 2 == 0 {
            Ok(i as u64)
        } else {
            Err(TickError::Other("boom".into()))
        };
        run.record(download_outcome(snapshot, result));
    }
    let execution = run.finish();
    assert_eq!(execution.downloaded_keys, vec!["b", "c"]);
    let failed: Vec<&str> = execution.failed.iter().map(|failed| failed.key.as_str()).collect();
    assert_eq!(failed, vec!["a", "a"]);
    assert_eq!(execution.failed[0].error, "boom");
}

#[test]
fn executions_are_ordered_by_key() {
    let mut execution = SyncExecution::new();
    let event = execution.record(DownloadOutcome::Downloaded { key: "b".into(), total_bytes: 7 });
    assert_eq!(event, SyncProgressEvent::Downloaded { key: "b".into(), total_bytes: 7 });
    execution.record(DownloadOutcome::Downloaded { key: "a".into(), total_bytes: 1 });
    execution.record(DownloadOutcome::Failed(FailedDownload { key: "z".into(), error: "e".into() }));
    let event = execution.record(DownloadOutcome::Lost("panicked".into()));
    assert_eq!(event, SyncProgressEvent::Failed { key: "<task>".into(), error: "panicked".into() });
    let execution = execution.finish();
    assert_eq!(execution.downloaded_keys, vec!["a", "b"]);
    assert_eq!(execution.downloaded_total(), 2);
    assert_eq!(execution.failed_total(), 2);
    assert_eq!(execution.failed[0].key, "<task>");
    assert_eq!(execution.failed[1].error, "e");
}

fn plan(state: LocalSnapshotState) -> SnapshotPlan {
    SnapshotPlan {
        key: "k".into(),
        local_path: "/r/data/k".into(),
        temp_path: "/r/tmp/k.part".into(),
        local_size: 0,
        state,
    }
}

/// Goes through the stages with a disk on which these are there.
fn walk(file: &StagedFile, mut temp: bool, mut local: bool) -> Vec<StageAction> {
    let mut stage = Stage::CreateLocalDir;
    let mut actions = Vec::new();
    while stage != Stage::Done {
        let action = file.action(stage);
        let report = match &action {
            StageAction::Probe(path) if path.contains("tmp") && temp => StageReport::Found,
            StageAction::Probe(path) if path.contains("data") && local => StageReport::Found,
            _ => StageReport::Done,
        };
        match &action {
            StageAction::Remove(path) if path.contains("tmp") => temp = false,
            StageAction::Remove(_) => local = false,
            StageAction::CreateFile(_) => temp = true,
            StageAction::Rename { .. } => {
                assert!(temp && !local);
                temp = false;
                local = true;
            }
            _ => {}
        }
        actions.push(action);
        stage = file.advance(stage, report).expect("stage");
    }
    assert!(local && !temp);
    actions
}

#[test]
fn downloads_go_through_a_temporary_file() {
    let path = |text: &str| text.to_string();
    let file = staged_snapshot(&plan(LocalSnapshotState::Incomplete));
    assert_eq!(
        walk(&file, true, true),
        vec![
            StageAction::CreateDir(path("/r/data")),
            StageAction::CreateDir(path("/r/tmp")),
            StageAction::Probe(path("/r/tmp/k.part")),
            StageAction::Remove(path("/r/tmp/k.part")),
            StageAction::Request(path("k")),
            StageAction::Probe(path("/r/data/k")),
            StageAction::Remove(path("/r/data/k")),
            StageAction::CreateFile(path("/r/tmp/k.part")),
            StageAction::Stream,
            StageAction::Flush,
            StageAction::Sync,
            StageAction::Probe(path("/r/data/k")),
            StageAction::Rename { from: path("/r/tmp/k.part"), to: path("/r/data/k") },
        ]
    );
    let present = staged_snapshot(&plan(LocalSnapshotState::Present));
    let actions = walk(&present, false, true);
    let removed = actions
        .iter()
        .position(|action| matches!(action, StageAction::Remove(_)))
        .expect("removed");
    let synced = actions
        .iter()
        .position(|action| matches!(action, StageAction::Sync))
        .expect("synced");
    assert!(synced < removed);
}

#[test]
fn files_are_put_together_in_order() {
    let file = StagedFile {
        local_path: "/r/data/day".into(),
        temp_path: "/r/tmp/day.part".into(),
        source: StagedSource::Files(vec!["/a".into(), "/b".into()]),
    };
    let appended: Vec<StageAction> = walk(&file, false, false)
        .into_iter()
        .filter(|action| matches!(action, StageAction::Append(_)))
        .collect();
    assert_eq!(appended, vec![StageAction::Append("/a".into()), StageAction::Append("/b".into())]);
    let empty = StagedFile { source: StagedSource::Files(Vec::new()), ..file };
    assert!(!walk(&empty, false, false).iter().any(|a| matches!(a, StageAction::Append(_))));
}

#[test]
fn stages_that_fail_tell_what_failed() {
    let file = staged_snapshot(&plan(LocalSnapshotState::Missing));
    let told = |stage, report| file.advance(stage, report).expect_err("failed").text();
    assert_eq!(told(Stage::CreateLocalDir, StageReport::Fault), "failed to create /r/data");
    assert_eq!(told(Stage::CreateTempDir, StageReport::Fault), "failed to create /r/tmp");
    assert_eq!(told(Stage::RemoveTemp, StageReport::Fault), "failed to remove /r/tmp/k.part");
    assert_eq!(told(Stage::Request, StageReport::Fault), "snapshot download request failed for k");
    assert_eq!(told(Stage::RemoveLocal, StageReport::Fault), "failed to remove /r/data/k");
    assert_eq!(told(Stage::CreateTemp, StageReport::Fault), "failed to create /r/tmp/k.part");
    assert_eq!(told(Stage::Fill(0), StageReport::ReadFault), "failed to stream k");
    assert_eq!(told(Stage::Fill(0), StageReport::Fault), "failed to write /r/tmp/k.part");
    assert_eq!(told(Stage::Flush, StageReport::Fault), "failed to flush /r/tmp/k.part");
    assert_eq!(told(Stage::Sync, StageReport::Fault), "failed to sync /r/tmp/k.part");
    assert_eq!(told(Stage::RemoveTarget, StageReport::Fault), "failed to replace /r/data/k");
    assert_eq!(told(Stage::Move, StageReport::Fault), "failed to move /r/data/k into place");
    let own = TickError::Request { status: Some(404), message: "gone".into(), retryable: false };
    assert_eq!(told(Stage::Request, StageReport::Refused(own)), "gone");
    assert_eq!(file.advance(Stage::ProbeTemp, StageReport::Fault).unwrap(), Stage::Request);
}

fn look_up(answers: [Result<Option<&str>, &str>; 4]) -> (Result<Option<String>, String>, usize) {
    let mut lookup = CredentialLookup::new();
    let mut asked = 0;
    loop {
        let answer = match lookup.source {
            CredentialSource::PrimaryEntry => &answers[0],
            CredentialSource::LegacyEntry => &answers[1],
            CredentialSource::PrimaryFile => &answers[2],
            CredentialSource::LegacyFile => &answers[3],
        };
        asked += 1;
        let answer = match answer {
            Ok(key) => Ok(key.map(str::to_string)),
            Err(message) => Err(TickError::Other(message.to_string())),
        };
        match lookup.answer(answer) {
            LookupStep::Next(next) => lookup = next,
            LookupStep::Done(result) => return (result.map_err(|error| error.text()), asked),
        }
    }
}

#[test]
fn keys_are_looked_up_place_by_place() {
    let key = |text: &str| Ok(Some(text.to_string()));
    assert_eq!(look_up([Ok(Some(" a ")), Err("x"), Err("y"), Err("z")]), (key("a"), 1));
    assert_eq!(look_up([Err("x"), Ok(Some("b")), Ok(None), Ok(None)]), (key("b"), 2));
    assert_eq!(look_up([Ok(Some("  ")), Err("x"), Ok(Some("c")), Ok(None)]), (key("c"), 3));
    assert_eq!(look_up([Ok(None), Ok(None), Ok(None), Ok(Some("d"))]), (key("d"), 4));
    assert_eq!(look_up([Ok(None), Ok(None), Ok(None), Ok(None)]), (Ok(None), 4));
    assert_eq!(look_up([Err("x"), Err("y"), Ok(None), Ok(None)]), (Err("x".into()), 4));
    assert_eq!(look_up([Ok(None), Err("y"), Ok(None), Ok(None)]), (Err("y".into()), 4));
    assert_eq!(look_up([Err("x"), Ok(None), Err("z"), Ok(Some("d"))]), (Err("z".into()), 3));
}

struct Store(std::cell::RefCell<Vec<String>>);

impl CredentialStore for Store {
    fn get_api_key(&self) -> Result<Option<String>, TickError> {
        Ok(self.0.borrow().last().cloned())
    }

    fn set_api_key(&self, api_key: &str) -> Result<(), TickError> {
        self.0.borrow_mut().push(api_key.to_string());
        Ok(())
    }
}

#[test]
fn typed_keys_are_checked_before_they_are_kept() {
    let store = Store(std::cell::RefCell::new(Vec::new()));
    let error = store_typed_key(&store, " \n").unwrap_err();
    assert_eq!(error.text(), "API key cannot be empty");
    assert!(store.0.borrow().is_empty());
    store_typed_key(&store, " pk \n").unwrap();
    assert_eq!(store.get_api_key().unwrap().as_deref(), Some("pk"));
    assert_eq!(checked_key(" k ").unwrap(), "k");
}

#[test]
fn one_place_for_the_key_is_enough() {
    let fault = |text: &str| Err(TickError::Other(text.into()));
    assert!(fallback_result(Ok(()), None).is_ok());
    assert!(fallback_result(fault("a"), Some(Ok(()))).is_ok());
    assert_eq!(
        fallback_result(fault("a"), Some(fault("b"))).unwrap_err().text(),
        "failed to persist Polaris API key in fallback file stores: a; b"
    );
    assert_eq!(
        keychain_problem(false, &None, "k"),
        Some("failed to store Polaris API key in OS credential store")
    );
    assert_eq!(
        keychain_problem(true, &Some("other".into()), "k"),
        Some("stored Polaris API key could not be read back from OS credential store")
    );
    assert_eq!(keychain_problem(true, &Some("k".into()), "k"), None);
    assert_eq!(
        credential_fallback_path(Some("/d".into())).unwrap(),
        "/d/account/api-key.txt"
    );
    assert!(credential_fallback_path(None).is_err());
    assert_eq!(SnapshotEntry { key: "a".into(), date: None }.clone().key, "a");
}
