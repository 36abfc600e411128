use polaris::api::{
    AccountAuth, AccountIdentity as LiveIdentity, AccountResponse, AccountSubscription,
    DatasetAccess, DatasetAccessStatus, SnapshotEntry,
};
use polaris::calendar::{Date, Timestamp};
use polaris::collections::{TextMap, TextSet};
use polaris::error::TickError;
use polaris::layout::LocalSnapshotEntry;
use polaris::planner::{build_sync_plan, TimeWindow};
use polaris::syncer::SyncProgressEvent;
use polaris::tui::browser::RemoteListTui;
use polaris::tui::coverage::{
    build_day_coverages, compact_count, group_local_snapshot_keys, render_completion_bar,
    select_initial_day, spinner_frame, summarize_local_snapshots, sync_adjusted_day_totals,
};
use polaris::tui::keys::{Key, KeyAction, KeyMeaning, KeyPress};
use polaris::tui::model::{
    AccountIdentity, AccountLoginSession, ActiveDaySync, ApiKeyRequirement, DatasetView, DayState,
    DaySyncUpdate, FileManagerTarget, RemoteDatasetEntry, RemoteTuiSeed, ViewMode,
};
use polaris::tui::page::{
    access_color, account_page, account_shortcut, account_status, format_account_root, Piece, Tone,
};
use polaris::tui::storage::{
    account_identity_path, bookmarks_path, file_manager_command, open_url_command, Platform,
};

fn at(day: u32) -> Timestamp {
    Timestamp::from_ymd_hms_opt(2026, 6, day, 0, 0, 0).unwrap()
}

fn date(day: u32) -> Date {
    Date::from_ymd_opt(2026, 6, day).unwrap()
}

fn dataset(name: &str, access: Option<DatasetAccess>) -> RemoteDatasetEntry {
    let (source, market) = name.split_once(':').expect("name");
    RemoteDatasetEntry {
        source: source.into(),
        market: market.into(),
        start: at(1),
        end: at(4),
        catalog_source: None,
        access,
        categories: Vec::new(),
        dataset: name.into(),
    }
}

fn restricted() -> Option<DatasetAccess> {
    Some(DatasetAccess { status: DatasetAccessStatus::Restricted, public_cutoff_date: None })
}

fn local(key: &str) -> LocalSnapshotEntry {
    LocalSnapshotEntry {
        key: key.into(),
        path: format!("/r/data/{key}"),
        filename: key.into(),
        source: Some("aster".into()),
        market: Some("BTC".into()),
        date: None,
        start: Some(at(2)),
        end: Some(at(3)),
    }
}

fn browser(datasets: Vec<RemoteDatasetEntry>) -> RemoteListTui {
    RemoteListTui::new(
        datasets,
        vec![local("t-aster-BTC-2026-06-01-a")],
        "/r".into(),
        4,
        RemoteTuiSeed::default(),
        Ok(TextSet::new()),
    )
}

fn remote(key: &str) -> SnapshotEntry {
    SnapshotEntry { key: key.into(), date: None }
}

/// A browser that shows a dataset of four days: full, partial, empty, nothing on the server.
fn opened() -> RemoteListTui {
    let mut app = browser(vec![dataset("aster:BTC", restricted())]);
    app.reload_local_state(vec![
        local("t-aster-BTC-2026-06-01-a"),
        local("t-aster-BTC-2026-06-02-b"),
    ]);
    let entry = app.selected_dataset().expect("dataset").clone();
    app.open_selected_dataset(
        entry,
        vec![
            remote("t-aster-BTC-2026-06-01-a"),
            remote("t-aster-BTC-2026-06-02-b"),
            remote("t-aster-BTC-2026-06-02-c"),
            remote("t-aster-BTC-2026-06-03-d"),
        ],
    );
    app
}

fn press(key: Key) -> KeyPress {
    KeyPress { key, control: false, modified: false }
}

fn text(line: &[Piece]) -> String {
    line.iter().map(|piece| piece.text.as_str()).collect()
}

#[test]
fn days_are_shown_month_by_month() {
    let app = opened();
    let view = app.dataset_view().expect("view");
    assert_eq!(view.selected_day, 1);
    let states: Vec<DayState> = view.days.iter().map(|day| day.state()).collect();
    assert_eq!(
        states,
        vec![DayState::Full, DayState::Partial, DayState::Empty, DayState::NoRemote]
    );
    let grid = view.render_day_grid(&None, 0);
    let lines: Vec<String> = grid.iter().map(|line| text(line)).collect();
    assert_eq!(
        lines,
        vec![
            "June 2026",
            " Mon     Tue     Wed     Thu     Fri     Sat     Sun",
            " 1 OK    2 ~1    3 --    4 ..                           ",
        ]
    );
    assert_eq!(grid[2][0].tone, Tone::Green);
    assert_eq!(grid[2][1].tone, Tone::Yellow);
    assert!(grid[2][1].bold && grid[2][1].reversed);
    assert!(!grid[2][0].reversed);
    assert_eq!(grid[2][6].tone, Tone::Dim);
}

#[test]
fn months_begin_in_their_week() {
    let start = Date::from_ymd_opt(2026, 5, 30).unwrap();
    let view = DatasetView {
        dataset: dataset("aster:BTC", None),
        days: build_day_coverages(Vec::new(), &Vec::new(), start, date(2)),
        selected_day: 0,
    };
    let sync = Some(ActiveDaySync {
        dataset: "aster:BTC".into(),
        date: date(1),
        remote_total: 3,
        local_present: 1,
        downloaded: 1,
        failed: 0,
        download_bytes: 0,
        download_total_bytes: None,
        deferred_update: None,
    });
    let lines: Vec<String> =
        view.render_day_grid(&sync, 1).iter().map(|line| text(line)).collect();
    assert_eq!(
        lines,
        vec![
            "May 2026",
            " Mon     Tue     Wed     Thu     Fri     Sat     Sun",
            "                                        30 ..   31 ..   ",
            "",
            "June 2026",
            " Mon     Tue     Wed     Thu     Fri     Sat     Sun",
            " 1 /     2 ..                                           ",
        ]
    );
    assert_eq!(text(&view.grid_title(true)), "[unknown] * aster:BTC");
    assert_eq!(text(&view.grid_title(false)), "[unknown] aster:BTC");
}

#[test]
fn the_selected_day_is_summed_up() {
    let app = opened();
    let view = app.dataset_view().expect("view");
    let lines: Vec<String> = view
        .selected_day_summary(&None, &Some("fine".into()))
        .iter()
        .map(|line| text(line))
        .collect();
    assert_eq!(
        lines,
        vec![
            "2026-06-02  PARTIAL",
            "coverage: [#########.........] 1/2   missing: 1",
            "stored under: data/t/aster/BTC/2026-06-02",
            "status: fine",
        ]
    );
    let sync = Some(ActiveDaySync {
        dataset: "aster:BTC".into(),
        date: date(2),
        remote_total: 2,
        local_present: 1,
        downloaded: 5,
        failed: 0,
        download_bytes: 0,
        download_total_bytes: None,
        deferred_update: None,
    });
    assert_eq!(sync_adjusted_day_totals(view, &view.days[1], &sync), (2, 2, 0, "syncing"));
    let summary = view.selected_day_summary(&sync, &None);
    assert_eq!(text(&summary[0]), "2026-06-02  SYNCING");
    assert_eq!(summary[0][2].tone, Tone::Cyan);
    assert_eq!(summary.len(), 3);
}

#[test]
fn counts_and_bars_are_short() {
    assert_eq!(compact_count(99), "99");
    assert_eq!(compact_count(100), "99+");
    assert_eq!(render_completion_bar(3, 0, 18), "[........................] no remote data");
    assert_eq!(render_completion_bar(9, 4, 4), "[####] 4/4");
    assert_eq!(render_completion_bar(1, 3, 10), "[###.......] 1/3");
    assert_eq!(render_completion_bar(usize::MAX, usize::MAX, 2), format!("[##] {0}/{0}", usize::MAX));
    let frames: Vec<&str> = (0..5).map(spinner_frame).collect();
    assert_eq!(frames, vec!["|", "/", "-", "\\", "|"]);
}

#[test]
fn what_is_stored_is_summed_up_by_dataset() {
    let mut other = local("b");
    other.market = None;
    let mut late = local("a");
    late.start = Some(at(1));
    late.end = None;
    let summaries = summarize_local_snapshots(&vec![local("c"), other.clone(), late.clone()]);
    let summary = summaries.get("aster:BTC").expect("summary");
    assert_eq!(summary.snapshot_count, 2);
    assert_eq!(summary.first_start, Some(at(1)));
    assert_eq!(summary.last_end, Some(at(3)));
    assert!(summaries.get("aster:ETH").is_none());
    let grouped = group_local_snapshot_keys(vec![local("c"), other, late]);
    assert_eq!(grouped.get("aster:BTC"), Some(&vec!["a".to_string(), "c".to_string()]));
    let mut map: TextMap<u8> = TextMap::new();
    assert_eq!(map.insert("k".into(), 1), None);
    assert_eq!(map.insert("k".into(), 2), Some(1));
    assert_eq!(map.get("k"), Some(&2));
}

#[test]
fn marked_days_go_before_written_days() {
    let marked = SnapshotEntry { key: "t-a-b-2026-06-01".into(), date: Some(date(2)) };
    let days = build_day_coverages(vec![marked], &Vec::new(), date(1), date(2));
    assert!(days[0].remote_keys.is_empty());
    assert_eq!(days[1].missing_keys, vec!["t-a-b-2026-06-01"]);
    assert_eq!(select_initial_day(&days), 1);
    assert_eq!(select_initial_day(&Vec::new()), 0);
    assert!(build_day_coverages(Vec::new(), &Vec::new(), date(2), date(1)).is_empty());
}

#[test]
fn lists_show_access_bookmarks_and_names() {
    let mut app = browser(vec![dataset("aster:BTC", restricted()), dataset("b:C", None)]);
    let lines: Vec<String> = app.browser_lines().iter().map(|line| text(line)).collect();
    assert_eq!(lines, vec!["[restricted]   aster:BTC", "[unknown]      b:C"]);
    assert_eq!(access_color(restricted()), Tone::Red);
    let toggle = app.bookmark_toggle().unwrap();
    app.toggle_current_bookmark(toggle);
    assert_eq!(text(&app.browser_lines()[0]), "[restricted] * aster:BTC");
    assert_eq!(text(&app.category_carousel_title()), "*all* | bookmarks");
    app.search = "nothing like it".into();
    app.recompute_filter();
    assert_eq!(text(&app.browser_lines()[0]), "No datasets match the current search");
}

#[test]
fn bookmarks_that_cannot_be_read_are_told() {
    let app = RemoteListTui::new(
        Vec::new(),
        Vec::new(),
        "/r".into(),
        4,
        RemoteTuiSeed { source: Some("aster".into()), market: Some("BTC".into()), search: None },
        Err(TickError::Other("broken".into())),
    );
    assert_eq!(app.status_message.as_deref(), Some("warning: failed to load bookmarks: broken"));
    assert_eq!(app.search, "aster:BTC");
}

#[test]
fn the_account_page_follows_what_is_known() {
    let mut app = browser(Vec::new());
    let home = Some("/home/u".to_string());
    app.account_view.root = "/home/u/data".into();
    let page = account_page(&app.account_view, &home);
    let lines: Vec<String> = page.iter().map(|line| text(line)).collect();
    assert_eq!(
        lines,
        vec![
            "".to_string(),
            "Polaris account".into(),
            "Press . again to sign in in your browser and add an API key.".into(),
            "".into(),
            "─".repeat(68),
            "base   https://api.polaris.supply".into(),
            "root   ~/data".into(),
        ]
    );
    assert_eq!(account_status(&app.account_view), "not configured");
    assert_eq!(account_shortcut(&app.account_view), "sign in");
    app.account_view.active_login = Some(AccountLoginSession {
        user_code: "ABCD".into(),
        login_url: "https://polaris.supply".into(),
        expires_at: at(7),
    });
    app.account_view.identity = Some(AccountIdentity::from_account(&AccountResponse {
        user_id: "user-live".into(),
        auth: AccountAuth { provider: "api_key".into(), key_id: None },
        identity: LiveIdentity {
            display_name: Some("Live User".into()),
            email: None,
            wallet_address: Some("0xlive".into()),
            avatar_url: None,
            created_at: None,
            updated_at: None,
        },
        subscription: AccountSubscription { tier: "free".into() },
    }));
    assert_eq!(account_shortcut(&app.account_view), "reopen browser");
    let page = account_page(&app.account_view, &None);
    let lines: Vec<String> = page.iter().map(|line| text(line)).collect();
    assert_eq!(
        lines[2],
        "Finish login in your browser. Polaris will save the returned API key automatically."
    );
    assert_eq!(lines[4..9], ["name   Live User", "email  --", "plan   free", "wallet 0xlive", ""]);
    assert_eq!(
        lines[11..],
        [
            "root   /home/u/data",
            "",
            "code   ABCD",
            "expires2026-06-07 00:00:00Z",
            "browserhttps://polaris.supply",
        ]
    );
    app.account_view.api_key_present = true;
    assert_eq!(account_status(&app.account_view), "configured");
    assert_eq!(account_shortcut(&app.account_view), "open account");
    assert_eq!(format_account_root("/home/u", &home), "~");
    assert_eq!(format_account_root("/home/user", &home), "/home/user");
    assert_eq!(format_account_root("/home//u//data/./polaris/", &home), "~/data/./polaris");
    assert_eq!(format_account_root("/srv/", &Some(String::new())), "~//srv");
}

#[test]
fn typed_keys_are_masked() {
    let mut app = opened();
    app.open_api_key_prompt(ApiKeyRequirement::LegacyPreviewWindow);
    let lines = |app: &RemoteListTui| -> Vec<String> {
        app.api_key_prompt
            .as_ref()
            .expect("prompt")
            .prompt_lines()
            .iter()
            .map(|line| text(line))
            .collect()
    };
    assert_eq!(lines(&app)[0], "Older than 7 days requires a Polaris API key.");
    assert_eq!(lines(&app)[3], "API key: <empty>");
    assert_eq!(app.submit_api_key_prompt(), None);
    assert_eq!(lines(&app)[6], "API key cannot be empty");
    app.push_api_key_prompt_char(' ');
    app.push_api_key_prompt_char('é');
    assert_eq!(lines(&app)[3], "API key: **");
    assert_eq!(lines(&app).len(), 5);
    assert_eq!(app.submit_api_key_prompt().as_deref(), Some("é"));
    app.pop_api_key_prompt_char();
    assert_eq!(app.api_key_prompt.as_ref().unwrap().input, " ");
    app.close_api_key_prompt();
    assert_eq!(app.submit_api_key_prompt(), None);
}

#[test]
fn requirements_are_told_in_words() {
    assert!(ApiKeyRequirement::Restricted.message().contains("restricted"));
    assert_eq!(
        ApiKeyRequirement::Preview { public_cutoff_date: Some(date(1)) }.message(),
        "This dataset is preview-only before 2026-06-01. Older snapshot downloads require a Polaris API key."
    );
    assert_eq!(
        ApiKeyRequirement::Preview { public_cutoff_date: None }.message(),
        "This dataset is preview-only. Older snapshot downloads require a Polaris API key."
    );
    assert_eq!(
        dataset("a:b", restricted()).access_details(),
        "restricted: API key required for all history"
    );
    assert_eq!(dataset("a:b", None).access_details(), "unknown");
    assert_eq!(dataset("a:b", None).access_sort_order(), 255);
    let preview = |public_cutoff_date| {
        dataset("a:b", Some(DatasetAccess { status: DatasetAccessStatus::Preview, public_cutoff_date }))
    };
    assert_eq!(
        preview(Some(date(1))).access_details(),
        "preview: public from 2026-06-01 onward, API key required before that"
    );
    assert_eq!(
        preview(None).access_details(),
        "preview: only recent history is public, older data requires an API key"
    );
}

#[test]
fn keys_do_what_the_page_says() {
    let today = date(10);
    let mut app = browser(vec![dataset("aster:BTC", None), dataset("b:C", None)]);
    assert_eq!(app.press_key(press(Key::Char('x')), today, false), KeyAction::Nothing);
    assert!(matches!(app.mode, ViewMode::Splash));
    assert_eq!(app.press_key(press(Key::Esc), today, false), KeyAction::Quit);
    app.press_key(press(Key::Char(' ')), today, false);
    assert!(matches!(app.mode, ViewMode::Browser));
    app.press_key(press(Key::Down), today, false);
    app.press_key(press(Key::Down), today, false);
    assert_eq!(app.selected, 1);
    app.press_key(press(Key::Char('B')), today, false);
    app.press_key(press(Key::Char('t')), today, false);
    assert_eq!(app.search, "Bt");
    assert_eq!(app.filtered_indices, vec![0]);
    app.press_key(press(Key::Backspace), today, false);
    app.press_key(press(Key::Backspace), today, false);
    app.press_key(press(Key::Backspace), today, false);
    assert_eq!(app.search, "");
    assert_eq!(app.press_key(press(Key::Enter), today, false), KeyAction::OpenDataset);
    assert_eq!(app.press_key(press(Key::Tab), today, false), KeyAction::ToggleBookmark);
    assert_eq!(app.press_key(press(Key::Char('.')), today, false), KeyAction::AccountShortcut);
    app.press_key(press(Key::Right), today, false);
    assert_eq!(app.selected_category().label(), "Bookmarks");
    app.press_key(press(Key::Function(2)), today, false);
    assert!(matches!(app.mode, ViewMode::Account));
    assert_eq!(app.press_key(press(Key::Char('P')), today, false), KeyAction::OpenPricing);
    assert_eq!(app.press_key(press(Key::Char('r')), today, false), KeyAction::RefreshAccount);
    assert_eq!(app.press_key(press(Key::Function(3)), today, false), KeyAction::AccountShortcut);
    assert_eq!(app.press_key(press(Key::Tab), today, false), KeyAction::Nothing);
    app.press_key(press(Key::Esc), today, false);
    assert!(matches!(app.mode, ViewMode::Browser));
    let copy = KeyPress { key: Key::Char('c'), control: true, modified: true };
    assert_eq!(app.press_key(copy, today, false), KeyAction::Quit);
    let held = KeyPress { key: Key::Char('x'), control: true, modified: true };
    assert_eq!(app.key_meaning(held, today, false), KeyMeaning::Nothing);
}

#[test]
fn days_are_selected_by_week_and_day() {
    let today = date(10);
    let mut app = opened();
    let selected = |app: &RemoteListTui| app.dataset_view().expect("view").selected_day;
    app.press_key(press(Key::Right), today, true);
    assert_eq!(selected(&app), 2);
    app.press_key(press(Key::Down), today, true);
    assert_eq!(selected(&app), 3);
    app.press_key(press(Key::Up), today, true);
    assert_eq!(selected(&app), 0);
    app.press_key(press(Key::Left), today, true);
    assert_eq!(selected(&app), 0);
    assert_eq!(app.press_key(press(Key::Tab), today, true), KeyAction::RevealSnapshot);
    assert_eq!(app.press_key(press(Key::Enter), today, true), KeyAction::SyncDay);
    app.press_key(press(Key::Right), today, true);
    assert_eq!(app.press_key(press(Key::Enter), today, false), KeyAction::Nothing);
    assert!(app.api_key_prompt.is_some());
    app.press_key(press(Key::Char('k')), today, false);
    app.press_key(press(Key::Char('\u{7}')), today, false);
    assert_eq!(app.api_key_prompt.as_ref().unwrap().input, "k");
    assert_eq!(app.press_key(press(Key::Enter), today, false), KeyAction::SubmitPrompt);
    app.press_key(press(Key::Backspace), today, false);
    app.press_key(press(Key::Esc), today, false);
    assert!(app.api_key_prompt.is_none());
    assert!(app.dataset_view().is_some());
}

#[test]
fn days_are_synced_one_at_a_time() {
    let mut app = opened();
    let request = app.request_day_sync().expect("request");
    assert_eq!(request.date, date(2));
    assert_eq!(request.requested_range.from.stamp(), "2026-06-02T00:00:00Z");
    assert_eq!(request.requested_range.to.stamp(), "2026-06-02T23:59:59Z");
    let window = TimeWindow { from: at(1), to: at(2) };
    let plan = build_sync_plan("aster", "BTC", window, window, "/r", 0, Vec::new());
    app.sync_selected_day(&request, &plan);
    assert_eq!(app.status_message.as_deref(), Some("syncing 2026-06-02"));
    assert!(app.request_day_sync().is_none());
    assert_eq!(app.status_message.as_deref(), Some("sync already in progress"));
    assert!(app.pump_sync_updates(vec![DaySyncUpdate::Failed], false).is_none());
    assert_eq!(app.status_message.as_deref(), Some("syncing 2026-06-02 (0/0)"));
    assert_eq!(app.active_sync.as_ref().unwrap().failed, 1);
    let end = app
        .pump_sync_updates(vec![DaySyncUpdate::Error("boom".into())], false)
        .expect("finished");
    assert_eq!(end.status, "error: boom");
    assert!(app.active_sync.is_none());
    assert!(app.pump_sync_updates(Vec::new(), true).is_none());
    assert_eq!(app.spinner_tick, 3);
    app.sync_selected_day(&request, &plan);
    let end = app.pump_sync_updates(Vec::new(), true).expect("finished");
    assert_eq!(end.status, "error: sync task disconnected");
    assert_eq!(app.find_dataset(&end.dataset).expect("dataset").dataset, "aster:BTC");
    assert!(app.find_dataset("x:y").is_none());
    let event = SyncProgressEvent::Downloaded { key: "k".into(), total_bytes: 9 };
    assert_eq!(
        DaySyncUpdate::from_progress(event),
        DaySyncUpdate::Downloaded { total_bytes: 9 }
    );
}

#[test]
fn snapshots_of_a_day_can_be_shown() {
    let app = opened();
    let request = app.reveal_selected_day_snapshot().unwrap().expect("request");
    assert_eq!(request.data_root, "/r/data");
    assert_eq!(
        request.paths,
        vec!["/r/data/t/aster/BTC/2026-06-02/t-aster-BTC-2026-06-02-b.jsonl.zst"]
    );
    assert!(request.fallback.starts_with("snapshot folder not created yet: /r/data/t/"));
    assert!(browser(Vec::new()).reveal_selected_day_snapshot().unwrap().is_none());
    assert_eq!(bookmarks_path("/r"), "/r/bookmarks.json");
    assert_eq!(account_identity_path("/r"), "/r/account/identity.json");
}

#[test]
fn systems_show_files_each_in_its_way() {
    let file = FileManagerTarget::File("/a/b".into());
    let dir = FileManagerTarget::Directory("/a".into());
    assert_eq!(file_manager_command(&file, Platform::MacOs), vec!["open", "-R", "/a/b"]);
    assert_eq!(file_manager_command(&file, Platform::Windows), vec!["explorer", "/select,/a/b"]);
    assert_eq!(file_manager_command(&file, Platform::Other), vec!["xdg-open", "/a"]);
    assert_eq!(file_manager_command(&dir, Platform::Other), vec!["xdg-open", "/a"]);
    assert_eq!(open_url_command("u", Platform::MacOs), vec!["open", "u"]);
    assert_eq!(open_url_command("u", Platform::Windows), vec!["explorer", "u"]);
    assert_eq!(open_url_command("u", Platform::Other), vec!["xdg-open", "u"]);
}

#[test]
fn bookmarks_toggle_back() {
    let mut app = browser(vec![dataset("aster:BTC", None)]);
    for expected in ["bookmarked aster:BTC", "removed bookmark for aster:BTC"] {
        let toggle = app.bookmark_toggle().expect("toggle");
        app.toggle_current_bookmark(toggle);
        assert_eq!(app.status_message.as_deref(), Some(expected));
    }
    assert!(app.bookmarks.items().is_empty());
    assert!(browser(Vec::new()).bookmark_toggle().is_none());
}

#[test]
fn datasets_that_end_before_they_start_have_no_days() {
    let mut entry = dataset("aster:BTC", restricted());
    entry.end = Timestamp::from_ymd_hms_opt(2026, 5, 1, 0, 0, 0).unwrap();
    let mut app = browser(vec![entry.clone()]);
    app.open_selected_dataset(entry, Vec::new());
    assert!(app.dataset_view().expect("view").days.is_empty());
    assert_eq!(app.press_key(press(Key::Down), date(10), false), KeyAction::Nothing);
    assert_eq!(app.press_key(press(Key::Enter), date(10), false), KeyAction::SyncDay);
    assert!(app.request_day_sync().is_none());
    assert!(app.reveal_selected_day_snapshot().unwrap().is_none());
    assert!(app.dataset_view().expect("view").render_day_grid(&None, 0).is_empty());
}

#[test]
fn only_presses_of_keys_do_anything() {
    let today = date(3);
    let mut app = opened();
    let stop = KeyPress { key: Key::Char('c'), control: true, modified: true };
    let before = format!("{app:?}");
    for key in [stop, press(Key::Esc), press(Key::Left), press(Key::Enter)] {
        assert_eq!(app.handle_key_event(false, key, today, false), KeyAction::Nothing);
        assert_eq!(format!("{app:?}"), before);
    }
    assert_eq!(app.handle_key_event(true, press(Key::Enter), today, false), KeyAction::Nothing);
    assert!(app.api_key_prompt.is_some());
    assert_eq!(app.handle_key_event(true, stop, today, false), KeyAction::Quit);
    assert_eq!(app.api_key_prompt.as_ref().unwrap().input, "");
    assert_eq!(app.handle_key_event(true, press(Key::Esc), today, false), KeyAction::Nothing);
    assert!(app.api_key_prompt.is_none());
    assert!(app.dataset_view().is_some());
}
