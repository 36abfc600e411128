use polaris::calendar::Date;
use polaris::layout::{infer_date_from_text, stored_snapshot_of, Layout};

#[test]
fn opaque_key_maps_to_canonical_path() {
    let layout = Layout::new("/tmp/tick".into());
    let path = layout
        .data_path_for_key("standard-aster-ASTERUSDT-2026-06-01-00")
        .expect("path");
    assert_eq!(
        path,
        "/tmp/tick/data/standard/aster/ASTERUSDT/2026-06-01/standard-aster-ASTERUSDT-2026-06-01-00.jsonl.zst"
    );
}

#[test]
fn opaque_key_parsing_handles_digits_in_market_name() {
    let path = Layout::new("/tmp/tick".into())
        .data_path_for_key("standard-tradexyz-xyz:SP500-2026-06-23-00")
        .expect("path");
    assert_eq!(
        path,
        "/tmp/tick/data/standard/tradexyz/xyz:SP500/2026-06-23/standard-tradexyz-xyz:SP500-2026-06-23-00.jsonl.zst"
    );
}

#[test]
fn local_listing_reads_metadata_from_directory_structure() {
    let layout = Layout::new("/tmp/tick".into());
    let file = layout
        .data_path_for_key("standard-aster-ASTERUSDT-2026-06-01-00")
        .expect("path");

    let entries = layout.list_local_snapshots(&vec![file]);
    assert_eq!(entries.len(), 1);
    let entry = &entries[0];
    assert_eq!(entry.key, "standard-aster-ASTERUSDT-2026-06-01-00");
    assert_eq!(entry.source.as_deref(), Some("aster"));
    assert_eq!(entry.market.as_deref(), Some("ASTERUSDT"));
    assert_eq!(entry.date.as_deref(), Some("2026-06-01"));
}

#[test]
fn date_extraction_finds_yyyy_mm_dd_in_opaque_key() {
    assert_eq!(
        infer_date_from_text("standard-aster-ASTERUSDT-2026-06-01-00"),
        Some(Date::from_ymd_opt(2026, 6, 1).unwrap())
    );
    assert_eq!(
        infer_date_from_text("raw-aster-ASTERUSDT-2026-06-02-000000"),
        Some(Date::from_ymd_opt(2026, 6, 2).unwrap())
    );
}

#[test]
fn dates_that_do_not_exist_are_passed_over() {
    assert_eq!(infer_date_from_text("2026-02-30 then 2026-03-01"), Date::from_ymd_opt(2026, 3, 1));
    assert_eq!(infer_date_from_text("é2026-13-01é"), None);
    assert_eq!(infer_date_from_text("é2024-02-29é"), Date::from_ymd_opt(2024, 2, 29));
    assert_eq!(infer_date_from_text("2x26-01-01"), None);
    assert_eq!(infer_date_from_text(""), None);
}

#[test]
fn path_keys_lie_below_the_data_directory() {
    let layout = Layout::new("/tmp/tick".into());
    assert_eq!(
        layout
            .data_path_for_key("bronze/aster/BTCUSDT/2026-06-01/a.jsonl.zst")
            .expect("path"),
        "/tmp/tick/data/bronze/aster/BTCUSDT/2026-06-01/a.jsonl.zst"
    );
    assert_eq!(
        layout
            .data_path_for_key("events/aster/BTCUSDT/aster_BTCUSDT_2026-06-01.jsonl.zst")
            .expect("path"),
        "/tmp/tick/data/events/aster/BTCUSDT/aster_BTCUSDT_2026-06-01.jsonl.zst"
    );
}

#[test]
fn keys_without_a_place_are_refused() {
    let layout = Layout::new("/tmp/tick".into());
    let message = |key: &str| layout.data_path_for_key(key).expect_err("refused").text();
    assert_eq!(message("  "), "snapshot key must not be empty");
    assert_eq!(message("standard-aster"), "opaque key does not contain a date: standard-aster");
    assert_eq!(message("2026-06-01"), "opaque key has unexpected format: 2026-06-01");
    assert_eq!(message("x_2026-06-01"), "opaque key has unexpected format: x_2026-06-01");
    assert_eq!(message("tier-2026-06-01"), "invalid opaque key prefix: tier-2026-06-01");
    assert_eq!(message("tier-market-2026-06-01"), "invalid opaque key prefix: tier-market-2026-06-01");
    assert_eq!(message("../2026-06-01/x"), "opaque key has unexpected format: ../2026-06-01/x");
    assert_eq!(message("foo/bar"), "opaque key does not contain a date: foo/bar");
    assert_eq!(message("/etc/2026-06-01"), "opaque key has unexpected format: /etc/2026-06-01");
}

#[test]
fn dashes_of_the_source_stay_in_the_source() {
    assert_eq!(
        Layout::new("/r".into())
            .data_path_for_key("raw-a-b-c-M-2026-06-01-x")
            .expect("path"),
        "/r/data/raw/a-b-c/M/2026-06-01/raw-a-b-c-M-2026-06-01-x.jsonl.zst"
    );
}

#[test]
fn directories_lie_under_the_root() {
    let layout = Layout::new("/r".into());
    assert_eq!(layout.root(), "/r");
    assert_eq!(layout.data_root(), "/r/data");
    assert_eq!(layout.tmp_root(), "/r/tmp");
    assert_eq!(layout.cache_root(), "/r/cache");
    assert_eq!(layout.lock_path(), "/r/locks/sync.lock");
    assert_eq!(layout.catalog_cache_path("aster", "BTCUSDT"), "/r/cache/catalog/aster/BTCUSDT.json");
    assert_eq!(Layout::new("/r/".into()).data_root(), "/r/data");
    assert_eq!(Layout::new("".into()).data_root(), "data");
}

#[test]
fn temporary_files_are_named_by_digest() {
    assert_eq!(
        Layout::new("/r".into()).temp_path_for_key("hello world"),
        "/r/tmp/b94d27b9934d3e08a52e52d7da7dabfac484efe37a5380ee9088f7ace2efcde9.part"
    );
}

#[test]
fn listings_are_ordered_by_key_and_keep_to_the_data_directory() {
    let layout = Layout::new("/r".into());
    let entries = layout.list_local_snapshots(&vec![
        "/r/data/t/s/m/2026-06-02/b.jsonl.zst".into(),
        "/r/tmp/x.part".into(),
        "/r/data/a.txt".into(),
    ]);
    let keys: Vec<&str> = entries.iter().map(|entry| entry.key.as_str()).collect();
    assert_eq!(keys, vec!["a.txt", "b"]);
    assert_eq!(entries[0].source, None);
    assert_eq!(entries[1].filename, "b.jsonl.zst");
    assert_eq!(entries[1].date.as_deref(), Some("2026-06-02"));
    let slashed = stored_snapshot_of("/r/data", "/r/data/t/s/m/d\\f.jsonl.zst").expect("entry");
    assert_eq!(slashed.date.as_deref(), Some("d"));
}

#[test]
fn different_keys_lie_in_different_files() {
    let layout = Layout::new("/r".into());
    let a = layout.data_path_for_key("t-s-m-2026-06-01-a").unwrap();
    let b = layout.data_path_for_key("t-s-m-2026-06-01-b").unwrap();
    assert_ne!(a, b);
    assert_eq!(stored_snapshot_of("/r/data", &a).unwrap().key, "t-s-m-2026-06-01-a");
    assert_eq!(layout.part_path_for_digest("abc"), "/r/tmp/abc.part");
}

#[test]
fn stored_snapshots_are_listed_with_their_parts() {
    let layout = Layout::new("/r/.//x".into());
    let key = "t-s-d-m-2026-06-01-a\\b";
    let path = layout.data_path_for_key(key).unwrap();
    let entry = stored_snapshot_of(&layout.data_root(), &path).expect("entry");
    assert_eq!(entry.key, key);
    assert_eq!(entry.source.as_deref(), Some("s-d"));
    assert_eq!(entry.market.as_deref(), Some("m"));
    assert_eq!(entry.date.as_deref(), Some("2026-06-01"));
    let a = layout.data_path_for_key("--m-2026-06-01").unwrap();
    let b = layout.data_path_for_key("t--m-2026-06-01").unwrap();
    assert_ne!(a, b);
}

#[test]
fn first_date_of_a_text_is_taken() {
    let first = infer_date_from_text("x2026-13-01-2026-06-01-2026-06-02").expect("date");
    assert_eq!(first.text(), "2026-06-01");
    assert!(infer_date_from_text("2026-02-30").is_none());
}

#[test]
fn path_keys_are_listed_by_their_steps() {
    let layout = Layout::new("/r".into());
    let listed = |key: &str| {
        let path = layout.data_path_for_key(key).expect("path");
        stored_snapshot_of("/r/data", &path).expect("entry")
    };
    let entry = listed("snapshots/standard/aster/ASTERUSDT/2026-06-01.jsonl.zst");
    assert_eq!(entry.key, "2026-06-01");
    assert_eq!(entry.filename, "2026-06-01.jsonl.zst");
    assert_eq!(entry.source.as_deref(), Some("standard"));
    assert_eq!(entry.market.as_deref(), Some("aster"));
    assert_eq!(entry.date.as_deref(), Some("ASTERUSDT"));
    let short = listed("aster/2026-06-01");
    assert_eq!(short.key, "2026-06-01");
    assert_eq!(short.source, None);
}
