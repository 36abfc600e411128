use polaris::api::{
    body_snippet, catalog_categories, decode_error, failure_message, http_error, poll_body, response_body,
    ApiMethod, CatalogCategories, DatasetAccess, DatasetAccessStatus, PolarisClient, SnapshotEntry,
    SnapshotListing, SnapshotsPage,
};
use polaris::calendar::{Date, Timestamp};
use polaris::error::TickError;

fn client(key: Option<&str>) -> PolarisClient {
    PolarisClient::new("https://example.test//", key.map(str::to_string))
}

#[test]
fn requests_carry_the_key() {
    let request = client(Some("k")).fetch_account();
    assert_eq!(request.method, ApiMethod::Get);
    assert_eq!(request.url, "https://example.test/account");
    assert_eq!(request.bearer.as_deref(), Some("k"));
    assert!(client(Some("k")).has_api_key());
    assert!(!client(None).has_api_key());
    let request = client(Some("k")).start_cli_auth();
    assert_eq!(request.method, ApiMethod::Post);
    assert_eq!(request.url, "https://example.test/auth/cli/start");
    assert_eq!(request.bearer, None);
}

#[test]
fn feedback_posts_message_and_bearer_token() {
    let request = client(Some("polaris_key_example")).submit_feedback("can you add parquet downloads?");
    assert_eq!(request.url, "https://example.test/feedback");
    assert_eq!(request.method, ApiMethod::Post);
    assert_eq!(request.bearer.as_deref(), Some("polaris_key_example"));
    assert_eq!(request.message.as_deref(), Some("can you add parquet downloads?"));
}

#[test]
fn queries_name_what_is_asked_for() {
    let pair = |name: &str, value: &str| (name.to_string(), value.to_string());
    let poll = client(None).poll_cli_auth("req-123", "poll-456");
    assert_eq!(poll.url, "https://example.test/auth/cli/poll");
    assert_eq!(poll.query, vec![pair("request_id", "req-123"), pair("poll_token", "poll-456")]);
    let catalog = client(None).fetch_catalog(Some("aster"), Some("BTCUSDT")).unwrap();
    assert_eq!(catalog.url, "https://example.test/catalog");
    assert_eq!(catalog.query, vec![pair("source", "aster"), pair("market", "BTCUSDT")]);
    assert_eq!(client(None).fetch_catalog(None, None).unwrap().query, vec![]);
    let error = client(None).fetch_catalog(None, Some("BTCUSDT")).unwrap_err();
    assert_eq!(error.text(), "--market on remote list requires --source");
    let download = client(None).download_snapshot("a-b");
    assert_eq!(download.url, "https://example.test/download");
    assert_eq!(download.query, vec![pair("key", "a-b")]);
}

fn page(keys: &[&str], total: Option<usize>, bytes: u64, next: Option<&str>) -> SnapshotsPage {
    SnapshotsPage::from_wire(
        total,
        Some(bytes),
        next.map(str::to_string),
        keys.iter()
            .map(|key| SnapshotEntry { key: key.to_string(), date: None })
            .collect(),
        Vec::new(),
    )
}

#[test]
fn snapshots_are_listed_page_by_page() {
    let from = Timestamp::from_ymd_hms_opt(2026, 6, 1, 0, 0, 0).unwrap();
    let to = Timestamp::from_ymd_hms_opt(2026, 6, 2, 0, 0, 0).unwrap();
    let mut listing = SnapshotListing::new();
    let first = listing.request(&client(None), "aster", "BTCUSDT", from, to);
    assert_eq!(first.url, "https://example.test/snapshots");
    let query: Vec<(&str, &str)> =
        first.query.iter().map(|(name, value)| (name.as_str(), value.as_str())).collect();
    assert_eq!(
        query,
        vec![
            ("source", "aster"),
            ("market", "BTCUSDT"),
            ("from", "2026-06-01T00:00:00Z"),
            ("to", "2026-06-02T00:00:00Z"),
            ("limit", "1000"),
        ]
    );
    assert!(listing.add_page(page(&["a"], Some(2), 30, Some("page2"))).unwrap());
    let second = listing.request(&client(None), "aster", "BTCUSDT", from, to);
    assert_eq!(second.query[5], ("cursor".to_string(), "page2".to_string()));
    assert!(!listing.add_page(page(&["b"], Some(2), 99, None)).unwrap());
    let keys: Vec<&str> = listing.snapshots.iter().map(|entry| entry.key.as_str()).collect();
    assert_eq!(keys, vec!["a", "b"]);
    assert_eq!(listing.total_bytes, 30);
}

#[test]
fn a_wrong_total_is_refused() {
    let mut listing = SnapshotListing::new();
    let error = listing.add_page(page(&["a"], Some(3), 1, None)).unwrap_err();
    assert_eq!(error.text(), "snapshot pagination returned 1 entries but advertised 3");
    assert!(!SnapshotListing::new().add_page(page(&["a"], Some(0), 1, None)).unwrap());
    assert!(!SnapshotListing::new().add_page(page(&["a"], None, 1, None)).unwrap());
}

#[test]
fn entries_under_both_names_are_listed() {
    let entry = |key: &str| SnapshotEntry { key: key.to_string(), date: None };
    let page = SnapshotsPage::from_wire(None, None, None, vec![entry("a")], vec![entry("b")]);
    assert_eq!(page.snapshots, vec![entry("a"), entry("b")]);
    assert_eq!(page.total_bytes, 0);
}

#[test]
fn failures_tell_status_and_body() {
    match http_error(404, "  missing \n", "catalog request failed") {
        TickError::Request { status, message, retryable } => {
            assert_eq!(status, Some(404));
            assert_eq!(message, "catalog request failed (404 Not Found): missing");
            assert!(!retryable);
        }
        other => panic!("expected request error, got {other:?}"),
    }
    assert_eq!(
        http_error(503, " ", "x").text(),
        "x (503 Service Unavailable)"
    );
    assert_eq!(failure_message("404 Not Found", " gone ", "x"), "x (404 Not Found): gone");
    assert!(http_error(500, "", "x").retryable());
    assert!(http_error(429, "", "x").retryable());
    assert!(!http_error(600, "", "x").retryable());
    assert_eq!(http_error(599, "", "x").text(), "x (599 <unknown status code>)");
}

#[test]
fn bodies_are_taken_on_success_alone() {
    assert_eq!(response_body(200, Some("ok".into()), "x").unwrap(), "ok");
    assert_eq!(response_body(204, None, "x").unwrap_err().text(), "x");
    assert_eq!(response_body(302, None, "x").unwrap_err().text(), "x (302 Found)");
    assert_eq!(poll_body(410, Some("gone".into())).unwrap(), "gone");
    assert_eq!(
        poll_body(400, Some("bad".into())).unwrap_err().text(),
        "CLI auth poll request failed (400 Bad Request): bad"
    );
    assert_eq!(poll_body(200, None).unwrap_err().text(), "CLI auth poll request failed");
}

#[test]
fn snippets_are_short() {
    assert_eq!(body_snippet("  "), "<empty body>");
    assert_eq!(body_snippet(" x "), "x");
    assert_eq!(body_snippet(&"é".repeat(240)), "é".repeat(240));
    assert_eq!(body_snippet(&"é".repeat(241)), format!("{}...", "é".repeat(240)));
    assert_eq!(
        decode_error("<html>", "account request failed").text(),
        "account request failed: failed to decode JSON response: <html>"
    );
}

#[test]
fn categories_are_one_or_many() {
    assert_eq!(catalog_categories(Some(CatalogCategories::One("Bookmarks".into()))), vec!["Bookmarks"]);
    assert_eq!(
        catalog_categories(Some(CatalogCategories::Many(vec!["Futures".into(), "Top Volume".into()]))),
        vec!["Futures", "Top Volume"]
    );
    assert!(catalog_categories(None).is_empty());
}

#[test]
fn access_is_told_in_words() {
    let cutoff = Date::from_ymd_opt(2026, 5, 28);
    let access = |status, public_cutoff_date| DatasetAccess { status, public_cutoff_date };
    let preview = access(DatasetAccessStatus::Preview, cutoff);
    assert_eq!(preview.search_text(), "preview 2026-05-28");
    assert_eq!(preview.summary_label(), "preview from 2026-05-28");
    assert_eq!(preview.status_label(), "preview");
    assert_eq!(preview.sort_order(), 1);
    assert!(preview.requires_api_key_for_date(Date::from_ymd_opt(2026, 5, 27).unwrap()));
    assert!(!preview.requires_api_key_for_date(Date::from_ymd_opt(2026, 5, 28).unwrap()));
    let vague = access(DatasetAccessStatus::Preview, None);
    assert_eq!(vague.summary_label(), "preview");
    assert!(vague.requires_api_key_for_date(cutoff.unwrap()));
    let open = access(DatasetAccessStatus::Open, None);
    assert_eq!((open.search_text().as_str(), open.sort_order()), ("public", 0));
    assert!(!open.requires_api_key_for_date(cutoff.unwrap()));
    let restricted = access(DatasetAccessStatus::Restricted, None);
    assert_eq!((restricted.summary_label().as_str(), restricted.sort_order()), ("restricted", 2));
    assert!(restricted.requires_api_key_for_date(cutoff.unwrap()));
}
