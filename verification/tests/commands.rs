use polaris::api::{
    AccountAuth, AccountIdentity, AccountResponse, AccountSubscription, CatalogMarket,
    CatalogSource, CliAuthPollResponse, CliAuthStartResponse, DatasetAccess, DatasetAccessStatus,
};
use polaris::calendar::{Date, Timestamp};
use polaris::cli::{DatasetArgs, LocalListArgs, RemoteListArgs};
use polaris::commands::{
    account_heading, account_lines, checked_limit, chosen_concurrency, filter_local_list_entries,
    filter_remote_catalog, infer_install_dir_from_executable, installer_args, login_heading,
    login_step, looks_like_cargo_target_dir, parse_requested_range, LocalListFilters, LoginStep,
    RemoteListFilters,
};
use polaris::config::{ApiKeySource, Config};
use polaris::layout::LocalSnapshotEntry;

#[test]
fn local_list_filters_apply_exact_matches() {
    let entries = vec![
        LocalSnapshotEntry {
            key: "bronze/aster/BTCUSDT/2026-06-01/a.jsonl.zst".into(),
            path: "/tmp/a".into(),
            filename: "a.jsonl.zst".into(),
            source: Some("aster".into()),
            market: Some("BTCUSDT".into()),
            date: Some("2026-06-01".into()),
            start: None,
            end: None,
        },
        LocalSnapshotEntry {
            key: "bronze/binance/ETHUSDT/2026-06-01/b.jsonl.zst".into(),
            path: "/tmp/b".into(),
            filename: "b.jsonl.zst".into(),
            source: Some("binance".into()),
            market: Some("ETHUSDT".into()),
            date: Some("2026-06-01".into()),
            start: None,
            end: None,
        },
    ];

    let filtered = filter_local_list_entries(
        entries,
        &LocalListFilters {
            exchange: Some("aster".into()),
            asset: Some("BTCUSDT".into()),
            date: Some("2026-06-01".into()),
        },
    );

    assert_eq!(filtered.len(), 1);
    assert_eq!(filtered[0].source.as_deref(), Some("aster"));
    assert_eq!(filtered[0].market.as_deref(), Some("BTCUSDT"));
}

#[test]
fn infer_install_dir_uses_parent_for_installed_binary() {
    let install_dir = infer_install_dir_from_executable("/Users/test/.polaris/bin/polaris");
    assert_eq!(install_dir, Some("/Users/test/.polaris/bin".to_string()));
}

#[test]
fn infer_install_dir_accepts_legacy_binary_name() {
    let install_dir = infer_install_dir_from_executable("/Users/test/.tick/bin/tick");
    assert_eq!(install_dir, Some("/Users/test/.tick/bin".to_string()));
}

#[test]
fn infer_install_dir_skips_non_release_binaries() {
    assert_eq!(infer_install_dir_from_executable("/repo/target/debug/polaris"), None);
    assert_eq!(infer_install_dir_from_executable("/repo/target/release/polaris"), None);
    assert_eq!(infer_install_dir_from_executable("/usr/local/bin/not-polaris"), None);
}

#[test]
fn cargo_target_detection_matches_debug_and_release_dirs() {
    assert!(looks_like_cargo_target_dir("/repo/target/debug"));
    assert!(looks_like_cargo_target_dir("/repo/target/release"));
    assert!(!looks_like_cargo_target_dir("/Users/test/.polaris/bin"));
}

#[test]
fn install_dirs_at_the_edges() {
    assert_eq!(infer_install_dir_from_executable("polaris"), Some("".to_string()));
    assert_eq!(infer_install_dir_from_executable("/"), None);
    assert_eq!(infer_install_dir_from_executable(""), None);
    assert_eq!(infer_install_dir_from_executable("/a/.."), None);
    assert_eq!(infer_install_dir_from_executable("/a//b/./polaris/"), Some("/a//b".to_string()));
    assert!(!looks_like_cargo_target_dir("/debug/target"));
    assert!(looks_like_cargo_target_dir("target/x86/release/deps"));
}

fn market(id: &str, access: DatasetAccess) -> CatalogMarket {
    CatalogMarket {
        id: id.into(),
        start: Timestamp::from_ymd_hms_opt(2026, 6, 1, 0, 0, 0).unwrap(),
        end: Timestamp::from_ymd_hms_opt(2026, 6, 2, 0, 0, 0).unwrap(),
        catalog_source: Some("manifest".into()),
        categories: Vec::new(),
        access: Some(access),
    }
}

fn access(status: DatasetAccessStatus) -> DatasetAccess {
    DatasetAccess { status, public_cutoff_date: None }
}

fn catalog() -> Vec<CatalogSource> {
    vec![
        CatalogSource {
            id: "aster".into(),
            markets: vec![
                market("BTCUSDT", access(DatasetAccessStatus::Restricted)),
                market("ETHUSDT", access(DatasetAccessStatus::Open)),
            ],
        },
        CatalogSource {
            id: "binance".into(),
            markets: vec![market(
                "BTCUSDT",
                DatasetAccess {
                    status: DatasetAccessStatus::Preview,
                    public_cutoff_date: Some(Date::from_ymd_opt(2026, 5, 28).unwrap()),
                },
            )],
        },
    ]
}

#[test]
fn remote_list_filters_apply_search_and_limit() {
    let datasets = filter_remote_catalog(
        catalog(),
        &RemoteListFilters {
            exchange: None,
            asset: None,
            search: Some("btc".into()),
        },
        1,
    );

    assert_eq!(datasets.len(), 1);
    assert!(datasets[0].dataset.contains("BTCUSDT"));
    assert_eq!(
        datasets[0].access.as_ref().map(|access| access.status.clone()),
        Some(DatasetAccessStatus::Preview)
    );
}

#[test]
fn datasets_are_listed_by_access_and_name() {
    let all = RemoteListFilters { exchange: None, asset: None, search: None };
    let names: Vec<String> = filter_remote_catalog(catalog(), &all, 10)
        .into_iter()
        .map(|entry| entry.dataset)
        .collect();
    assert_eq!(names, vec!["aster:ETHUSDT", "binance:BTCUSDT", "aster:BTCUSDT"]);
    let one = RemoteListFilters {
        exchange: Some("aster".into()),
        asset: Some("BTCUSDT".into()),
        search: None,
    };
    let found = filter_remote_catalog(catalog(), &one, 10);
    assert_eq!(found.len(), 1);
    assert_eq!(found[0].source, "aster");
    assert_eq!(found[0].market, "BTCUSDT");
    assert_eq!(found[0].catalog_source.as_deref(), Some("manifest"));
}

#[test]
fn searches_match_all_words_without_case() {
    let search = |text: &str| {
        filter_remote_catalog(
            catalog(),
            &RemoteListFilters { exchange: None, asset: None, search: Some(text.into()) },
            10,
        )
        .len()
    };
    assert_eq!(search(""), 3);
    assert_eq!(search("  BTC  aster "), 1);
    assert_eq!(search("manifest"), 3);
    assert_eq!(search("access:open"), 0);
    assert_eq!(search("access:public"), 1);
    assert_eq!(search("2026-05-28"), 1);
    assert_eq!(search("doge"), 0);
}

#[test]
fn arguments_become_filters() {
    let remote = RemoteListFilters::from_args(&RemoteListArgs {
        exchange: Some("aster".into()),
        asset: None,
        search: Some("btc".into()),
        limit: 100,
        json: false,
    });
    assert_eq!(remote.exchange.as_deref(), Some("aster"));
    assert_eq!(remote.asset, None);
    assert_eq!(remote.search.as_deref(), Some("btc"));
    let local = LocalListFilters::from_args(&LocalListArgs {
        exchange: None,
        asset: Some("BTCUSDT".into()),
        date: Some("2026-06-01".into()),
        json: true,
    });
    assert_eq!(local.exchange, None);
    assert_eq!(local.asset.as_deref(), Some("BTCUSDT"));
    assert_eq!(local.date.as_deref(), Some("2026-06-01"));
}

fn range(from: &str, to: &str) -> DatasetArgs {
    DatasetArgs {
        exchange: "aster".into(),
        asset: "BTCUSDT".into(),
        from: from.into(),
        to: to.into(),
        json: false,
    }
}

#[test]
fn requested_ranges_are_checked() {
    let window =
        parse_requested_range(&range("2026-06-01T02:00:00+02:00", "2026-06-01T00:00:00Z")).unwrap();
    assert_eq!(window.from, Timestamp::from_ymd_hms_opt(2026, 6, 1, 0, 0, 0).unwrap());
    assert_eq!(window.from, window.to);
    assert_eq!(
        parse_requested_range(&range("yesterday", "2026-06-01T00:00:00Z")).unwrap_err().text(),
        "failed to parse --from as RFC 3339"
    );
    assert_eq!(
        parse_requested_range(&range("2026-06-01T00:00:00Z", "2026-06-01")).unwrap_err().text(),
        "failed to parse --to as RFC 3339"
    );
    assert_eq!(
        parse_requested_range(&range("2026-06-01T00:00:00.5Z", "2026-06-01T00:00:00.4Z"))
            .unwrap_err()
            .text(),
        "--from must be less than or equal to --to"
    );
}

#[test]
fn zero_is_refused() {
    assert_eq!(chosen_concurrency(None, 4).unwrap(), 4);
    assert_eq!(chosen_concurrency(Some(2), 4).unwrap(), 2);
    assert_eq!(
        chosen_concurrency(Some(0), 4).unwrap_err().text(),
        "--concurrency must be greater than zero"
    );
    assert_eq!(checked_limit(1).unwrap(), 1);
    assert_eq!(checked_limit(0).unwrap_err().text(), "--limit must be greater than zero");
}

fn config(source: Option<ApiKeySource>) -> Config {
    Config {
        base_url: "https://example.test".into(),
        api_key: source.map(|_| "key".into()),
        api_key_source: source,
        root: "/r".into(),
        concurrency: 4,
        timeout_secs: 60,
    }
}

#[test]
fn account_lines_follow_what_is_known() {
    assert_eq!(
        account_heading(&config(None)),
        vec![
            "Polaris account",
            "Base URL: https://example.test",
            "Auth: not configured",
            "Status: not signed in",
            "Run `polaris login` to sign in.",
        ]
    );
    assert_eq!(
        account_heading(&config(Some(ApiKeySource::Environment)))[2],
        "Auth: configured via POLARIS_API_KEY"
    );
    assert_eq!(
        account_heading(&config(Some(ApiKeySource::CredentialStore))).last().unwrap(),
        "Auth: configured via stored credential"
    );
    let mut account = AccountResponse {
        user_id: "user-1".into(),
        auth: AccountAuth { provider: "api_key".into(), key_id: Some("key-1".into()) },
        identity: AccountIdentity {
            display_name: Some("Name".into()),
            email: Some("a@example.com".into()),
            wallet_address: None,
            avatar_url: None,
            created_at: None,
            updated_at: None,
        },
        subscription: AccountSubscription { tier: "free".into() },
    };
    assert_eq!(
        account_lines(&account),
        vec![
            "Status: signed in as Name",
            "User ID: user-1",
            "Email: a@example.com",
            "Plan: free",
            "Provider: api_key",
            "Key ID: key-1",
        ]
    );
    account.identity.display_name = None;
    assert_eq!(account_lines(&account)[0], "Status: signed in as a@example.com");
    account.identity.email = None;
    account.auth.key_id = None;
    assert_eq!(
        account_lines(&account),
        vec![
            "Status: signed in as user-1",
            "User ID: user-1",
            "Plan: free",
            "Provider: api_key",
        ]
    );
}

#[test]
fn logins_go_on_until_they_end() {
    let instant = Timestamp::from_ymd_hms_opt(2026, 6, 7, 12, 0, 0).unwrap();
    let start = CliAuthStartResponse {
        request_id: "req-123".into(),
        poll_token: "poll-456".into(),
        user_code: "ABCD-EFGH".into(),
        login_url: "https://polaris.supply/login".into(),
        expires_at: instant,
        interval_ms: 1000,
    };
    assert_eq!(
        login_heading("https://example.test", &start),
        vec![
            "Polaris login",
            "Base URL: https://example.test",
            "Code: ABCD-EFGH",
            "Browser: https://polaris.supply/login",
        ]
    );
    let pending = |interval_ms| CliAuthPollResponse::Pending {
        request_id: "req-123".into(),
        expires_at: instant,
        interval_ms,
    };
    assert!(matches!(login_step(pending(10)), LoginStep::Wait(250)));
    assert!(matches!(login_step(pending(1000)), LoginStep::Wait(1000)));
    let approved = CliAuthPollResponse::Approved {
        request_id: "req-123".into(),
        user_id: "user-789".into(),
        display_name: None,
        email: Some("user@example.com".into()),
        wallet_address: None,
        avatar_url: None,
        api_key: "polaris_key_cli_generated".into(),
    };
    match login_step(approved) {
        LoginStep::SignedIn { api_key, name } => {
            assert_eq!(api_key, "polaris_key_cli_generated");
            assert_eq!(name, "user@example.com");
        }
        other => panic!("expected sign in, got {other:?}"),
    }
    match login_step(CliAuthPollResponse::Consumed) {
        LoginStep::Failed(error) => assert_eq!(error.text(), "login session was already consumed"),
        other => panic!("expected failure, got {other:?}"),
    }
    match login_step(CliAuthPollResponse::Expired) {
        LoginStep::Failed(error) => assert_eq!(error.text(), "login session expired"),
        other => panic!("expected failure, got {other:?}"),
    }
}

#[test]
fn installers_are_told_what_was_chosen() {
    assert_eq!(installer_args("/t/install.sh", &None, &None), vec!["/t/install.sh"]);
    assert_eq!(
        installer_args("/t/install.sh", &Some("v0.4.2".into()), &Some("/opt".into())),
        vec!["/t/install.sh", "--version", "v0.4.2", "--install-dir", "/opt"]
    );
}
