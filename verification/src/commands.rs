//! What the commands do between reading and printing.

use crate::api::{
    AccountResponse, CatalogMarket, CatalogSource, CliAuthPollResponse, CliAuthStartResponse,
    DatasetAccess, DatasetAccessStatus,
};
use crate::calendar::{parsed_instant, Timestamp};
use crate::cli::{DatasetArgs, LocalListArgs, RemoteListArgs};
use crate::collections::{
    growing, lemma_filter_nothing, lemma_filter_positions, lemma_filter_step,
};
use crate::config::{ApiKeySource, Config};
use crate::error::{failure, ErrorView, TickError};
use crate::layout::LocalSnapshotEntry;
use crate::order::{lemma_sorted_members, rank_before, sort, sorted_from, Ranked};
use crate::path::{
    components, components_of, file_name, file_name_of, lemma_parent, parent, parent_of,
};
use crate::planner::TimeWindow;
use crate::text::{concat2, concat3, no_lines, opt_text, precedes, push_line, same_text, texts};
use crate::tui::model::{DatasetEntryView, RemoteDatasetEntry};
use vstd::prelude::*;

verus! {

// ---------------------------------------------------------------------------
// Where the tool is installed
// ---------------------------------------------------------------------------

/// Whether the components name a build directory: `debug` or `release` somewhere behind `target`.
pub open spec fn in_build_dir(all: Seq<Seq<char>>) -> bool {
    exists|i: int, j: int|
        0 <= i < j < all.len() && #[trigger] all[i] == "target"@ && (#[trigger] all[j] == "debug"@
            || all[j] == "release"@)
}

/// Whether a path lies in a build directory.
pub fn looks_like_cargo_target_dir(path: &str) -> (res: bool)
    ensures
        res == in_build_dir(components(path@)),
{
    let parts = components_of(path);
    let ghost all = components(path@);
    let mut saw_target = false;
    for i in 0..parts.len()
        invariant
            all == texts(parts@),
            all == components(path@),
            saw_target <==> exists|k: int| 0 <= k < i && #[trigger] all[k] == "target"@,
            forall|a: int, b: int|
                0 <= a < b < i && #[trigger] all[a] == "target"@ ==> #[trigger] all[b] != "debug"@
                    && all[b] != "release"@,
    {
        proof {
            reveal_strlit("target");
            reveal_strlit("debug");
            reveal_strlit("release");
        }
        let part = parts[i].as_str();
        assert(part@ == all[i as int]);
        if same_text(part, "target") {
            saw_target = true;
        } else if saw_target && (same_text(part, "debug") || same_text(part, "release")) {
            assert(all[i as int] == "debug"@ || all[i as int] == "release"@);
            return true;
        }
    }
    false
}

/// The directory from which an installed tool runs: that of a program of the tool's name, new or old,
/// which does not lie in a build directory.
pub open spec fn install_dir(executable: Seq<char>) -> Option<Seq<char>> {
    let name = file_name(executable);
    if !(name == Some("polaris"@) || name == Some("tick"@)) {
        None
    } else {
        match parent(executable) {
            Some(dir) => if in_build_dir(components(dir)) {
                None
            } else {
                Some(dir)
            },
            None => None,
        }
    }
}

/// The directory from which an installed tool runs.
pub fn infer_install_dir_from_executable(executable: &str) -> (out: Option<String>)
    ensures
        opt_text(out) == install_dir(executable@),
{
    match file_name_of(executable) {
        Some(name) => {
            if !same_text(name.as_str(), "polaris") && !same_text(name.as_str(), "tick") {
                return None;
            }
        },
        None => {
            return None;
        },
    }
    match parent_of(executable) {
        Some(dir) => if looks_like_cargo_target_dir(dir.as_str()) {
            None
        } else {
            Some(dir)
        },
        None => None,
    }
}

/// The words with which the installer is called: its path, and what the user chose.
pub fn installer_args(installer: &str, version: &Option<String>, dir: &Option<String>) -> (out: Vec<
    String,
>)
    ensures
        texts(out@) == seq![installer@] + (match *version {
            Some(version) => seq!["--version"@, version@],
            None => seq![],
        }) + (match *dir {
            Some(dir) => seq!["--install-dir"@, dir@],
            None => seq![],
        }),
{
    let mut out = no_lines();
    push_line(&mut out, installer.to_owned());
    assert(texts(out@) =~= seq![installer@]);
    let ghost mut expected = seq![installer@];
    match version {
        Some(version) => {
            push_line(&mut out, "--version".to_owned());
            push_line(&mut out, version.clone());
            proof {
                expected = expected + seq!["--version"@, version@];
            }
        },
        None => {
            proof {
                expected = expected + Seq::empty();
            }
        },
    }
    assert(texts(out@) =~= expected);
    match dir {
        Some(dir) => {
            push_line(&mut out, "--install-dir".to_owned());
            push_line(&mut out, dir.clone());
            assert(texts(out@) =~= expected + seq!["--install-dir"@, dir@]);
        },
        None => {
            assert(texts(out@) =~= expected + Seq::empty());
        },
    }
    out
}

// ---------------------------------------------------------------------------
// The account
// ---------------------------------------------------------------------------

/// The name that is shown: the display name, or the address, or the number of the user.
pub open spec fn shown_name(
    display_name: Option<String>,
    email: Option<String>,
    user_id: String,
) -> Seq<char> {
    match (display_name, email) {
        (Some(name), _) => name@,
        (None, Some(email)) => email@,
        (None, None) => user_id@,
    }
}

/// The name that is shown.
fn name_to_show(display_name: &Option<String>, email: &Option<String>, user_id: &String) -> (out:
    String)
    ensures
        out@ == shown_name(*display_name, *email, *user_id),
{
    match (display_name, email) {
        (Some(name), _) => name.clone(),
        (None, Some(email)) => email.clone(),
        (None, None) => user_id.clone(),
    }
}

/// Where the API key comes from, in words.
pub open spec fn auth_words(source: Option<ApiKeySource>) -> Seq<char> {
    match source {
        Some(ApiKeySource::Environment) => "configured via POLARIS_API_KEY"@,
        Some(ApiKeySource::CredentialStore) => "configured via stored credential"@,
        None => "not configured"@,
    }
}

/// What is printed of the account before the server is asked. Without a key that is all.
pub fn account_heading(config: &Config) -> (out: Vec<String>)
    ensures
        texts(out@) == seq![
            "Polaris account"@,
            "Base URL: "@ + config.base_url@,
            "Auth: "@ + auth_words(config.api_key_source),
        ] + (if config.api_key is None {
            seq!["Status: not signed in"@, "Run `polaris login` to sign in."@]
        } else {
            seq![]
        }),
{
    let source = match config.api_key_source {
        Some(ApiKeySource::Environment) => "configured via POLARIS_API_KEY",
        Some(ApiKeySource::CredentialStore) => "configured via stored credential",
        None => "not configured",
    };
    let mut out = no_lines();
    push_line(&mut out, "Polaris account".to_owned());
    push_line(&mut out, concat2("Base URL: ", config.base_url.as_str()));
    push_line(&mut out, concat2("Auth: ", source));
    let ghost head = seq![
        "Polaris account"@,
        "Base URL: "@ + config.base_url@,
        "Auth: "@ + auth_words(config.api_key_source),
    ];
    assert(texts(out@) =~= head);
    if config.api_key.is_none() {
        push_line(&mut out, "Status: not signed in".to_owned());
        push_line(&mut out, "Run `polaris login` to sign in.".to_owned());
        assert(texts(out@) =~= head + seq![
            "Status: not signed in"@,
            "Run `polaris login` to sign in."@,
        ]);
    } else {
        assert(texts(out@) =~= head + Seq::empty());
    }
    out
}

/// What is printed of an account.
pub open spec fn account_text(account: AccountResponse) -> Seq<Seq<char>> {
    seq![
        "Status: signed in as "@ + shown_name(
            account.identity.display_name,
            account.identity.email,
            account.user_id,
        ),
        "User ID: "@ + account.user_id@,
    ] + (match account.identity.email {
        Some(email) => seq!["Email: "@ + email@],
        None => seq![],
    }) + seq!["Plan: "@ + account.subscription.tier@, "Provider: "@ + account.auth.provider@] + (
    match account.auth.key_id {
        Some(key_id) => seq!["Key ID: "@ + key_id@],
        None => seq![],
    })
}

/// What is printed of an account.
pub fn account_lines(account: &AccountResponse) -> (out: Vec<String>)
    ensures
        texts(out@) == account_text(*account),
{
    let name = name_to_show(
        &account.identity.display_name,
        &account.identity.email,
        &account.user_id,
    );
    let mut out = no_lines();
    push_line(&mut out, concat2("Status: signed in as ", name.as_str()));
    push_line(&mut out, concat2("User ID: ", account.user_id.as_str()));
    let ghost mut expected = texts(out@);
    if let Some(email) = &account.identity.email {
        push_line(&mut out, concat2("Email: ", email.as_str()));
    }
    push_line(&mut out, concat2("Plan: ", account.subscription.tier.as_str()));
    push_line(&mut out, concat2("Provider: ", account.auth.provider.as_str()));
    if let Some(key_id) = &account.auth.key_id {
        push_line(&mut out, concat2("Key ID: ", key_id.as_str()));
    }
    assert(texts(out@) =~= account_text(*account));
    out
}

// ---------------------------------------------------------------------------
// Signing in
// ---------------------------------------------------------------------------

/// The shortest pause between two questions how far a login is.
pub const MIN_CLI_AUTH_POLL_INTERVAL_MS: u64 = 250;

/// What is printed when a login was started.
pub fn login_heading(base_url: &str, start: &CliAuthStartResponse) -> (out: Vec<String>)
    ensures
        texts(out@) == seq![
            "Polaris login"@,
            "Base URL: "@ + base_url@,
            "Code: "@ + start.user_code@,
            "Browser: "@ + start.login_url@,
        ],
{
    let mut out = no_lines();
    push_line(&mut out, "Polaris login".to_owned());
    push_line(&mut out, concat2("Base URL: ", base_url));
    push_line(&mut out, concat2("Code: ", start.user_code.as_str()));
    push_line(&mut out, concat2("Browser: ", start.login_url.as_str()));
    assert(texts(out@) =~= seq![
        "Polaris login"@,
        "Base URL: "@ + base_url@,
        "Code: "@ + start.user_code@,
        "Browser: "@ + start.login_url@,
    ]);
    out
}

/// What follows an answer to how far a login is.
#[derive(Debug)]
pub enum LoginStep {
    /// Ask again after so many milliseconds.
    Wait(u64),
    /// Store the key. The name is the one that is shown.
    SignedIn { api_key: String, name: String },
    /// The login is over.
    Failed(TickError),
}

/// What follows an answer to how far a login is.
pub fn login_step(answer: CliAuthPollResponse) -> (out: LoginStep)
    ensures
        match answer {
            CliAuthPollResponse::Pending { request_id, expires_at, interval_ms } => out
                == LoginStep::Wait(
                if interval_ms < MIN_CLI_AUTH_POLL_INTERVAL_MS {
                    MIN_CLI_AUTH_POLL_INTERVAL_MS
                } else {
                    interval_ms
                },
            ),
            CliAuthPollResponse::Approved {
                request_id,
                user_id,
                display_name,
                email,
                wallet_address,
                avatar_url,
                api_key,
            } => out matches LoginStep::SignedIn { api_key: key, name } && key@ == api_key@ && name@
                == shown_name(display_name, email, user_id),
            CliAuthPollResponse::Consumed => out matches LoginStep::Failed(error) && error@
                == ErrorView::InvalidArgument("login session was already consumed"@),
            CliAuthPollResponse::Expired => out matches LoginStep::Failed(error) && error@
                == ErrorView::InvalidArgument("login session expired"@),
        },
{
    match answer {
        CliAuthPollResponse::Pending { interval_ms, .. } => LoginStep::Wait(
            if interval_ms < MIN_CLI_AUTH_POLL_INTERVAL_MS {
                MIN_CLI_AUTH_POLL_INTERVAL_MS
            } else {
                interval_ms
            },
        ),
        CliAuthPollResponse::Approved { user_id, display_name, email, api_key, .. } => {
            let name = name_to_show(&display_name, &email, &user_id);
            LoginStep::SignedIn { api_key, name }
        },
        CliAuthPollResponse::Consumed => LoginStep::Failed(
            TickError::InvalidArgument("login session was already consumed".to_owned()),
        ),
        CliAuthPollResponse::Expired => LoginStep::Failed(
            TickError::InvalidArgument("login session expired".to_owned()),
        ),
    }
}

// ---------------------------------------------------------------------------
// What was asked for
// ---------------------------------------------------------------------------

/// Reads an instant that the user gave after `flag`.
pub fn parse_datetime(raw: &str, flag: &str) -> (out: Result<Timestamp, TickError>)
    ensures
        match parsed_instant(raw@) {
            Some(t) => out matches Ok(instant) && instant.valid() && instant.secs == t.0
                && instant.nanos == t.1,
            None => failure(out) == Some(
                ErrorView::Other("failed to parse "@ + flag@ + " as RFC 3339"@),
            ),
        },
{
    match Timestamp::parse(raw) {
        Some(instant) => Ok(instant),
        None => Err(TickError::Other(concat3("failed to parse ", flag, " as RFC 3339"))),
    }
}

/// The range that two instants make, which must be in order.
pub fn requested_range(from: Timestamp, to: Timestamp) -> (out: Result<TimeWindow, TickError>)
    ensures
        from.not_after(to) ==> out == Ok::<TimeWindow, TickError>(TimeWindow { from, to }),
        !from.not_after(to) ==> failure(out) == Some(
            ErrorView::InvalidArgument("--from must be less than or equal to --to"@),
        ),
{
    if from.is_not_after(&to) {
        Ok(TimeWindow { from, to })
    } else {
        Err(TickError::InvalidArgument("--from must be less than or equal to --to".to_owned()))
    }
}

/// The range of time that the user asked for.
pub fn parse_requested_range(dataset: &DatasetArgs) -> (out: Result<TimeWindow, TickError>)
    ensures
        match (parsed_instant(dataset.from@), parsed_instant(dataset.to@)) {
            (None, _) => failure(out) == Some(
                ErrorView::Other("failed to parse "@ + "--from"@ + " as RFC 3339"@),
            ),
            (Some(_), None) => failure(out) == Some(
                ErrorView::Other("failed to parse "@ + "--to"@ + " as RFC 3339"@),
            ),
            (Some(from), Some(to)) => {
                let ordered = from.0 < to.0 || (from.0 == to.0 && from.1 <= to.1);
                &&& ordered ==> (out matches Ok(window) && window.valid() && window.from.secs
                    == from.0 && window.from.nanos == from.1 && window.to.secs == to.0
                    && window.to.nanos == to.1)
                &&& !ordered ==> failure(out) == Some(
                    ErrorView::InvalidArgument("--from must be less than or equal to --to"@),
                )
            },
        },
{
    let from = match parse_datetime(dataset.from.as_str(), "--from") {
        Ok(from) => from,
        Err(error) => {
            return Err(error);
        },
    };
    let to = match parse_datetime(dataset.to.as_str(), "--to") {
        Ok(to) => to,
        Err(error) => {
            return Err(error);
        },
    };
    requested_range(from, to)
}

/// How many snapshots are fetched at once: what the user asked for, or the setting. Zero is refused.
pub fn chosen_concurrency(asked: Option<usize>, configured: usize) -> (out: Result<usize, TickError>)
    ensures
        ({
            let n = match asked {
                Some(n) => n,
                None => configured,
            };
            &&& n > 0 ==> out == Ok::<usize, TickError>(n)
            &&& n == 0 ==> failure(out) == Some(
                ErrorView::InvalidArgument("--concurrency must be greater than zero"@),
            )
        }),
{
    let n: usize = match asked {
        Some(n) => n,
        None => configured,
    };
    if n == 0 {
        return Err(
            TickError::InvalidArgument("--concurrency must be greater than zero".to_owned()),
        );
    }
    Ok(n)
}

/// How many datasets are listed at most. Zero is refused.
pub fn checked_limit(limit: usize) -> (out: Result<usize, TickError>)
    ensures
        limit > 0 ==> out == Ok::<usize, TickError>(limit),
        limit == 0 ==> failure(out) == Some(
            ErrorView::InvalidArgument("--limit must be greater than zero"@),
        ),
{
    if limit == 0 {
        return Err(TickError::InvalidArgument("--limit must be greater than zero".to_owned()));
    }
    Ok(limit)
}

/// Whether the datasets are browsed, and not printed: where that was asked for, in a terminal, and not
/// as JSON.
pub fn wants_browser(json: bool, prefer_tui: bool, can_render: bool) -> (res: bool)
    ensures
        res == (!json && prefer_tui && can_render),
{
    !json && prefer_tui && can_render
}

/// What a list is narrowed to.
pub open spec fn exact_match(value: Option<Seq<char>>, wanted: Option<Seq<char>>) -> bool {
    wanted is None || value == wanted
}

/// Whether a value is the one wanted, where one is.
fn matches_exact(value: &Option<String>, wanted: &Option<String>) -> (res: bool)
    ensures
        res == exact_match(opt_text(*value), opt_text(*wanted)),
{
    match wanted {
        Some(expected) => match value {
            Some(text) => same_text(text.as_str(), expected.as_str()),
            None => false,
        },
        None => true,
    }
}

/// What the list of datasets on the server is narrowed to.
#[derive(Debug, PartialEq, Eq)]
pub struct RemoteListFilters {
    pub exchange: Option<String>,
    pub asset: Option<String>,
    pub search: Option<String>,
}

impl RemoteListFilters {
    /// What the user asked for.
    pub fn from_args(args: &RemoteListArgs) -> (out: RemoteListFilters)
        ensures
            opt_text(out.exchange) == opt_text(args.exchange),
            opt_text(out.asset) == opt_text(args.asset),
            opt_text(out.search) == opt_text(args.search),
    {
        RemoteListFilters {
            exchange: args.exchange.clone(),
            asset: args.asset.clone(),
            search: args.search.clone(),
        }
    }

    /// Whether a dataset is listed.
    pub open spec fn admits(self, entry: DatasetEntryView) -> bool {
        &&& exact_match(Some(entry.source), opt_text(self.exchange))
        &&& exact_match(Some(entry.market), opt_text(self.asset))
        &&& self.search matches Some(search) ==> entry.found_by(search@)
    }

    /// Whether anything is asked for.
    pub open spec fn narrows(self) -> bool {
        self.exchange is Some || self.asset is Some || self.search is Some
    }
}

/// What the list of stored snapshots is narrowed to.
#[derive(Debug, PartialEq, Eq)]
pub struct LocalListFilters {
    pub exchange: Option<String>,
    pub asset: Option<String>,
    pub date: Option<String>,
}

impl LocalListFilters {
    /// What the user asked for.
    pub fn from_args(args: &LocalListArgs) -> (out: LocalListFilters)
        ensures
            opt_text(out.exchange) == opt_text(args.exchange),
            opt_text(out.asset) == opt_text(args.asset),
            opt_text(out.date) == opt_text(args.date),
    {
        LocalListFilters {
            exchange: args.exchange.clone(),
            asset: args.asset.clone(),
            date: args.date.clone(),
        }
    }

    /// Whether a stored snapshot is listed.
    pub open spec fn admits(self, entry: LocalSnapshotEntry) -> bool {
        &&& exact_match(opt_text(entry.source), opt_text(self.exchange))
        &&& exact_match(opt_text(entry.market), opt_text(self.asset))
        &&& exact_match(opt_text(entry.date), opt_text(self.date))
    }

    /// Whether anything is asked for.
    pub open spec fn narrows(self) -> bool {
        self.exchange is Some || self.asset is Some || self.date is Some
    }
}

/// The stored snapshots that are listed, in their order.
pub fn filter_local_list_entries(entries: Vec<LocalSnapshotEntry>, filters: &LocalListFilters) -> (out:
    Vec<LocalSnapshotEntry>)
    ensures
        out@ == entries@.filter(|entry: LocalSnapshotEntry| filters.admits(entry)),
{
    let ghost all = entries@;
    let ghost pred = |entry: LocalSnapshotEntry| filters.admits(entry);
    let mut out: Vec<LocalSnapshotEntry> = Vec::new();
    proof {
        lemma_filter_nothing(all, pred);
        assert(out@ =~= all.take(0).filter(pred));
    }
    for entry in it: entries
        invariant
            it.seq() == all,
            pred == (|entry: LocalSnapshotEntry| filters.admits(entry)),
            out@ == all.take(it.index() as int).filter(pred),
    {
        proof {
            lemma_filter_step(all, it.index() as int, pred);
        }
        if matches_exact(&entry.source, &filters.exchange) && matches_exact(
            &entry.market,
            &filters.asset,
        ) && matches_exact(&entry.date, &filters.date) {
            out.push(entry);
        }
    }
    assert(all.take(all.len() as int) =~= all);
    out
}

// ---------------------------------------------------------------------------
// The list of datasets on the server
// ---------------------------------------------------------------------------

/// Whether the instants and days of a catalog exist.
pub open spec fn valid_catalog(sources: Seq<CatalogSource>) -> bool {
    forall|i: int, j: int|
        0 <= i < sources.len() && 0 <= j < sources[i].markets@.len() ==> valid_market(
            #[trigger] sources[i].markets@[j],
        )
}

/// Whether the instants and days of a dataset exist.
pub open spec fn valid_market(market: CatalogMarket) -> bool {
    &&& market.start.valid()
    &&& market.end.valid()
    &&& market.access matches Some(access) ==> access.valid()
}

/// A dataset of the catalog.
pub open spec fn market_entry(source: Seq<char>, market: CatalogMarket) -> DatasetEntryView {
    DatasetEntryView {
        source,
        market: market.id@,
        start: market.start,
        end: market.end,
        catalog_source: opt_text(market.catalog_source),
        access: market.access,
        categories: texts(market.categories@),
        dataset: source + ":"@ + market.id@,
    }
}

/// The datasets of a source that are listed.
pub open spec fn market_entries(
    source: Seq<char>,
    markets: Seq<CatalogMarket>,
    filters: RemoteListFilters,
) -> Seq<DatasetEntryView>
    decreases markets.len(),
{
    if markets.len() == 0 {
        seq![]
    } else {
        let before = market_entries(source, markets.drop_last(), filters);
        let entry = market_entry(source, markets.last());
        if filters.admits(entry) {
            before.push(entry)
        } else {
            before
        }
    }
}

/// The datasets of the catalog that are listed, in its order.
pub open spec fn catalog_entries(sources: Seq<CatalogSource>, filters: RemoteListFilters) -> Seq<
    DatasetEntryView,
>
    decreases sources.len(),
{
    if sources.len() == 0 {
        seq![]
    } else {
        catalog_entries(sources.drop_last(), filters) + market_entries(
            sources.last().id@,
            sources.last().markets@,
            filters,
        )
    }
}

/// The views of datasets.
pub open spec fn dataset_views(s: Seq<RemoteDatasetEntry>) -> Seq<DatasetEntryView> {
    s.map_values(|entry: RemoteDatasetEntry| entry@)
}

/// At most `limit` elements from the front.
pub open spec fn at_most<T>(s: Seq<T>, limit: nat) -> Seq<T> {
    if s.len() > limit {
        s.take(limit as int)
    } else {
        s
    }
}

/// The datasets of a source that are listed, put behind those found so far.
fn add_markets(
    found: &mut Vec<RemoteDatasetEntry>,
    source: String,
    markets: Vec<CatalogMarket>,
    filters: &RemoteListFilters,
)
    requires
        forall|j: int| 0 <= j < markets@.len() ==> valid_market(#[trigger] markets@[j]),
        forall|i: int| 0 <= i < old(found)@.len() ==> (#[trigger] old(found)@[i])@.valid(),
    ensures
        dataset_views(final(found)@) == dataset_views(old(found)@) + market_entries(
            source@,
            markets@,
            *filters,
        ),
        forall|i: int| 0 <= i < final(found)@.len() ==> (#[trigger] final(found)@[i])@.valid(),
{
    let ghost all = markets@;
    let ghost start = dataset_views(found@);
    assert(start + market_entries(source@, all.take(0), *filters) =~= start);
    for market in it: markets
        invariant
            it.seq() == all,
            forall|j: int| 0 <= j < all.len() ==> valid_market(#[trigger] all[j]),
            dataset_views(found@) == start + market_entries(
                source@,
                all.take(it.index() as int),
                *filters,
            ),
            forall|i: int| 0 <= i < found@.len() ==> (#[trigger] found@[i])@.valid(),
    {
        let ghost k = it.index() as int;
        assert(all.take(k + 1).drop_last() =~= all.take(k));
        assert(all.take(k + 1).last() == market);
        assert(valid_market(all[k]));
        let dataset = concat3(source.as_str(), ":", market.id.as_str());
        let ghost view = market_entry(source@, market);
        let entry = RemoteDatasetEntry {
            source: source.clone(),
            market: market.id,
            start: market.start,
            end: market.end,
            catalog_source: market.catalog_source,
            access: market.access,
            categories: market.categories,
            dataset,
        };
        assert(entry@ == view);
        let of_source = match &filters.exchange {
            Some(exchange) => same_text(source.as_str(), exchange.as_str()),
            None => true,
        };
        let of_market = match &filters.asset {
            Some(asset) => same_text(entry.market.as_str(), asset.as_str()),
            None => true,
        };
        let by_search = match &filters.search {
            Some(search) => entry.matches_search(search.as_str()),
            None => true,
        };
        if of_source && of_market && by_search {
            let ghost before = dataset_views(found@);
            found.push(entry);
            assert(dataset_views(found@) =~= before.push(view));
            assert(dataset_views(found@) =~= start + market_entries(
                source@,
                all.take(k + 1),
                *filters,
            ));
        }
    }
    assert(all.take(all.len() as int) =~= all);
}

/// The datasets of the catalog that are listed: open ones first, then by name, at most `limit`.
pub fn filter_remote_catalog(
    sources: Vec<CatalogSource>,
    filters: &RemoteListFilters,
    limit: usize,
) -> (out: Vec<RemoteDatasetEntry>)
    requires
        valid_catalog(sources@),
    ensures
        exists|found: Seq<RemoteDatasetEntry>, all: Seq<RemoteDatasetEntry>|
            {
                &&& dataset_views(found) == catalog_entries(sources@, *filters)
                &&& #[trigger] sorted_from(all, found)
                &&& out@ == at_most(all, limit as nat)
            },
        forall|i: int| 0 <= i < out@.len() ==> (#[trigger] out@[i])@.valid(),
{
    let ghost catalog = sources@;
    let mut found: Vec<RemoteDatasetEntry> = Vec::new();
    assert(dataset_views(found@) =~= catalog_entries(catalog.take(0), *filters));
    for source in it: sources
        invariant
            it.seq() == catalog,
            valid_catalog(catalog),
            dataset_views(found@) == catalog_entries(catalog.take(it.index() as int), *filters),
            forall|i: int| 0 <= i < found@.len() ==> (#[trigger] found@[i])@.valid(),
    {
        let ghost k = it.index() as int;
        assert(catalog.take(k + 1).drop_last() =~= catalog.take(k));
        assert(catalog.take(k + 1).last() == source);
        assert(catalog[k] == source);
        assert forall|j: int| 0 <= j < source.markets@.len() implies valid_market(
            #[trigger] source.markets@[j],
        ) by {
            assert(valid_market(catalog[k].markets@[j]));
        }
        add_markets(&mut found, source.id, source.markets, filters);
    }
    assert(catalog.take(catalog.len() as int) =~= catalog);
    let ghost unsorted = found@;
    let mut out = sort(found);
    let ghost all = out@;
    proof {
        assert forall|i: int| 0 <= i < all.len() implies (#[trigger] all[i])@.valid() by {
            lemma_sorted_members(all, unsorted, all[i]);
            assert(all.contains(all[i]));
            let k = choose|k: int| 0 <= k < unsorted.len() && unsorted[k] == all[i];
            assert(unsorted[k]@.valid());
        }
    }
    if out.len() > limit {
        out.truncate(limit);
        assert(out@ =~= all.take(limit as int));
    }
    assert(sorted_from(all, unsorted));
    out
}

// ---------------------------------------------------------------------------
// What a list holds
// ---------------------------------------------------------------------------

/// The stored snapshots that are listed are those that have exactly the exchange, the asset and the
/// date that were asked for, as far as they were asked for: all of them, each once, in their order.
/// The answer is where they stand.
pub proof fn lemma_local_list(
    entries: Vec<LocalSnapshotEntry>,
    filters: LocalListFilters,
    out: Vec<LocalSnapshotEntry>,
) -> (at: Seq<int>)
    requires
        call_ensures(filter_local_list_entries, (entries, &filters), out),
    ensures
        growing(at),
        at.len() == out@.len(),
        forall|i: int|
            0 <= i < at.len() ==> 0 <= (#[trigger] at[i]) < entries@.len() && out@[i]
                == entries@[at[i]],
        forall|k: int|
            0 <= k < entries@.len() ==> (#[trigger] at.contains(k) <==> {
                let entry = entries@[k];
                &&& filters.exchange matches Some(wanted) ==> entry.source is Some
                    && entry.source->0@ == wanted@
                &&& filters.asset matches Some(wanted) ==> entry.market is Some
                    && entry.market->0@ == wanted@
                &&& filters.date matches Some(wanted) ==> entry.date is Some && entry.date->0@
                    == wanted@
            }),
{
    lemma_filter_positions(entries@, |entry: LocalSnapshotEntry| (&filters).admits(entry))
}

/// Whether position `a` comes before position `b` in the catalog.
pub open spec fn earlier_position(a: (int, int), b: (int, int)) -> bool {
    a.0 < b.0 || (a.0 == b.0 && a.1 < b.1)
}

/// The dataset at a position of the catalog: named after its source and its market, with its times,
/// its access and its categories as the catalog has them.
pub open spec fn catalog_dataset(sources: Seq<CatalogSource>, at: (int, int)) -> DatasetEntryView {
    let source = sources[at.0];
    let market = source.markets@[at.1];
    DatasetEntryView {
        source: source.id@,
        market: market.id@,
        start: market.start,
        end: market.end,
        catalog_source: opt_text(market.catalog_source),
        access: market.access,
        categories: texts(market.categories@),
        dataset: source.id@ + ":"@ + market.id@,
    }
}

/// Whether a dataset of the catalog is what was asked for: of that source, of that name, and found by
/// the search.
pub open spec fn asked_for(sources: Seq<CatalogSource>, at: (int, int), filters: RemoteListFilters) -> bool {
    let source = sources[at.0];
    let market = source.markets@[at.1];
    &&& filters.exchange matches Some(wanted) ==> source.id@ == wanted@
    &&& filters.asset matches Some(wanted) ==> market.id@ == wanted@
    &&& filters.search matches Some(search) ==> catalog_dataset(sources, at).found_by(search@)
}

/// Whether a position lies in the catalog.
pub open spec fn in_catalog(sources: Seq<CatalogSource>, at: (int, int)) -> bool {
    0 <= at.0 < sources.len() && 0 <= at.1 < sources[at.0].markets@.len()
}

/// Whether these are the positions of the datasets that were asked for, each once, in order.
pub open spec fn positions_asked_for(
    at: Seq<(int, int)>,
    sources: Seq<CatalogSource>,
    filters: RemoteListFilters,
) -> bool {
    &&& forall|i: int, j: int|
        0 <= i < j < at.len() ==> earlier_position(#[trigger] at[i], #[trigger] at[j])
    &&& forall|p: (int, int)| #[trigger]
        at.contains(p) <==> in_catalog(sources, p) && asked_for(sources, p, filters)
}

proof fn lemma_market_positions(
    sources: Seq<CatalogSource>,
    i: int,
    n: nat,
    filters: RemoteListFilters,
) -> (at: Seq<(int, int)>)
    requires
        0 <= i < sources.len(),
        n <= sources[i].markets@.len(),
    ensures
        forall|a: int, b: int|
            0 <= a < b < at.len() ==> earlier_position(#[trigger] at[a], #[trigger] at[b]),
        forall|p: (int, int)| #[trigger]
            at.contains(p) <==> p.0 == i && 0 <= p.1 < n && asked_for(sources, p, filters),
        ({
            let found = market_entries(
                sources[i].id@,
                sources[i].markets@.take(n as int),
                filters,
            );
            &&& found.len() == at.len()
            &&& forall|k: int|
                0 <= k < at.len() ==> found[k] == market_entry(
                    sources[i].id@,
                    sources[i].markets@[(#[trigger] at[k]).1],
                )
        }),
    decreases n,
{
    let markets = sources[i].markets@;
    if n == 0 {
        seq![]
    } else {
        let before = lemma_market_positions(sources, i, (n - 1) as nat, filters);
        let here = (i, n - 1);
        let entry = market_entry(sources[i].id@, markets[n - 1]);
        assert(markets.take(n as int).drop_last() =~= markets.take(n - 1));
        assert(markets.take(n as int).last() == markets[n - 1]);
        assert(filters.admits(entry) <==> asked_for(sources, here, filters));
        assert forall|k: int| 0 <= k < before.len() implies (#[trigger] before[k]).0 == i
            && before[k].1 < n - 1 by {
            assert(before.contains(before[k]));
        }
        if filters.admits(entry) {
            let at = before.push(here);
            assert forall|p: (int, int)| #[trigger]
                at.contains(p) <==> p.0 == i && 0 <= p.1 < n && asked_for(sources, p, filters) by {
                if before.contains(p) {
                    let k = choose|k: int| 0 <= k < before.len() && before[k] == p;
                    assert(at[k] == p);
                }
                if p == here {
                    assert(at[before.len() as int] == p);
                }
                if at.contains(p) {
                    let k = choose|k: int| 0 <= k < at.len() && at[k] == p;
                    if k < before.len() {
                        assert(before[k] == p);
                        assert(before.contains(p));
                    }
                }
                assert(before.contains(p) <==> p.0 == i && 0 <= p.1 < n - 1 && asked_for(
                    sources,
                    p,
                    filters,
                ));
            }
            at
        } else {
            assert forall|p: (int, int)| #[trigger]
                before.contains(p) <==> p.0 == i && 0 <= p.1 < n && asked_for(
                    sources,
                    p,
                    filters,
                ) by {
                if p.0 == i && p.1 == n - 1 {
                    assert(p == here);
                }
            }
            before
        }
    }
}

proof fn lemma_catalog_positions(
    sources: Seq<CatalogSource>,
    n: nat,
    filters: RemoteListFilters,
) -> (at: Seq<(int, int)>)
    requires
        n <= sources.len(),
    ensures
        forall|a: int, b: int|
            0 <= a < b < at.len() ==> earlier_position(#[trigger] at[a], #[trigger] at[b]),
        forall|p: (int, int)| #[trigger]
            at.contains(p) <==> p.0 < n && in_catalog(sources, p) && asked_for(sources, p, filters),
        ({
            let found = catalog_entries(sources.take(n as int), filters);
            &&& found.len() == at.len()
            &&& forall|k: int|
                0 <= k < at.len() ==> found[k] == market_entry(
                    sources[(#[trigger] at[k]).0].id@,
                    sources[at[k].0].markets@[at[k].1],
                )
        }),
    decreases n,
{
    if n == 0 {
        seq![]
    } else {
        let m = (n - 1) as nat;
        let front = lemma_catalog_positions(sources, m, filters);
        let back = lemma_market_positions(
            sources,
            m as int,
            sources[m as int].markets@.len(),
            filters,
        );
        let markets = sources[m as int].markets@;
        assert(markets.take(markets.len() as int) =~= markets);
        assert(sources.take(n as int).drop_last() =~= sources.take(m as int));
        assert(sources.take(n as int).last() == sources[m as int]);
        let at = front + back;
        assert forall|k: int| 0 <= k < front.len() implies (#[trigger] front[k]).0 < m by {
            assert(front.contains(front[k]));
        }
        assert forall|k: int| 0 <= k < back.len() implies (#[trigger] back[k]).0 == m by {
            assert(back.contains(back[k]));
        }
        assert forall|p: (int, int)| #[trigger]
            at.contains(p) <==> p.0 < n && in_catalog(sources, p) && asked_for(
                sources,
                p,
                filters,
            ) by {
            if at.contains(p) {
                let k = choose|k: int| 0 <= k < at.len() && at[k] == p;
                if k < front.len() {
                    assert(front[k] == p);
                    assert(front.contains(p));
                } else {
                    assert(back[k - front.len()] == p);
                    assert(back.contains(p));
                }
            }
            if front.contains(p) {
                let k = choose|k: int| 0 <= k < front.len() && front[k] == p;
                assert(at[k] == p);
            }
            if back.contains(p) {
                let k = choose|k: int| 0 <= k < back.len() && back[k] == p;
                assert(at[front.len() + k] == p);
            }
        }
        assert forall|a: int, b: int| 0 <= a < b < at.len() implies earlier_position(
            #[trigger] at[a],
            #[trigger] at[b],
        ) by {
            if b < front.len() {
                assert(at[a] == front[a] && at[b] == front[b]);
            } else if a >= front.len() {
                assert(at[a] == back[a - front.len()] && at[b] == back[b - front.len()]);
            } else {
                assert(at[a] == front[a] && at[b] == back[b - front.len()]);
            }
        }
        at
    }
}

/// The place of a dataset among the kinds of access: public ones, previews, restricted ones, and then
/// those of which nothing is known.
pub open spec fn kind_place(access: Option<DatasetAccess>) -> int {
    match access {
        None => 3,
        Some(access) => if access.status == DatasetAccessStatus::Open {
            0
        } else if access.status == DatasetAccessStatus::Preview {
            1
        } else {
            2
        },
    }
}

/// Whether a dataset may stand before another: it is open to more people, or to as many and its name
/// does not come after the other's.
pub open spec fn may_lead(a: DatasetEntryView, b: DatasetEntryView) -> bool {
    kind_place(a.access) < kind_place(b.access) || (kind_place(a.access) == kind_place(b.access)
        && !precedes(b.dataset, a.dataset))
}

/// The datasets that are listed: at most `limit` of those that were asked for, and all of them where
/// there are not more. They stand in order, open ones first and then by name, and none that is left
/// out belongs before one that is listed. Each is shown as the catalog has it. The answer is where
/// those that were asked for stand in the catalog.
pub proof fn lemma_remote_list(
    sources: Vec<CatalogSource>,
    filters: RemoteListFilters,
    limit: usize,
    out: Vec<RemoteDatasetEntry>,
) -> (at: Seq<(int, int)>)
    requires
        call_ensures(filter_remote_catalog, (sources, &filters, limit), out),
    ensures
        positions_asked_for(at, sources@, filters),
        out@.len() == (if at.len() <= limit {
            at.len()
        } else {
            limit as nat
        }),
        forall|i: int, j: int|
            0 <= i < j < out@.len() ==> may_lead((#[trigger] out@[i])@, (#[trigger] out@[j])@),
        forall|i: int|
            0 <= i < out@.len() ==> exists|k: int|
                0 <= k < at.len() && #[trigger] catalog_dataset(sources@, at[k]) == (
                #[trigger] out@[i])@,
        forall|k: int|
            0 <= k < at.len() ==> {
                let entry = #[trigger] catalog_dataset(sources@, at[k]);
                ||| exists|i: int| 0 <= i < out@.len() && (#[trigger] out@[i])@ == entry
                ||| forall|i: int| 0 <= i < out@.len() ==> may_lead((#[trigger] out@[i])@, entry)
            },
{
    let catalog = sources@;
    let at = lemma_catalog_positions(catalog, catalog.len(), filters);
    assert(catalog.take(catalog.len() as int) =~= catalog);
    let (found, all) = choose|found: Seq<RemoteDatasetEntry>, all: Seq<RemoteDatasetEntry>|
        {
            &&& dataset_views(found) == catalog_entries(catalog, filters)
            &&& #[trigger] sorted_from(all, found)
            &&& out@ == at_most(all, limit as nat)
        };
    assert(dataset_views(found).len() == found.len());
    assert forall|i: int, j: int| 0 <= i < j < all.len() implies may_lead(
        (#[trigger] all[i])@,
        (#[trigger] all[j])@,
    ) by {
        assert(!rank_before(all[j].rank(), all[i].rank()));
    }
    assert forall|k: int| 0 <= k < at.len() implies found[k]@ == #[trigger] catalog_dataset(
        catalog,
        at[k],
    ) by {
        assert(dataset_views(found)[k] == found[k]@);
    }
    assert forall|i: int| 0 <= i < out@.len() implies exists|k: int|
        0 <= k < at.len() && #[trigger] catalog_dataset(catalog, at[k]) == (#[trigger] out@[i])@ by {
        assert(out@[i] == all[i]);
        lemma_sorted_members(all, found, all[i]);
        assert(all.contains(all[i]));
        let k = choose|k: int| 0 <= k < found.len() && found[k] == all[i];
        assert(catalog_dataset(catalog, at[k]) == out@[i]@);
    }
    assert forall|k: int| 0 <= k < at.len() implies {
        let entry = #[trigger] catalog_dataset(catalog, at[k]);
        ||| exists|i: int| 0 <= i < out@.len() && (#[trigger] out@[i])@ == entry
        ||| forall|i: int| 0 <= i < out@.len() ==> may_lead((#[trigger] out@[i])@, entry)
    } by {
        lemma_sorted_members(all, found, found[k]);
        assert(found.contains(found[k]));
        let m = choose|m: int| 0 <= m < all.len() && all[m] == found[k];
        if m < out@.len() {
            assert(out@[m] == all[m]);
        } else {
            assert forall|i: int| 0 <= i < out@.len() implies may_lead(
                (#[trigger] out@[i])@,
                catalog_dataset(catalog, at[k]),
            ) by {
                assert(out@[i] == all[i]);
                assert(may_lead(all[i]@, all[m]@));
            }
        }
    }
    at
}

/// A range is accepted as it was asked for, if and only if it does not end before it begins.
pub proof fn lemma_requested_range(from: Timestamp, to: Timestamp, out: Result<TimeWindow, TickError>)
    requires
        call_ensures(requested_range, (from, to), out),
    ensures
        out is Err <==> to.secs < from.secs || (to.secs == from.secs && to.nanos < from.nanos),
        out matches Ok(window) ==> window.from == from && window.to == to,
{
}

/// Between two questions how far a login is, there is a pause of what the server asks for, and of a
/// quarter of a second at least. A login that was approved gives the key and a name to show. One that
/// is over fails.
pub proof fn lemma_login_goes_on(answer: CliAuthPollResponse, out: LoginStep)
    requires
        call_ensures(login_step, (answer,), out),
    ensures
        answer is Pending <==> out is Wait,
        answer is Approved <==> out is SignedIn,
        answer matches CliAuthPollResponse::Pending { interval_ms, .. } ==> {
            &&& out->Wait_0 >= 250
            &&& out->Wait_0 >= interval_ms
            &&& out->Wait_0 == 250 || out->Wait_0 == interval_ms
        },
        answer matches CliAuthPollResponse::Approved {
            api_key,
            display_name,
            email,
            user_id,
            ..
        } ==> (out matches LoginStep::SignedIn { api_key: key, name } && key@ == api_key@ && {
            &&& display_name is Some ==> name@ == display_name->0@
            &&& display_name is None && email is Some ==> name@ == email->0@
            &&& display_name is None && email is None ==> name@ == user_id@
        }),
{
}

/// Datasets are browsed only in a terminal, only where that was asked for, and never as JSON. How many
/// snapshots are fetched at once is what the user asked for, else the setting, and never zero.
pub proof fn lemma_choices(
    json: bool,
    prefer_tui: bool,
    can_render: bool,
    browser: bool,
    asked: Option<usize>,
    configured: usize,
    concurrency: Result<usize, TickError>,
)
    requires
        call_ensures(wants_browser, (json, prefer_tui, can_render), browser),
        call_ensures(chosen_concurrency, (asked, configured), concurrency),
    ensures
        browser ==> !json && prefer_tui && can_render,
        !browser ==> json || !prefer_tui || !can_render,
        concurrency matches Ok(n) ==> n > 0 && (asked == Some(n) || asked is None && configured
            == n),
        concurrency is Err <==> asked == Some(0usize) || asked is None && configured == 0,
{
}

/// A tool is installed where its program lies, if that has the tool's name, new or old, and does not
/// lie in a build directory.
pub proof fn lemma_where_the_tool_is_installed(executable: &str, out: Option<String>)
    requires
        call_ensures(infer_install_dir_from_executable, (executable,), out),
    ensures
        ({
            let all = components(executable@);
            let named = all.len() > 1 && (all.last() == "polaris"@ || all.last() == "tick"@);
            let built = exists|i: int, j: int|
                0 <= i < j < all.len() - 1 && #[trigger] all[i] == "target"@ && (#[trigger] all[j]
                    == "debug"@ || all[j] == "release"@);
            &&& out matches Some(dir) ==> (all.last() == "polaris"@ || all.last() == "tick"@)
                && components(dir@) == all.drop_last() && !built
            &&& named && !built ==> out is Some
        }),
{
    let all = components(executable@);
    lemma_parent(executable@);
    reveal_strlit("polaris");
    reveal_strlit("tick");
    reveal_strlit("/");
    reveal_strlit(".");
    reveal_strlit("..");
    assert("polaris"@.len() == 7 && "tick"@.len() == 4 && "/"@.len() == 1 && "."@.len() == 1
        && ".."@.len() == 2);
    let front = all.drop_last();
    let built = exists|i: int, j: int|
        0 <= i < j < all.len() - 1 && #[trigger] all[i] == "target"@ && (#[trigger] all[j]
            == "debug"@ || all[j] == "release"@);
    if all.len() > 0 {
        assert forall|i: int| 0 <= i < front.len() implies front[i] == #[trigger] all[i] by {}
        if built {
            let (i, j) = choose|i: int, j: int|
                0 <= i < j < all.len() - 1 && #[trigger] all[i] == "target"@ && (#[trigger] all[j]
                    == "debug"@ || all[j] == "release"@);
            assert(front[i] == "target"@ && front[j] == all[j]);
        }
        if in_build_dir(front) {
            let (i, j) = choose|i: int, j: int|
                0 <= i < j < front.len() && #[trigger] front[i] == "target"@ && (#[trigger] front[j]
                    == "debug"@ || front[j] == "release"@);
            assert(all[i] == "target"@ && all[j] == front[j]);
        }
    }
}

/// The installer is called with the version and the directory that were chosen, each behind its name,
/// and with nothing else.
pub proof fn lemma_installer_words(
    installer: &str,
    version: Option<String>,
    dir: Option<String>,
    out: Vec<String>,
)
    requires
        call_ensures(installer_args, (installer, &version, &dir), out),
    ensures
        out@.len() == 1 + (if version is Some {
            2int
        } else {
            0int
        }) + (if dir is Some {
            2int
        } else {
            0int
        }),
        out@[0]@ == installer@,
        version matches Some(v) ==> out@[1]@ == "--version"@ && out@[2]@ == v@,
        dir matches Some(d) ==> out@[out@.len() - 2]@ == "--install-dir"@ && out@.last()@ == d@,
{
    let all = texts(out@);
    assert(all.len() == out@.len());
    assert(all[0] == out@[0]@);
    if version is Some {
        assert(all[1] == out@[1]@ && all[2] == out@[2]@);
    }
    if dir is Some {
        assert(all[all.len() - 2] == out@[out@.len() - 2]@);
        assert(all[all.len() - 1] == out@[out@.len() - 1]@);
    }
}

/// Of an account nobody is signed in to, that is told, and how to sign in.
pub proof fn lemma_account_without_key(config: Config, out: Vec<String>)
    requires
        call_ensures(account_heading, (&config,), out),
    ensures
        out@.len() == (if config.api_key is None {
            5int
        } else {
            3int
        }),
        out@[1]@ == "Base URL: "@ + config.base_url@,
        config.api_key is None ==> out@[3]@ == "Status: not signed in"@,
{
    let all = texts(out@);
    assert(all.len() == out@.len());
    assert(all[1] == out@[1]@);
    if config.api_key is None {
        assert(all[3] == out@[3]@);
    }
}

/// A list is narrowed to what the user gave for it.
pub proof fn lemma_filters_are_what_was_given(
    remote: RemoteListArgs,
    local: LocalListArgs,
    remote_filters: RemoteListFilters,
    local_filters: LocalListFilters,
)
    requires
        call_ensures(RemoteListFilters::from_args, (&remote,), remote_filters),
        call_ensures(LocalListFilters::from_args, (&local,), local_filters),
    ensures
        remote_filters.exchange is Some <==> remote.exchange is Some,
        remote.exchange is Some ==> remote_filters.exchange->0@ == remote.exchange->0@,
        remote_filters.asset is Some <==> remote.asset is Some,
        remote.asset is Some ==> remote_filters.asset->0@ == remote.asset->0@,
        remote_filters.search is Some <==> remote.search is Some,
        remote.search is Some ==> remote_filters.search->0@ == remote.search->0@,
        local_filters.exchange is Some <==> local.exchange is Some,
        local.exchange is Some ==> local_filters.exchange->0@ == local.exchange->0@,
        local_filters.asset is Some <==> local.asset is Some,
        local.asset is Some ==> local_filters.asset->0@ == local.asset->0@,
        local_filters.date is Some <==> local.date is Some,
        local.date is Some ==> local_filters.date->0@ == local.date->0@,
{
}

/// What is printed of an account tells who is signed in, by name where there is one, else by address,
/// else by number, and the plan.
pub proof fn lemma_account_is_printed(account: AccountResponse, out: Vec<String>)
    requires
        call_ensures(account_lines, (&account,), out),
    ensures
        out@.len() >= 4,
        out@[0]@ == "Status: signed in as "@ + (if account.identity.display_name is Some {
            account.identity.display_name->0@
        } else if account.identity.email is Some {
            account.identity.email->0@
        } else {
            account.user_id@
        }),
        out@[1]@ == "User ID: "@ + account.user_id@,
        texts(out@).contains("Plan: "@ + account.subscription.tier@),
        account.identity.email is Some ==> out@[2]@ == "Email: "@ + account.identity.email->0@,
{
    let all = texts(out@);
    assert(all.len() == out@.len());
    assert(all[0] == out@[0]@ && all[1] == out@[1]@ && all[2] == out@[2]@);
    if account.identity.email is Some {
        assert(all[3] == "Plan: "@ + account.subscription.tier@);
    } else {
        assert(all[2] == "Plan: "@ + account.subscription.tier@);
    }
}

/// What is printed of a login tells the code and the page on which it is typed.
pub proof fn lemma_login_is_printed(base_url: &str, start: CliAuthStartResponse, out: Vec<String>)
    requires
        call_ensures(login_heading, (base_url, &start), out),
    ensures
        texts(out@).contains("Code: "@ + start.user_code@),
        texts(out@).contains("Browser: "@ + start.login_url@),
        texts(out@).contains("Base URL: "@ + base_url@),
{
    let all = texts(out@);
    assert(all[1] == "Base URL: "@ + base_url@);
    assert(all[2] == "Code: "@ + start.user_code@);
    assert(all[3] == "Browser: "@ + start.login_url@);
}

} // verus!
