//! What is asked of the server, and what its answers mean.

use crate::calendar::{date_text, stamp_text, Date, Timestamp};
use crate::error::{failure, ErrorView, TickError};
use crate::text::{
    blank, chars_of, concat2, concat3, concat4, decimal, decimal_of, is_blank, lemma_trim_end_char,
    opt_text, starts_with, text_between, texts, trim, trim_end_char, trimmed, without_trailing,
};
use vstd::prelude::*;

verus! {

// ---------------------------------------------------------------------------
// Signing in
// ---------------------------------------------------------------------------

/// A login that was started.
#[derive(Debug, PartialEq, Eq)]
pub struct CliAuthStartResponse {
    pub request_id: String,
    pub poll_token: String,
    pub user_code: String,
    pub login_url: String,
    pub expires_at: Timestamp,
    pub interval_ms: u64,
}

/// How far a login is.
#[derive(Debug, PartialEq, Eq)]
pub enum CliAuthPollResponse {
    Pending { request_id: String, expires_at: Timestamp, interval_ms: u64 },
    Approved {
        request_id: String,
        user_id: String,
        display_name: Option<String>,
        email: Option<String>,
        wallet_address: Option<String>,
        avatar_url: Option<String>,
        api_key: String,
    },
    Consumed,
    Expired,
}

/// The account behind an API key.
#[derive(Debug, PartialEq, Eq)]
pub struct AccountResponse {
    pub user_id: String,
    pub auth: AccountAuth,
    pub identity: AccountIdentity,
    pub subscription: AccountSubscription,
}

/// The answer to a feedback message.
#[derive(Debug, Clone, Copy, PartialEq, Eq, Structural)]
pub struct FeedbackResponse {
    pub ok: bool,
}

/// How the account was recognised.
#[derive(Debug, PartialEq, Eq)]
pub struct AccountAuth {
    pub provider: String,
    pub key_id: Option<String>,
}

/// Who the account belongs to.
#[derive(Debug, PartialEq, Eq)]
pub struct AccountIdentity {
    pub display_name: Option<String>,
    pub email: Option<String>,
    pub wallet_address: Option<String>,
    pub avatar_url: Option<String>,
    pub created_at: Option<Timestamp>,
    pub updated_at: Option<Timestamp>,
}

/// What the account may use.
#[derive(Debug, PartialEq, Eq)]
pub struct AccountSubscription {
    pub tier: String,
}

// ---------------------------------------------------------------------------
// The catalog
// ---------------------------------------------------------------------------

/// The datasets of the server.
#[derive(Debug)]
pub struct CatalogResponse {
    pub sources: Vec<CatalogSource>,
    pub updated_at: Option<String>,
}

/// The datasets of one source.
#[derive(Debug, PartialEq, Eq)]
pub struct CatalogSource {
    pub id: String,
    pub markets: Vec<CatalogMarket>,
}

/// One dataset.
#[derive(Debug, PartialEq, Eq)]
pub struct CatalogMarket {
    pub id: String,
    pub start: Timestamp,
    pub end: Timestamp,
    pub catalog_source: Option<String>,
    pub categories: Vec<String>,
    pub access: Option<DatasetAccess>,
}

/// Categories as the server writes them: one, or a list.
#[derive(Debug)]
pub enum CatalogCategories {
    One(String),
    Many(Vec<String>),
}

/// The categories of a dataset, from what the server wrote, if anything.
pub fn catalog_categories(written: Option<CatalogCategories>) -> (out: Vec<String>)
    ensures
        match written {
            Some(CatalogCategories::One(category)) => texts(out@) == seq![category@],
            Some(CatalogCategories::Many(categories)) => texts(out@) == texts(categories@),
            None => out@.len() == 0,
        },
{
    match written {
        Some(CatalogCategories::One(category)) => {
            let mut out: Vec<String> = Vec::new();
            let ghost text = category@;
            out.push(category);
            assert(texts(out@) =~= seq![text]);
            out
        },
        Some(CatalogCategories::Many(categories)) => categories,
        None => Vec::new(),
    }
}

/// Who may fetch a dataset.
#[derive(Debug, Clone, Copy, PartialEq, Eq, Structural)]
pub struct DatasetAccess {
    pub status: DatasetAccessStatus,
    pub public_cutoff_date: Option<Date>,
}

/// Who may fetch a dataset.
#[derive(Debug, Clone, Copy, PartialEq, Eq, Structural)]
pub enum DatasetAccessStatus {
    Open,
    Preview,
    Restricted,
}

impl DatasetAccess {
    /// Whether the cutoff date, if there is one, is a day of the calendar.
    pub open spec fn valid(self) -> bool {
        self.public_cutoff_date matches Some(date) ==> date.valid()
    }

    /// The words for the kind of access, with `lead` before the cutoff date.
    pub open spec fn label(self, lead: Seq<char>) -> Seq<char> {
        match self.status {
            DatasetAccessStatus::Open => "public"@,
            DatasetAccessStatus::Restricted => "restricted"@,
            DatasetAccessStatus::Preview => match self.public_cutoff_date {
                Some(date) => lead + date_text(date.days as int),
                None => "preview"@,
            },
        }
    }

    /// Whether a day of the dataset can be fetched with an API key only.
    pub open spec fn needs_key(self, day: int) -> bool {
        match self.status {
            DatasetAccessStatus::Open => false,
            DatasetAccessStatus::Restricted => true,
            DatasetAccessStatus::Preview => match self.public_cutoff_date {
                Some(cutoff) => day < cutoff.days,
                None => true,
            },
        }
    }

    /// The words that a search looks through.
    pub fn search_text(&self) -> (out: String)
        requires
            self.valid(),
        ensures
            out@ == self.label("preview "@),
    {
        match self.status {
            DatasetAccessStatus::Open => "public".to_owned(),
            DatasetAccessStatus::Restricted => "restricted".to_owned(),
            DatasetAccessStatus::Preview => match self.public_cutoff_date {
                Some(date) => concat2("preview ", date.text().as_str()),
                None => "preview".to_owned(),
            },
        }
    }

    /// The place in lists: open before preview before restricted.
    pub fn sort_order(&self) -> (out: u8)
        ensures
            out == (match self.status {
                DatasetAccessStatus::Open => 0u8,
                DatasetAccessStatus::Preview => 1u8,
                DatasetAccessStatus::Restricted => 2u8,
            }),
    {
        match self.status {
            DatasetAccessStatus::Open => 0,
            DatasetAccessStatus::Preview => 1,
            DatasetAccessStatus::Restricted => 2,
        }
    }

    /// One word for the kind of access.
    pub fn status_label(&self) -> (out: &'static str)
        ensures
            out@ == (match self.status {
                DatasetAccessStatus::Open => "public"@,
                DatasetAccessStatus::Preview => "preview"@,
                DatasetAccessStatus::Restricted => "restricted"@,
            }),
    {
        match self.status {
            DatasetAccessStatus::Open => "public",
            DatasetAccessStatus::Preview => "preview",
            DatasetAccessStatus::Restricted => "restricted",
        }
    }

    /// Whether a day of the dataset can be fetched with an API key only.
    pub fn requires_api_key_for_date(&self, selected_date: Date) -> (res: bool)
        ensures
            res == self.needs_key(selected_date.days as int),
    {
        match self.status {
            DatasetAccessStatus::Open => false,
            DatasetAccessStatus::Restricted => true,
            DatasetAccessStatus::Preview => match self.public_cutoff_date {
                Some(cutoff) => selected_date.days < cutoff.days,
                None => true,
            },
        }
    }

    /// The words that are shown in lists.
    pub fn summary_label(&self) -> (out: String)
        requires
            self.valid(),
        ensures
            out@ == self.label("preview from "@),
    {
        match self.status {
            DatasetAccessStatus::Open => "public".to_owned(),
            DatasetAccessStatus::Restricted => "restricted".to_owned(),
            DatasetAccessStatus::Preview => match self.public_cutoff_date {
                Some(date) => concat2("preview from ", date.text().as_str()),
                None => "preview".to_owned(),
            },
        }
    }
}

/// Access that opens a day opens every later day too.
pub proof fn lemma_access_opens_upwards(access: DatasetAccess, day: int, later: int)
    requires
        day <= later,
        !access.needs_key(day),
    ensures
        !access.needs_key(later),
{
}

// ---------------------------------------------------------------------------
// Requests
// ---------------------------------------------------------------------------

/// The method of a request.
#[derive(Debug, Clone, Copy, PartialEq, Eq, Structural)]
pub enum ApiMethod {
    Get,
    Post,
}

/// A request to the server.
#[derive(Debug, PartialEq, Eq)]
pub struct ApiRequest {
    pub method: ApiMethod,
    pub url: String,
    pub query: Vec<(String, String)>,
    /// The key that is sent as bearer token.
    pub bearer: Option<String>,
    /// The text that is sent as `message` of a JSON object.
    pub message: Option<String>,
}

/// What a request says.
pub struct RequestView {
    pub method: ApiMethod,
    pub url: Seq<char>,
    pub query: Seq<(Seq<char>, Seq<char>)>,
    pub bearer: Option<Seq<char>>,
    pub message: Option<Seq<char>>,
}

/// The texts of name and value pairs.
pub open spec fn pairs(v: Seq<(String, String)>) -> Seq<(Seq<char>, Seq<char>)> {
    v.map_values(|pair: (String, String)| (pair.0@, pair.1@))
}

impl View for ApiRequest {
    type V = RequestView;

    open spec fn view(&self) -> RequestView {
        RequestView {
            method: self.method,
            url: self.url@,
            query: pairs(self.query@),
            bearer: opt_text(self.bearer),
            message: opt_text(self.message),
        }
    }
}

/// Puts a name and a value at the end of a query.
fn add_pair(query: &mut Vec<(String, String)>, name: &str, value: &str)
    ensures
        pairs(final(query)@) == pairs(old(query)@).push((name@, value@)),
{
    query.push((name.to_owned(), value.to_owned()));
    assert(pairs(query@) =~= pairs(old(query)@).push((name@, value@)));
}

/// Where and as whom the server is asked.
#[derive(Debug)]
pub struct PolarisClient {
    base_url: String,
    api_key: Option<String>,
}

impl PolarisClient {
    /// The address of the server, without a slash at the end.
    pub closed spec fn base(self) -> Seq<char> {
        self.base_url@
    }

    /// The API key.
    pub closed spec fn key(self) -> Option<Seq<char>> {
        opt_text(self.api_key)
    }

    /// A client for the server at `base_url`.
    pub fn new(base_url: &str, api_key: Option<String>) -> (out: PolarisClient)
        ensures
            out.base() == trim_end_char(base_url@, '/'),
            out.key() == opt_text(api_key),
    {
        PolarisClient { base_url: without_trailing(base_url, '/'), api_key }
    }

    /// Whether there is an API key.
    pub fn has_api_key(&self) -> (res: bool)
        ensures
            res == (self.key() is Some),
    {
        self.api_key.is_some()
    }

    /// A request without query and body.
    fn request(&self, method: ApiMethod, path: &str, authorized: bool) -> (out: ApiRequest)
        ensures
            out@ == (RequestView {
                method,
                url: self.base() + path@,
                query: seq![],
                bearer: if authorized {
                    self.key()
                } else {
                    None
                },
                message: None,
            }),
    {
        let query: Vec<(String, String)> = Vec::new();
        assert(pairs(query@) =~= seq![]);
        let bearer = if authorized {
            self.api_key.clone()
        } else {
            None
        };
        ApiRequest { method, url: concat2(self.base_url.as_str(), path), query, bearer, message: None }
    }

    /// The request that starts a login.
    pub fn start_cli_auth(&self) -> (out: ApiRequest)
        ensures
            out@ == (RequestView {
                method: ApiMethod::Post,
                url: self.base() + "/auth/cli/start"@,
                query: seq![],
                bearer: None,
                message: None,
            }),
    {
        self.request(ApiMethod::Post, "/auth/cli/start", false)
    }

    /// The request that asks how far a login is.
    pub fn poll_cli_auth(&self, request_id: &str, poll_token: &str) -> (out: ApiRequest)
        ensures
            out@ == (RequestView {
                method: ApiMethod::Get,
                url: self.base() + "/auth/cli/poll"@,
                query: seq![("request_id"@, request_id@), ("poll_token"@, poll_token@)],
                bearer: None,
                message: None,
            }),
    {
        let mut out = self.request(ApiMethod::Get, "/auth/cli/poll", false);
        add_pair(&mut out.query, "request_id", request_id);
        add_pair(&mut out.query, "poll_token", poll_token);
        assert(out@.query =~= seq![("request_id"@, request_id@), ("poll_token"@, poll_token@)]);
        out
    }

    /// The request for the account behind the API key.
    pub fn fetch_account(&self) -> (out: ApiRequest)
        ensures
            out@ == (RequestView {
                method: ApiMethod::Get,
                url: self.base() + "/account"@,
                query: seq![],
                bearer: self.key(),
                message: None,
            }),
    {
        self.request(ApiMethod::Get, "/account", true)
    }

    /// The request that hands in a feedback message.
    pub fn submit_feedback(&self, message: &str) -> (out: ApiRequest)
        ensures
            out@ == (RequestView {
                method: ApiMethod::Post,
                url: self.base() + "/feedback"@,
                query: seq![],
                bearer: self.key(),
                message: Some(message@),
            }),
    {
        let mut out = self.request(ApiMethod::Post, "/feedback", true);
        out.message = Some(message.to_owned());
        out
    }

    /// The request for the catalog, narrowed to a source and a market of it. A market without a
    /// source is refused.
    pub fn fetch_catalog(&self, source: Option<&str>, market: Option<&str>) -> (out: Result<
        ApiRequest,
        TickError,
    >)
        ensures
            market is Some && source is None ==> failure(out) == Some(
                ErrorView::InvalidArgument("--market on remote list requires --source"@),
            ),
            !(market is Some && source is None) ==> (out matches Ok(request) && request@ == (
            RequestView {
                method: ApiMethod::Get,
                url: self.base() + "/catalog"@,
                query: (match source {
                    Some(s) => seq![("source"@, s@)],
                    None => seq![],
                }) + (match market {
                    Some(m) => seq![("market"@, m@)],
                    None => seq![],
                }),
                bearer: self.key(),
                message: None,
            })),
    {
        if market.is_some() && source.is_none() {
            return Err(
                TickError::InvalidArgument("--market on remote list requires --source".to_owned()),
            );
        }
        let mut out = self.request(ApiMethod::Get, "/catalog", true);
        let ghost mut expected: Seq<(Seq<char>, Seq<char>)> = seq![];
        if let Some(s) = source {
            add_pair(&mut out.query, "source", s);
            proof {
                expected = seq![("source"@, s@)];
            }
        }
        assert(out@.query =~= expected);
        if let Some(m) = market {
            add_pair(&mut out.query, "market", m);
            assert(out@.query =~= expected + seq![("market"@, m@)]);
        } else {
            assert(out@.query =~= expected + Seq::empty());
        }
        Ok(out)
    }

    /// The request for where a snapshot can be fetched.
    pub fn download_snapshot(&self, key: &str) -> (out: ApiRequest)
        ensures
            out@ == (RequestView {
                method: ApiMethod::Get,
                url: self.base() + "/download"@,
                query: seq![("key"@, key@)],
                bearer: self.key(),
                message: None,
            }),
    {
        let mut out = self.request(ApiMethod::Get, "/download", true);
        add_pair(&mut out.query, "key", key);
        assert(out@.query =~= seq![("key"@, key@)]);
        out
    }
}

// ---------------------------------------------------------------------------
// Answers
// ---------------------------------------------------------------------------

/// Whether a status means success.
pub open spec fn success(status: u16) -> bool {
    200 <= status < 300
}

/// Whether a status means success.
pub fn is_success(status: u16) -> (res: bool)
    ensures
        res == success(status),
{
    200 <= status && status < 300
}

/// Whether a request with this status may succeed later: too many requests, or a fault of the
/// server.
pub open spec fn worth_retrying(status: u16) -> bool {
    status == 429 || 500 <= status < 600
}

/// A status code with its reason, as in `404 Not Found`.
pub uninterp spec fn status_text(status: u16) -> Seq<char>;

/// `StatusCode::to_string` of a code with three digits: the code, a blank and the reason, which
/// depends on the code alone.
#[verifier::external_body]
fn reqwest_status_text(status: u16) -> (out: String)
    requires
        100 <= status < 1000,
    ensures
        out@ == status_text(status),
        out@.len() > 4,
        out@.take(4) == decimal(status as nat).push(' '),
{
    reqwest::StatusCode::from_u16(status).unwrap().to_string()
}

/// What is said of an answer with a status other than success: the status with its reason, and the
/// body where there is one.
pub open spec fn failure_words(reason: Seq<char>, body: Seq<char>, context: Seq<char>) -> Seq<char> {
    let head = context + " ("@ + reason + ")"@;
    if blank(body) {
        head
    } else {
        head + ": "@ + trim(body)
    }
}

/// What an answer with a status other than success means.
pub open spec fn http_failure(status: u16, body: Seq<char>, context: Seq<char>) -> ErrorView {
    ErrorView::Request {
        status: Some(status),
        message: failure_words(status_text(status), body, context),
        retryable: worth_retrying(status),
    }
}

/// What is said of an answer with a status other than success.
pub fn failure_message(reason: &str, body: &str, context: &str) -> (out: String)
    ensures
        out@ == failure_words(reason@, body@, context@),
{
    let mut message = concat4(context, " (", reason, ")");
    if !is_blank(body) {
        let body_text = trimmed(body);
        message.append(": ");
        message.append(body_text.as_str());
    }
    message
}

/// What an answer with a status other than success means.
pub fn http_error(status: u16, body: &str, context: &str) -> (out: TickError)
    requires
        100 <= status < 1000,
    ensures
        out@ == http_failure(status, body@, context@),
{
    let reason = reqwest_status_text(status);
    TickError::Request {
        status: Some(status),
        message: failure_message(reason.as_str(), body, context),
        retryable: status == 429 || (500 <= status && status < 600),
    }
}

/// A status of 500 to 599, and 429, means that the same request may succeed later. No other status
/// does.
pub proof fn lemma_failures_worth_a_retry(status: u16, body: &str, context: &str, out: TickError)
    requires
        call_ensures(http_error, (status, body, context), out),
    ensures
        out matches TickError::Request { status: told, retryable, .. } && told == Some(status)
            && retryable == (status == 429 || 500 <= status <= 599),
{
}

/// The most characters of a body that are shown.
pub const SNIPPET_CHARS: usize = 240;

/// The start of a body, for a message.
pub open spec fn snippet(body: Seq<char>) -> Seq<char> {
    let t = trim(body);
    if t.len() == 0 {
        "<empty body>"@
    } else if t.len() > SNIPPET_CHARS {
        t.take(SNIPPET_CHARS as int) + "..."@
    } else {
        t
    }
}

/// The start of a body, for a message.
pub fn body_snippet(body: &str) -> (out: String)
    ensures
        out@ == snippet(body@),
{
    let t = trimmed(body);
    let chars = chars_of(t.as_str());
    if chars.len() == 0 {
        return "<empty body>".to_owned();
    }
    if chars.len() > SNIPPET_CHARS {
        let mut out = text_between(&chars, 0, SNIPPET_CHARS);
        assert(out@ =~= t@.take(SNIPPET_CHARS as int));
        out.append("...");
        return out;
    }
    t
}

/// The error for a body that is not what was expected.
pub fn decode_error(body: &str, context: &str) -> (out: TickError)
    ensures
        out@ == ErrorView::Other(
            context@ + ": failed to decode JSON response: "@ + snippet(body@),
        ),
{
    let start = body_snippet(body);
    TickError::Other(
        concat3(context, ": failed to decode JSON response: ", start.as_str()),
    )
}

/// The body of an answer, where the status means success and the body could be read. A body that
/// could not be read counts as empty where the status tells of a failure.
pub fn response_body(status: u16, body: Option<String>, context: &str) -> (out: Result<
    String,
    TickError,
>)
    requires
        100 <= status < 1000,
    ensures
        !success(status) ==> failure(out) == Some(
            http_failure(
                status,
                match body {
                    Some(text) => text@,
                    None => seq![],
                },
                context@,
            ),
        ),
        success(status) && body is None ==> failure(out) == Some(ErrorView::Other(context@)),
        success(status) && body is Some ==> (out matches Ok(text) && text@ == body->0@),
{
    if !is_success(status) {
        let text = match body {
            Some(text) => text,
            None => {
                let empty = String::new();
                assert(empty@ =~= seq![]);
                empty
            },
        };
        return Err(http_error(status, text.as_str(), context));
    }
    match body {
        Some(text) => Ok(text),
        None => Err(TickError::Other(context.to_owned())),
    }
}

/// The body of the answer to how far a login is. `410 Gone` is an answer too: the login is over.
pub fn poll_body(status: u16, body: Option<String>) -> (out: Result<String, TickError>)
    requires
        100 <= status < 1000,
    ensures
        body is None ==> failure(out) == Some(ErrorView::Other("CLI auth poll request failed"@)),
        body is Some && !(success(status) || status == 410) ==> failure(out) == Some(
            http_failure(status, body->0@, "CLI auth poll request failed"@),
        ),
        body is Some && (success(status) || status == 410) ==> (out matches Ok(text) && text@
            == body->0@),
{
    match body {
        None => Err(TickError::Other("CLI auth poll request failed".to_owned())),
        Some(text) => if is_success(status) || status == 410 {
            Ok(text)
        } else {
            Err(http_error(status, text.as_str(), "CLI auth poll request failed"))
        },
    }
}

// ---------------------------------------------------------------------------
// Snapshots, page by page
// ---------------------------------------------------------------------------

/// A snapshot on the server.
#[derive(Debug, PartialEq, Eq)]
pub struct SnapshotEntry {
    pub key: String,
    pub date: Option<Date>,
}

impl Clone for SnapshotEntry {
    fn clone(&self) -> (out: SnapshotEntry)
        ensures
            out == *self,
    {
        SnapshotEntry { key: self.key.clone(), date: self.date }
    }
}

/// One page of a listing.
#[derive(Debug)]
pub struct SnapshotsPage {
    pub total: Option<usize>,
    pub total_bytes: u64,
    pub next_cursor: Option<String>,
    pub snapshots: Vec<SnapshotEntry>,
}

impl SnapshotsPage {
    /// A page as the server writes it: entries under one name, then entries under another.
    pub fn from_wire(
        total: Option<usize>,
        total_bytes: Option<u64>,
        next_cursor: Option<String>,
        snapshots: Vec<SnapshotEntry>,
        data: Vec<SnapshotEntry>,
    ) -> (out: SnapshotsPage)
        ensures
            out.total == total,
            out.total_bytes == (match total_bytes {
                Some(n) => n,
                None => 0,
            }),
            out.next_cursor == next_cursor,
            out.snapshots@ == snapshots@ + data@,
    {
        let mut all = snapshots;
        let mut rest = data;
        all.append(&mut rest);
        SnapshotsPage {
            total,
            total_bytes: match total_bytes {
                Some(n) => n,
                None => 0,
            },
            next_cursor,
            snapshots: all,
        }
    }
}

/// The snapshots that were listed so far.
#[derive(Debug)]
pub struct SnapshotListing {
    pub snapshots: Vec<SnapshotEntry>,
    pub total_bytes: u64,
    pub cursor: Option<String>,
}

/// The size that is known once a page was added: the first page with entries tells it, and as
/// long as there was none, the last page.
pub open spec fn bytes_after(before: Seq<SnapshotEntry>, bytes: u64, page: SnapshotsPage) -> u64 {
    if before.len() == 0 {
        page.total_bytes
    } else {
        bytes
    }
}

/// Whether a last page tells of another number of entries than were listed. Zero tells nothing.
pub open spec fn miscounted(page: SnapshotsPage, listed: nat) -> bool {
    page.total matches Some(total) && total != listed && total != 0
}

impl SnapshotListing {
    /// Nothing listed so far.
    pub fn new() -> (out: SnapshotListing)
        ensures
            out.snapshots@.len() == 0,
            out.total_bytes == 0,
            out.cursor is None,
    {
        SnapshotListing { snapshots: Vec::new(), total_bytes: 0, cursor: None }
    }

    /// The request for the next page.
    pub fn request(
        &self,
        client: &PolarisClient,
        source: &str,
        market: &str,
        from: Timestamp,
        to: Timestamp,
    ) -> (out: ApiRequest)
        requires
            from.valid(),
            to.valid(),
        ensures
            out@ == (RequestView {
                method: ApiMethod::Get,
                url: client.base() + "/snapshots"@,
                query: seq![
                    ("source"@, source@),
                    ("market"@, market@),
                    ("from"@, stamp_text(from.secs as int, from.nanos as int)),
                    ("to"@, stamp_text(to.secs as int, to.nanos as int)),
                    ("limit"@, "1000"@),
                ] + (match self.cursor {
                    Some(cursor) => seq![("cursor"@, cursor@)],
                    None => seq![],
                }),
                bearer: client.key(),
                message: None,
            }),
    {
        let mut out = client.request(ApiMethod::Get, "/snapshots", true);
        let from_text = from.stamp();
        let to_text = to.stamp();
        add_pair(&mut out.query, "source", source);
        add_pair(&mut out.query, "market", market);
        add_pair(&mut out.query, "from", from_text.as_str());
        add_pair(&mut out.query, "to", to_text.as_str());
        add_pair(&mut out.query, "limit", "1000");
        let ghost expected = seq![
            ("source"@, source@),
            ("market"@, market@),
            ("from"@, from_text@),
            ("to"@, to_text@),
            ("limit"@, "1000"@),
        ];
        assert(out@.query =~= expected);
        if let Some(cursor) = &self.cursor {
            add_pair(&mut out.query, "cursor", cursor.as_str());
            assert(out@.query =~= expected + seq![("cursor"@, cursor@)]);
        } else {
            assert(out@.query =~= expected + Seq::empty());
        }
        out
    }

    /// Adds a page. The answer is whether there are more. A last page that tells of another number
    /// of entries than were listed is refused.
    pub fn add_page(&mut self, page: SnapshotsPage) -> (out: Result<bool, TickError>)
        ensures
            final(self).snapshots@ == old(self).snapshots@ + page.snapshots@,
            final(self).total_bytes == bytes_after(
                old(self).snapshots@,
                old(self).total_bytes,
                page,
            ),
            page.next_cursor is Some ==> final(self).cursor == page.next_cursor && (out matches Ok(
                more,
            ) && more),
            page.next_cursor is None && miscounted(page, final(self).snapshots@.len())
                ==> failure(out) == Some(
                ErrorView::Other(
                    "snapshot pagination returned "@ + decimal(final(self).snapshots@.len())
                        + " entries but advertised "@ + decimal(page.total->0 as nat),
                ),
            ),
            page.next_cursor is None && !miscounted(page, final(self).snapshots@.len()) ==> (
            out matches Ok(more) && !more),
            page.next_cursor is None ==> final(self).cursor == old(self).cursor,
    {
        if self.snapshots.len() == 0 {
            self.total_bytes = page.total_bytes;
        }
        let mut snapshots = page.snapshots;
        self.snapshots.append(&mut snapshots);
        match page.next_cursor {
            Some(next) => {
                self.cursor = Some(next);
                Ok(true)
            },
            None => {
                if let Some(total) = page.total {
                    if total != self.snapshots.len() && total != 0 {
                        let listed = decimal_of(self.snapshots.len() as u64);
                        let told = decimal_of(total as u64);
                        return Err(
                            TickError::Other(
                                concat4(
                                    "snapshot pagination returned ",
                                    listed.as_str(),
                                    " entries but advertised ",
                                    told.as_str(),
                                ),
                            ),
                        );
                    }
                }
                Ok(false)
            },
        }
    }
}

/// The snapshots of pages, one after the other.
pub open spec fn all_snapshots(pages: Seq<SnapshotsPage>) -> Seq<SnapshotEntry>
    decreases pages.len(),
{
    if pages.len() == 0 {
        seq![]
    } else {
        all_snapshots(pages.drop_last()) + pages.last().snapshots@
    }
}

/// Whether each state is the one before it with a page added.
pub open spec fn page_by_page(states: Seq<SnapshotListing>, pages: Seq<SnapshotsPage>) -> bool {
    &&& states.len() == pages.len() + 1
    &&& states[0].snapshots@.len() == 0
    &&& forall|i: int|
        0 <= i < pages.len() ==> states[i + 1].snapshots@ == states[i].snapshots@ + (
        #[trigger] pages[i]).snapshots@
}

/// A listing holds the snapshots of its pages, in order, none lost and none twice.
pub proof fn lemma_listing_holds_all_pages(states: Seq<SnapshotListing>, pages: Seq<SnapshotsPage>)
    requires
        page_by_page(states, pages),
    ensures
        states.last().snapshots@ == all_snapshots(pages),
    decreases pages.len(),
{
    if pages.len() == 0 {
        assert(states[0].snapshots@ =~= all_snapshots(pages));
    } else {
        let before = states.drop_last();
        let front = pages.drop_last();
        assert forall|i: int| 0 <= i < front.len() implies before[i + 1].snapshots@
            == before[i].snapshots@ + (#[trigger] front[i]).snapshots@ by {
            assert(front[i] == pages[i]);
        }
        lemma_listing_holds_all_pages(before, front);
        assert(pages[pages.len() - 1] == pages.last());
    }
}

// ---------------------------------------------------------------------------
// What is asked and answered
// ---------------------------------------------------------------------------

/// The server is asked at the address that was given, without slashes at its end.
pub proof fn lemma_address_of_the_server(
    base_url: &str,
    api_key: Option<String>,
    client: PolarisClient,
    has_key: bool,
)
    requires
        call_ensures(PolarisClient::new, (base_url, api_key), client),
        call_ensures(PolarisClient::has_api_key, (&client,), has_key),
    ensures
        client.base().len() <= base_url@.len(),
        base_url@.take(client.base().len() as int) == client.base(),
        forall|i: int|
            client.base().len() <= i < base_url@.len() ==> #[trigger] base_url@[i] == '/',
        client.base().len() > 0 ==> client.base().last() != '/',
        has_key <==> api_key is Some,
        client.key() is Some ==> client.key()->0 == api_key->0@,
{
    lemma_trim_end_char(base_url@, '/');
}

/// The API key goes with every request for data and for the account, and with none that signs in.
pub proof fn lemma_requests_carry_the_key(
    client: PolarisClient,
    key: &str,
    request_id: &str,
    poll_token: &str,
    message: &str,
    download: ApiRequest,
    account: ApiRequest,
    feedback: ApiRequest,
    start: ApiRequest,
    poll: ApiRequest,
)
    requires
        call_ensures(PolarisClient::download_snapshot, (&client, key), download),
        call_ensures(PolarisClient::fetch_account, (&client,), account),
        call_ensures(PolarisClient::submit_feedback, (&client, message), feedback),
        call_ensures(PolarisClient::start_cli_auth, (&client,), start),
        call_ensures(PolarisClient::poll_cli_auth, (&client, request_id, poll_token), poll),
    ensures
        download@.bearer == client.key(),
        account@.bearer == client.key(),
        feedback@.bearer == client.key(),
        start@.bearer is None && poll@.bearer is None,
        starts_with(download@.url, client.base()),
        starts_with(account@.url, client.base()),
        starts_with(feedback@.url, client.base()),
        starts_with(start@.url, client.base()),
        starts_with(poll@.url, client.base()),
        download@.query.contains(("key"@, key@)),
        poll@.query.contains(("request_id"@, request_id@)),
        poll@.query.contains(("poll_token"@, poll_token@)),
        feedback@.message == Some(message@),
        download@.message is None && account@.message is None && start@.message is None
            && poll@.message is None,
{
    let base = client.base();
    assert((base + "/download"@).take(base.len() as int) =~= base);
    assert((base + "/account"@).take(base.len() as int) =~= base);
    assert((base + "/feedback"@).take(base.len() as int) =~= base);
    assert((base + "/auth/cli/start"@).take(base.len() as int) =~= base);
    assert((base + "/auth/cli/poll"@).take(base.len() as int) =~= base);
    assert(download@.query[0] == ("key"@, key@));
    assert(poll@.query[0] == ("request_id"@, request_id@));
    assert(poll@.query[1] == ("poll_token"@, poll_token@));
}

/// The request for a page of snapshots names the dataset, the range of time and, from the second page
/// on, where the page before ended. The instants are written so that they are read as they were.
pub proof fn lemma_page_request(
    listing: SnapshotListing,
    client: PolarisClient,
    source: &str,
    market: &str,
    from: Timestamp,
    to: Timestamp,
    out: ApiRequest,
)
    requires
        call_ensures(SnapshotListing::request, (&listing, &client, source, market, from, to), out),
    ensures
        out@.bearer == client.key(),
        out@.query.contains(("source"@, source@)),
        out@.query.contains(("market"@, market@)),
        out@.query.contains(("from"@, stamp_text(from.secs as int, from.nanos as int))),
        out@.query.contains(("to"@, stamp_text(to.secs as int, to.nanos as int))),
        listing.cursor matches Some(cursor) ==> out@.query.contains(("cursor"@, cursor@)),
        listing.cursor is None ==> out@.query.len() == 5,
        listing.cursor is Some ==> out@.query.len() == 6,
{
    let q = out@.query;
    assert(q[0] == ("source"@, source@));
    assert(q[1] == ("market"@, market@));
    assert(q[2].0 == "from"@ && q[3].0 == "to"@);
    assert(q.contains(q[0]) && q.contains(q[1]) && q.contains(q[2]) && q.contains(q[3]));
    if let Some(cursor) = listing.cursor {
        assert(q[5] == ("cursor"@, cursor@));
    }
}

/// An answer counts if and only if its status is one of 200 to 299 and its body could be read. Any
/// other status is an error that tells it.
pub proof fn lemma_what_answers_count(
    status: u16,
    body: Option<String>,
    context: &str,
    out: Result<String, TickError>,
    good: bool,
)
    requires
        call_ensures(response_body, (status, body, context), out),
        call_ensures(is_success, (status,), good),
    ensures
        good <==> 200 <= status <= 299,
        out is Ok <==> 200 <= status <= 299 && body is Some,
        out is Ok ==> out->Ok_0@ == body->0@,
        !(200 <= status <= 299) ==> (out->Err_0 matches TickError::Request {
            status: told,
            retryable,
            ..
        } && told == Some(status) && retryable == (status == 429 || 500 <= status <= 599)),
{
}

/// The answer to how far a login is counts also where its status is 410.
pub proof fn lemma_what_login_answers_count(
    status: u16,
    body: Option<String>,
    out: Result<String, TickError>,
)
    requires
        call_ensures(poll_body, (status, body), out),
    ensures
        out is Ok <==> body is Some && (200 <= status <= 299 || status == 410),
        out is Ok ==> out->Ok_0@ == body->0@,
{
}

/// The catalog is asked for a market only together with its source. What is asked for is in the
/// request, and nothing else.
pub proof fn lemma_catalog_request(
    client: PolarisClient,
    source: Option<&str>,
    market: Option<&str>,
    out: Result<ApiRequest, TickError>,
)
    requires
        call_ensures(PolarisClient::fetch_catalog, (&client, source, market), out),
    ensures
        out is Err <==> market is Some && source is None,
        out is Err ==> out->Err_0 is InvalidArgument,
        out matches Ok(request) ==> {
            &&& request@.bearer == client.key()
            &&& source matches Some(s) ==> request@.query.contains(("source"@, s@))
            &&& market matches Some(m) ==> request@.query.contains(("market"@, m@))
            &&& request@.query.len() == (if source is None {
                0int
            } else if market is None {
                1int
            } else {
                2int
            })
        },
{
    if let Ok(request) = out {
        if let Some(s) = source {
            assert(request@.query[0] == ("source"@, s@));
        }
        if let Some(m) = market {
            assert(request@.query[1] == ("market"@, m@));
        }
    }
}

/// A last page is refused if and only if it tells of another number of snapshots than were listed, and
/// not of none.
pub proof fn lemma_when_pages_do_not_add_up(page: SnapshotsPage, listed: nat)
    ensures
        page.total is None ==> !miscounted(page, listed),
        page.total matches Some(total) ==> (miscounted(page, listed) <==> total > 0 && (total
            < listed || total > listed)),
{
}

/// The size of what is listed is what the first page with snapshots tells, and pages that follow do not
/// change it.
pub proof fn lemma_first_page_tells_the_size(
    before: Seq<SnapshotEntry>,
    bytes: u64,
    first: SnapshotsPage,
    second: SnapshotsPage,
)
    requires
        before.len() == 0,
        first.snapshots@.len() > 0,
    ensures
        bytes_after(before, bytes, first) == first.total_bytes,
        bytes_after(before + first.snapshots@, bytes_after(before, bytes, first), second)
            == first.total_bytes,
{
}

/// A page holds all entries that the server wrote, under whichever name, those under the first name
/// before those under the second.
pub proof fn lemma_page_holds_all_entries(
    total: Option<usize>,
    total_bytes: Option<u64>,
    next: Option<String>,
    snapshots: Vec<SnapshotEntry>,
    data: Vec<SnapshotEntry>,
    out: SnapshotsPage,
)
    requires
        call_ensures(SnapshotsPage::from_wire, (total, total_bytes, next, snapshots, data), out),
    ensures
        out.snapshots@.len() == snapshots@.len() + data@.len(),
        forall|i: int| 0 <= i < snapshots@.len() ==> #[trigger] out.snapshots@[i] == snapshots@[i],
        forall|i: int|
            0 <= i < data@.len() ==> out.snapshots@[snapshots@.len() + i] == #[trigger] data@[i],
        out.total == total && out.next_cursor == next,
        total_bytes matches Some(n) ==> out.total_bytes == n,
        total_bytes is None ==> out.total_bytes == 0,
{
}

/// A page is put behind those before it, none of its entries lost. There are more pages if and only if
/// it says where the next one begins, and that is where the next request begins.
pub proof fn lemma_page_is_added(listing: &mut SnapshotListing, page: SnapshotsPage, out: Result<bool, TickError>)
    requires
        call_ensures(SnapshotListing::add_page, (listing, page), out),
    ensures
        final(listing).snapshots@.len() == old(listing).snapshots@.len() + page.snapshots@.len(),
        forall|i: int|
            0 <= i < old(listing).snapshots@.len() ==> #[trigger] final(listing).snapshots@[i]
                == old(listing).snapshots@[i],
        forall|i: int|
            0 <= i < page.snapshots@.len() ==> final(listing).snapshots@[old(listing).snapshots@.len() + i] == #[trigger] page.snapshots@[i],
        out is Ok ==> (out->Ok_0 <==> page.next_cursor is Some),
        page.next_cursor is Some ==> out is Ok && final(listing).cursor == page.next_cursor,
        out is Err <==> page.next_cursor is None && page.total is Some && page.total->0 > 0
            && page.total->0 != final(listing).snapshots@.len(),
{
}

} // verus!
