//! What the commands print.

use crate::calendar::full_stamp_text;
use crate::commands::{LocalListFilters, RemoteListFilters};
use crate::layout::{Layout, LocalSnapshotEntry};
use crate::path::{components, is_under, lemma_join_adds_component, path_join};
use crate::planner::{lemma_present_and_missing, missing, present, SyncPlan, TimeWindow};
use crate::syncer::{FailedDownload, SyncExecution};
use crate::text::{
    concat2, concat3, concat4, copy_texts, decimal, decimal_of, join_texts, joined, no_lines,
    opt_text, push_line, texts,
};
use crate::tui::model::{DatasetEntryView, RemoteDatasetEntry};
use vstd::prelude::*;

verus! {

/// Output that can be read by people.
pub trait HumanOutput {
    /// The lines of the output.
    spec fn lines(&self) -> Seq<Seq<char>>;

    /// Whether everything that is shown exists.
    spec fn valid(&self) -> bool;

    /// The output, with a line break between lines.
    fn render_human(&self) -> (out: String)
        requires
            self.valid(),
        ensures
            out@ == joined(self.lines(), "\n"@),
    ;
}

// ---------------------------------------------------------------------------
// Filters
// ---------------------------------------------------------------------------

/// An optional text as Rust shows it for debugging.
pub uninterp spec fn debug_text(value: Option<Seq<char>>) -> Seq<char>;

/// `format!` with `{:?}` of an optional string: what it gives depends on the value alone.
#[verifier::external_body]
fn format_debug(value: &Option<String>) -> (out: String)
    ensures
        out@ == debug_text(opt_text(*value)),
        value is None ==> out@ == "None"@,
{
    format!("{:?}", value)
}

/// The line for what a list is narrowed to.
pub open spec fn filters_text(
    exchange: Seq<char>,
    asset: Seq<char>,
    name: Seq<char>,
    value: Seq<char>,
) -> Seq<char> {
    "filters: exchange="@ + exchange + " asset="@ + asset + " "@ + name + "="@ + value
}

/// The line for what a list is narrowed to.
pub fn filters_line(exchange: &str, asset: &str, name: &str, value: &str) -> (out: String)
    ensures
        out@ == filters_text(exchange@, asset@, name@, value@),
{
    let mut out = concat4("filters: exchange=", exchange, " asset=", asset);
    out.append(" ");
    out.append(name);
    out.append("=");
    out.append(value);
    out
}

// ---------------------------------------------------------------------------
// Datasets on the server
// ---------------------------------------------------------------------------

/// The list of datasets on the server.
#[derive(Debug)]
pub struct RemoteListOutput {
    pub command: &'static str,
    pub filters: RemoteListFilters,
    pub dataset_total: usize,
    pub datasets: Vec<RemoteDatasetEntry>,
}

/// The line for a dataset.
pub open spec fn dataset_line(entry: DatasetEntryView) -> Seq<char> {
    "  "@ + entry.source + ":"@ + entry.market + " "@ + full_stamp_text(
        entry.start.secs as int,
        entry.start.nanos as int,
    ) + " -> "@ + full_stamp_text(entry.end.secs as int, entry.end.nanos as int) + " ("@
        + entry.access_label("preview from "@) + ")"@
}

/// The lines for datasets.
pub open spec fn dataset_lines(s: Seq<RemoteDatasetEntry>) -> Seq<Seq<char>> {
    s.map_values(|entry: RemoteDatasetEntry| dataset_line(entry@))
}

/// The line for a dataset.
fn dataset_text(entry: &RemoteDatasetEntry) -> (out: String)
    requires
        entry@.valid(),
    ensures
        out@ == dataset_line(entry@),
{
    let mut out = concat4("  ", entry.source.as_str(), ":", entry.market.as_str());
    out.append(" ");
    let start = entry.start.full_stamp();
    out.append(start.as_str());
    out.append(" -> ");
    let end = entry.end.full_stamp();
    out.append(end.as_str());
    out.append(" (");
    let access = entry.access_summary();
    out.append(access.as_str());
    out.append(")");
    out
}

impl RemoteListOutput {
    /// The list of these datasets.
    pub fn from_entries(filters: RemoteListFilters, datasets: Vec<RemoteDatasetEntry>) -> (out:
        RemoteListOutput)
        ensures
            out.command@ == "catalog"@,
            out.filters == filters,
            out.dataset_total == datasets@.len(),
            out.datasets@ == datasets@,
    {
        RemoteListOutput {
            command: "catalog",
            filters,
            dataset_total: datasets.len(),
            datasets,
        }
    }
}

impl HumanOutput for RemoteListOutput {
    open spec fn lines(&self) -> Seq<Seq<char>> {
        seq!["catalog"@] + (if self.filters.narrows() {
            seq![
                filters_text(
                    debug_text(opt_text(self.filters.exchange)),
                    debug_text(opt_text(self.filters.asset)),
                    "search"@,
                    debug_text(opt_text(self.filters.search)),
                ),
            ]
        } else {
            seq![]
        }) + seq!["datasets: "@ + decimal(self.dataset_total as nat)] + (if self.datasets@.len()
            > 0 {
            seq!["remote datasets:"@] + dataset_lines(self.datasets@)
        } else {
            seq![]
        })
    }

    open spec fn valid(&self) -> bool {
        forall|i: int| 0 <= i < self.datasets@.len() ==> (#[trigger] self.datasets@[i])@.valid()
    }

    fn render_human(&self) -> (out: String) {
        let mut lines = no_lines();
        push_line(&mut lines, "catalog".to_owned());
        if self.filters.exchange.is_some() || self.filters.asset.is_some()
            || self.filters.search.is_some() {
            let exchange = format_debug(&self.filters.exchange);
            let asset = format_debug(&self.filters.asset);
            let search = format_debug(&self.filters.search);
            push_line(
                &mut lines,
                filters_line(exchange.as_str(), asset.as_str(), "search", search.as_str()),
            );
        }
        let total = decimal_of(self.dataset_total as u64);
        push_line(&mut lines, concat2("datasets: ", total.as_str()));
        let ghost head = texts(lines@);
        if self.datasets.len() > 0 {
            push_line(&mut lines, "remote datasets:".to_owned());
            let ghost listed = dataset_lines(self.datasets@);
            let ghost before = texts(lines@);
            assert(texts(lines@) =~= before + listed.take(0));
            for i in 0..self.datasets.len()
                invariant
                    self.valid(),
                    listed == dataset_lines(self.datasets@),
                    texts(lines@) == before + listed.take(i as int),
            {
                assert(self.datasets@[i as int]@.valid());
                push_line(&mut lines, dataset_text(&self.datasets[i]));
                assert(texts(lines@) =~= before + listed.take(i + 1));
            }
            assert(listed.take(listed.len() as int) =~= listed);
            assert(texts(lines@) =~= head + (seq!["remote datasets:"@] + listed));
        } else {
            assert(texts(lines@) =~= head + Seq::empty());
        }
        assert(texts(lines@) =~= self.lines());
        join_texts(&lines, "\n")
    }
}

// ---------------------------------------------------------------------------
// Stored snapshots
// ---------------------------------------------------------------------------

/// The list of stored snapshots.
#[derive(Debug)]
pub struct LocalListOutput {
    pub command: &'static str,
    pub root: String,
    pub filters: LocalListFilters,
    pub snapshot_total: usize,
    pub snapshots: Vec<LocalSnapshotEntry>,
}

/// How many snapshots are listed by key.
pub const LISTED_SNAPSHOTS: usize = 50;

/// The lines for snapshots.
pub open spec fn snapshot_lines(s: Seq<LocalSnapshotEntry>) -> Seq<Seq<char>> {
    s.map_values(|entry: LocalSnapshotEntry| "  "@ + entry.key@)
}

impl LocalListOutput {
    /// The list of these snapshots.
    pub fn from_entries(
        root: String,
        filters: LocalListFilters,
        snapshots: Vec<LocalSnapshotEntry>,
    ) -> (out: LocalListOutput)
        ensures
            out.command@ == "list"@,
            out.root@ == root@,
            out.filters == filters,
            out.snapshot_total == snapshots@.len(),
            out.snapshots@ == snapshots@,
    {
        LocalListOutput {
            command: "list",
            root,
            filters,
            snapshot_total: snapshots.len(),
            snapshots,
        }
    }
}

impl HumanOutput for LocalListOutput {
    open spec fn lines(&self) -> Seq<Seq<char>> {
        let count = self.snapshots@.len();
        let shown = if count > LISTED_SNAPSHOTS { LISTED_SNAPSHOTS as int } else { count as int };
        seq!["list"@, "root: "@ + self.root@] + (if self.filters.narrows() {
            seq![
                filters_text(
                    debug_text(opt_text(self.filters.exchange)),
                    debug_text(opt_text(self.filters.asset)),
                    "date"@,
                    debug_text(opt_text(self.filters.date)),
                ),
            ]
        } else {
            seq![]
        }) + seq!["snapshots: "@ + decimal(self.snapshot_total as nat)] + (if count > 0 {
            seq!["local snapshots:"@] + snapshot_lines(self.snapshots@.take(shown)) + (if count
                > LISTED_SNAPSHOTS {
                seq!["  ... "@ + decimal((count - LISTED_SNAPSHOTS) as nat) + " more"@]
            } else {
                seq![]
            })
        } else {
            seq![]
        })
    }

    open spec fn valid(&self) -> bool {
        true
    }

    fn render_human(&self) -> (out: String) {
        let mut lines = no_lines();
        push_line(&mut lines, "list".to_owned());
        push_line(&mut lines, concat2("root: ", self.root.as_str()));
        if self.filters.exchange.is_some() || self.filters.asset.is_some()
            || self.filters.date.is_some() {
            let exchange = format_debug(&self.filters.exchange);
            let asset = format_debug(&self.filters.asset);
            let date = format_debug(&self.filters.date);
            push_line(
                &mut lines,
                filters_line(exchange.as_str(), asset.as_str(), "date", date.as_str()),
            );
        }
        let total = decimal_of(self.snapshot_total as u64);
        push_line(&mut lines, concat2("snapshots: ", total.as_str()));
        let ghost head = texts(lines@);
        let count: usize = self.snapshots.len();
        if count > 0 {
            push_line(&mut lines, "local snapshots:".to_owned());
            let shown: usize = if count > LISTED_SNAPSHOTS { LISTED_SNAPSHOTS } else { count };
            let ghost listed = snapshot_lines(self.snapshots@.take(shown as int));
            let ghost before = texts(lines@);
            assert(texts(lines@) =~= before + listed.take(0));
            for i in 0..shown
                invariant
                    shown <= self.snapshots@.len(),
                    listed == snapshot_lines(self.snapshots@.take(shown as int)),
                    texts(lines@) == before + listed.take(i as int),
            {
                push_line(&mut lines, concat2("  ", self.snapshots[i].key.as_str()));
                assert(texts(lines@) =~= before + listed.take(i + 1));
            }
            assert(listed.take(listed.len() as int) =~= listed);
            let ghost body = seq!["local snapshots:"@] + listed;
            assert(texts(lines@) =~= head + body);
            if count > LISTED_SNAPSHOTS {
                let rest = decimal_of((count - LISTED_SNAPSHOTS) as u64);
                push_line(&mut lines, concat3("  ... ", rest.as_str(), " more"));
                assert(texts(lines@) =~= head + (body + seq![
                    "  ... "@ + decimal((count - LISTED_SNAPSHOTS) as nat) + " more"@,
                ]));
            } else {
                assert(texts(lines@) =~= head + (body + Seq::empty()));
            }
        } else {
            assert(texts(lines@) =~= head + Seq::empty());
        }
        assert(texts(lines@) =~= self.lines());
        join_texts(&lines, "\n")
    }
}

// ---------------------------------------------------------------------------
// A download
// ---------------------------------------------------------------------------

/// What came of a download.
#[derive(Debug)]
pub struct SyncOutput {
    pub command: &'static str,
    pub exchange: String,
    pub asset: String,
    pub requested_range: TimeWindow,
    pub effective_range: TimeWindow,
    pub root: String,
    pub remote_total: usize,
    pub downloaded_total: usize,
    pub skipped_total: usize,
    pub failed_total: usize,
    pub downloaded_keys: Vec<String>,
    pub failed: Vec<FailedDownload>,
}

/// The line for a range of time.
pub open spec fn range_line(lead: Seq<char>, window: TimeWindow) -> Seq<char> {
    lead + full_stamp_text(window.from.secs as int, window.from.nanos as int) + " -> "@
        + full_stamp_text(window.to.secs as int, window.to.nanos as int)
}

/// The lines for snapshots that could not be fetched.
pub open spec fn failure_lines(s: Seq<FailedDownload>) -> Seq<Seq<char>> {
    s.map_values(|failed: FailedDownload| "  "@ + failed.key@ + ": "@ + failed.error@)
}

/// The line for a range of time.
fn range_text(lead: &str, window: &TimeWindow) -> (out: String)
    requires
        window.valid(),
    ensures
        out@ == range_line(lead@, *window),
{
    let from = window.from.full_stamp();
    let to = window.to.full_stamp();
    concat4(lead, from.as_str(), " -> ", to.as_str())
}

/// The line for a number.
fn count_text(lead: &str, count: usize) -> (out: String)
    ensures
        out@ == lead@ + decimal(count as nat),
{
    let digits = decimal_of(count as u64);
    concat2(lead, digits.as_str())
}

impl SyncOutput {
    /// What came of a plan.
    pub fn from_parts(plan: &SyncPlan, execution: SyncExecution) -> (out: SyncOutput)
        ensures
            out.command@ == "download"@,
            out.exchange@ == plan.exchange@,
            out.asset@ == plan.asset@,
            out.requested_range == plan.requested_range,
            out.effective_range == plan.effective_range,
            out.root@ == plan.root@,
            out.remote_total == plan.snapshots@.len(),
            out.downloaded_total == execution.downloaded_keys@.len(),
            out.skipped_total == present(plan.snapshots@).len(),
            out.failed_total == execution.failed@.len(),
            out.downloaded_keys@ == execution.downloaded_keys@,
            out.failed@ == execution.failed@,
    {
        SyncOutput {
            command: "download",
            exchange: plan.exchange.clone(),
            asset: plan.asset.clone(),
            requested_range: plan.requested_range,
            effective_range: plan.effective_range,
            root: plan.root.clone(),
            remote_total: plan.remote_total(),
            downloaded_total: execution.downloaded_total(),
            skipped_total: plan.present_total(),
            failed_total: execution.failed_total(),
            downloaded_keys: execution.downloaded_keys,
            failed: execution.failed,
        }
    }

    /// The lines for what was asked for and how much came of it.
    pub open spec fn head(self) -> Seq<Seq<char>> {
        seq![
            "download "@ + self.exchange@ + " "@ + self.asset@,
            "root: "@ + self.root@,
            range_line("requested: "@, self.requested_range),
            range_line("effective: "@, self.effective_range),
            "remote: "@ + decimal(self.remote_total as nat),
            "downloaded: "@ + decimal(self.downloaded_total as nat),
            "skipped: "@ + decimal(self.skipped_total as nat),
            "failed: "@ + decimal(self.failed_total as nat),
        ]
    }

    /// The lines for what was asked for and how much came of it.
    fn head_lines(&self) -> (lines: Vec<String>)
        requires
            self.requested_range.valid() && self.effective_range.valid(),
        ensures
            texts(lines@) == self.head(),
    {
        let mut lines = no_lines();
        push_line(
            &mut lines,
            concat4("download ", self.exchange.as_str(), " ", self.asset.as_str()),
        );
        push_line(&mut lines, concat2("root: ", self.root.as_str()));
        push_line(&mut lines, range_text("requested: ", &self.requested_range));
        push_line(&mut lines, range_text("effective: ", &self.effective_range));
        push_line(&mut lines, count_text("remote: ", self.remote_total));
        push_line(&mut lines, count_text("downloaded: ", self.downloaded_total));
        push_line(&mut lines, count_text("skipped: ", self.skipped_total));
        push_line(&mut lines, count_text("failed: ", self.failed_total));
        lines
    }

    /// The exit code of the process: 1 where a snapshot could not be fetched.
    pub fn exit_code(&self) -> (out: u8)
        ensures
            out == (if self.failed_total > 0 {
                1u8
            } else {
                0u8
            }),
    {
        if self.failed_total > 0 {
            1
        } else {
            0
        }
    }
}

impl HumanOutput for SyncOutput {
    open spec fn lines(&self) -> Seq<Seq<char>> {
        self.head() + (if self.failed@.len() > 0 {
            seq!["failed keys:"@] + failure_lines(self.failed@)
        } else {
            seq![]
        })
    }

    open spec fn valid(&self) -> bool {
        self.requested_range.valid() && self.effective_range.valid()
    }

    fn render_human(&self) -> (out: String) {
        let mut lines = self.head_lines();
        let ghost head = self.head();
        if self.failed.len() > 0 {
            push_line(&mut lines, "failed keys:".to_owned());
            let ghost listed = failure_lines(self.failed@);
            let ghost before = texts(lines@);
            assert(texts(lines@) =~= before + listed.take(0));
            for i in 0..self.failed.len()
                invariant
                    listed == failure_lines(self.failed@),
                    texts(lines@) == before + listed.take(i as int),
            {
                let failed = &self.failed[i];
                push_line(
                    &mut lines,
                    concat4("  ", failed.key.as_str(), ": ", failed.error.as_str()),
                );
                assert(texts(lines@) =~= before + listed.take(i + 1));
            }
            assert(listed.take(listed.len() as int) =~= listed);
            assert(texts(lines@) =~= head + (seq!["failed keys:"@] + listed));
        } else {
            assert(texts(lines@) =~= head + Seq::empty());
        }
        assert(texts(lines@) =~= self.lines());
        join_texts(&lines, "\n")
    }
}

// ---------------------------------------------------------------------------
// A reset
// ---------------------------------------------------------------------------

/// What was removed.
#[derive(Debug)]
pub struct ResetOutput {
    pub command: &'static str,
    pub root: String,
    pub snapshot_total: usize,
    pub removed_roots: Vec<String>,
}

/// The directories that a reset removes: everything that was fetched, gathered or cached.
pub fn reset_roots(layout: &Layout) -> (out: Vec<String>)
    ensures
        texts(out@) == seq![
            path_join(layout@, "data"@),
            path_join(layout@, "tmp"@),
            path_join(layout@, "cache"@),
        ],
{
    let mut out = no_lines();
    push_line(&mut out, layout.data_root());
    push_line(&mut out, layout.tmp_root());
    push_line(&mut out, layout.cache_root());
    assert(texts(out@) =~= seq![
        path_join(layout@, "data"@),
        path_join(layout@, "tmp"@),
        path_join(layout@, "cache"@),
    ]);
    out
}

/// A reset removes three directories below the root and leaves the root itself, the bookmarks, the
/// account and the locks alone: none of these is one of the directories or lies in one.
pub proof fn lemma_reset_spares_the_rest(root: Seq<char>, name: Seq<char>)
    requires
        name == "data"@ || name == "tmp"@ || name == "cache"@,
    ensures
        is_under(path_join(root, name), root),
        components(path_join(root, name)).len() == components(root).len() + 1,
        !is_under(root, path_join(root, name)),
        !is_under(path_join(root, "bookmarks.json"@), path_join(root, name)),
        !is_under(path_join(path_join(root, "account"@), "identity.json"@), path_join(root, name)),
        !is_under(path_join(path_join(root, "locks"@), "sync.lock"@), path_join(root, name)),
{
    reveal_strlit("data");
    reveal_strlit("tmp");
    reveal_strlit("cache");
    reveal_strlit("bookmarks.json");
    reveal_strlit("account");
    reveal_strlit("identity.json");
    reveal_strlit("locks");
    reveal_strlit("sync.lock");
    reveal_strlit(".");
    assert("."@.len() == 1 && "bookmarks.json"@.len() == 14 && "account"@.len() == 7
        && "identity.json"@.len() == 13 && "locks"@.len() == 5 && "sync.lock"@.len() == 9);
    let n = components(root).len() as int;
    lemma_join_adds_component(root, name);
    lemma_join_adds_component(root, "bookmarks.json"@);
    lemma_join_adds_component(root, "account"@);
    lemma_join_adds_component(path_join(root, "account"@), "identity.json"@);
    lemma_join_adds_component(root, "locks"@);
    lemma_join_adds_component(path_join(root, "locks"@), "sync.lock"@);
    assert(components(path_join(root, name)).take(n) =~= components(root));
    assert(components(path_join(root, name))[n] == name);
    let bookmarks = components(path_join(root, "bookmarks.json"@));
    let account = components(path_join(path_join(root, "account"@), "identity.json"@));
    let locks = components(path_join(path_join(root, "locks"@), "sync.lock"@));
    assert(bookmarks.take(n + 1)[n] == "bookmarks.json"@);
    assert(account.take(n + 1)[n] == "account"@);
    assert(locks.take(n + 1)[n] == "locks"@);
    assert(name[0] != "account"@[0] || name[1] != "account"@[1] || name.len() != 7);
    assert("locks"@[0] == 'l');
    assert(name[0] != 'l');
    assert(name.len() <= 5);
}

impl ResetOutput {
    /// What was removed under a layout.
    pub fn new(layout: &Layout, snapshot_total: usize, removed_roots: &Vec<String>) -> (out:
        ResetOutput)
        ensures
            out.command@ == "reset"@,
            out.root@ == layout@,
            out.snapshot_total == snapshot_total,
            out.removed_roots@ == removed_roots@,
    {
        ResetOutput {
            command: "reset",
            root: layout.root().to_owned(),
            snapshot_total,
            removed_roots: copy_texts(removed_roots),
        }
    }
}

/// Lines that are set in by two blanks.
pub open spec fn set_in(s: Seq<String>) -> Seq<Seq<char>> {
    s.map_values(|text: String| "  "@ + text@)
}

impl HumanOutput for ResetOutput {
    open spec fn lines(&self) -> Seq<Seq<char>> {
        seq![
            "reset"@,
            "root: "@ + self.root@,
            "removed snapshots: "@ + decimal(self.snapshot_total as nat),
        ] + (if self.removed_roots@.len() > 0 {
            seq!["removed roots:"@] + set_in(self.removed_roots@)
        } else {
            seq![]
        })
    }

    open spec fn valid(&self) -> bool {
        true
    }

    fn render_human(&self) -> (out: String) {
        let mut lines = no_lines();
        push_line(&mut lines, "reset".to_owned());
        push_line(&mut lines, concat2("root: ", self.root.as_str()));
        let total = decimal_of(self.snapshot_total as u64);
        push_line(&mut lines, concat2("removed snapshots: ", total.as_str()));
        let ghost head = texts(lines@);
        if self.removed_roots.len() > 0 {
            push_line(&mut lines, "removed roots:".to_owned());
            let ghost listed = set_in(self.removed_roots@);
            let ghost before = texts(lines@);
            assert(texts(lines@) =~= before + listed.take(0));
            for i in 0..self.removed_roots.len()
                invariant
                    listed == set_in(self.removed_roots@),
                    texts(lines@) == before + listed.take(i as int),
            {
                push_line(&mut lines, concat2("  ", self.removed_roots[i].as_str()));
                assert(texts(lines@) =~= before + listed.take(i + 1));
            }
            assert(listed.take(listed.len() as int) =~= listed);
            assert(texts(lines@) =~= head + (seq!["removed roots:"@] + listed));
        } else {
            assert(texts(lines@) =~= head + Seq::empty());
        }
        assert(texts(lines@) =~= self.lines());
        join_texts(&lines, "\n")
    }
}

// ---------------------------------------------------------------------------
// What the output tells
// ---------------------------------------------------------------------------

/// The output of a download tells of every snapshot of the plan once: as skipped, where it was stored,
/// and else as fetched or failed. The process fails if and only if a snapshot failed.
pub proof fn lemma_download_is_told(plan: SyncPlan, execution: SyncExecution, out: SyncOutput, code: u8)
    requires
        execution.done() == missing(plan.snapshots@).len(),
        call_ensures(SyncOutput::from_parts, (&plan, execution), out),
        call_ensures(SyncOutput::exit_code, (&out,), code),
    ensures
        out.remote_total == plan.snapshots@.len(),
        out.downloaded_total + out.skipped_total + out.failed_total == out.remote_total,
        out.downloaded_total == execution.downloaded_keys@.len(),
        out.failed_total == execution.failed@.len(),
        out.downloaded_keys@ == execution.downloaded_keys@,
        out.failed@ == execution.failed@,
        code != 0 <==> execution.failed@.len() > 0,
{
    lemma_present_and_missing(plan.snapshots@);
}

/// A list of stored snapshots names the first fifty of them by key, in order, and tells how many more
/// there are, if any. It tells how many there are in all.
pub proof fn lemma_snapshots_are_named(out: LocalListOutput) -> (from: int)
    requires
        out.snapshot_total == out.snapshots@.len(),
    ensures
        0 <= from,
        out.lines().contains("snapshots: "@ + decimal(out.snapshots@.len())),
        forall|i: int|
            0 <= i < out.snapshots@.len() && i < 50 ==> from + i < out.lines().len()
                && #[trigger] out.lines()[from + i] == "  "@ + out.snapshots@[i].key@,
        out.snapshots@.len() <= 50 ==> out.lines().len() == from + out.snapshots@.len(),
        out.snapshots@.len() > 50 ==> {
            &&& out.lines().len() == from + 51
            &&& out.lines().last() == "  ... "@ + decimal((out.snapshots@.len() - 50) as nat)
                + " more"@
        },
{
    let narrowed: int = if out.filters.narrows() {
        1
    } else {
        0
    };
    let count = out.snapshots@.len() as int;
    let from = 3 + narrowed + if count > 0 {
        1int
    } else {
        0int
    };
    assert(out.lines()[2 + narrowed] == "snapshots: "@ + decimal(out.snapshots@.len()));
    assert forall|i: int| 0 <= i < count && i < 50 implies from + i < out.lines().len()
        && #[trigger] out.lines()[from + i] == "  "@ + out.snapshots@[i].key@ by {
        let shown = if count > 50 {
            50
        } else {
            count
        };
        assert(snapshot_lines(out.snapshots@.take(shown))[i] == "  "@ + out.snapshots@[i].key@);
    }
    from
}

/// A list of datasets names each of them, in order, and tells how many there are.
pub proof fn lemma_datasets_are_named(out: RemoteListOutput) -> (from: int)
    requires
        out.dataset_total == out.datasets@.len(),
    ensures
        0 <= from,
        out.lines().len() == from + out.datasets@.len(),
        out.lines().contains("datasets: "@ + decimal(out.datasets@.len())),
        forall|i: int|
            0 <= i < out.datasets@.len() ==> #[trigger] out.lines()[from + i] == "  "@
                + out.datasets@[i].source@ + ":"@ + out.datasets@[i].market@ + " "@
                + full_stamp_text(
                out.datasets@[i].start.secs as int,
                out.datasets@[i].start.nanos as int,
            ) + " -> "@ + full_stamp_text(
                out.datasets@[i].end.secs as int,
                out.datasets@[i].end.nanos as int,
            ) + " ("@ + out.datasets@[i]@.access_label("preview from "@) + ")"@,
{
    let narrowed: int = if out.filters.narrows() {
        1
    } else {
        0
    };
    let count = out.datasets@.len() as int;
    let from = 2 + narrowed + if count > 0 {
        1int
    } else {
        0int
    };
    assert(out.lines()[1 + narrowed] == "datasets: "@ + decimal(out.datasets@.len()));
    assert forall|i: int| 0 <= i < count implies #[trigger] out.lines()[from + i] == dataset_line(
        out.datasets@[i]@,
    ) by {
        assert(dataset_lines(out.datasets@)[i] == dataset_line(out.datasets@[i]@));
    }
    from
}

/// A reset removes the directories of snapshots, of files that are not complete and of what can be
/// made again: each is one step below the root, and these are all.
pub proof fn lemma_reset_removes_three(layout: Layout, out: Vec<String>, name: Seq<char>)
    requires
        call_ensures(reset_roots, (&layout,), out),
    ensures
        out@.len() == 3,
        texts(out@).contains(path_join(layout@, name)) <== name == "data"@ || name == "tmp"@
            || name == "cache"@,
        forall|i: int|
            0 <= i < 3 ==> components((#[trigger] out@[i])@).len() == components(layout@).len() + 1
                && is_under(out@[i]@, layout@),
{
    let roots = texts(out@);
    assert(roots.len() == out@.len());
    assert(roots[0] == path_join(layout@, "data"@));
    assert(roots[1] == path_join(layout@, "tmp"@));
    assert(roots[2] == path_join(layout@, "cache"@));
    lemma_reset_spares_the_rest(layout@, "data"@);
    lemma_reset_spares_the_rest(layout@, "tmp"@);
    lemma_reset_spares_the_rest(layout@, "cache"@);
    assert forall|i: int| 0 <= i < 3 implies components((#[trigger] out@[i])@).len()
        == components(layout@).len() + 1 && is_under(out@[i]@, layout@) by {
        assert(roots[i] == out@[i]@);
    }
}

/// What is printed of a download tells the dataset, the numbers, and each failure with its reason.
pub proof fn lemma_download_is_printed(out: SyncOutput, i: int)
    ensures
        out.lines().contains("download "@ + out.exchange@ + " "@ + out.asset@),
        out.lines().contains("remote: "@ + decimal(out.remote_total as nat)),
        out.lines().contains("downloaded: "@ + decimal(out.downloaded_total as nat)),
        out.lines().contains("skipped: "@ + decimal(out.skipped_total as nat)),
        out.lines().contains("failed: "@ + decimal(out.failed_total as nat)),
        0 <= i < out.failed@.len() ==> out.lines().contains(
            "  "@ + out.failed@[i].key@ + ": "@ + out.failed@[i].error@,
        ),
        out.lines().len() == 8 + (if out.failed@.len() > 0 {
            1 + out.failed@.len()
        } else {
            0
        }),
{
    let lines = out.lines();
    assert(lines[0] == "download "@ + out.exchange@ + " "@ + out.asset@);
    assert(lines[4] == "remote: "@ + decimal(out.remote_total as nat));
    assert(lines[5] == "downloaded: "@ + decimal(out.downloaded_total as nat));
    assert(lines[6] == "skipped: "@ + decimal(out.skipped_total as nat));
    assert(lines[7] == "failed: "@ + decimal(out.failed_total as nat));
    if 0 <= i < out.failed@.len() {
        assert(failure_lines(out.failed@)[i] == "  "@ + out.failed@[i].key@ + ": "@
            + out.failed@[i].error@);
        assert(lines[9 + i] == failure_lines(out.failed@)[i]);
    }
}

/// What is printed of a reset tells how many snapshots were removed, and each directory.
pub proof fn lemma_reset_is_printed(out: ResetOutput, i: int)
    ensures
        out.lines().contains("removed snapshots: "@ + decimal(out.snapshot_total as nat)),
        0 <= i < out.removed_roots@.len() ==> out.lines().contains("  "@ + out.removed_roots@[i]@),
{
    let lines = out.lines();
    assert(lines[2] == "removed snapshots: "@ + decimal(out.snapshot_total as nat));
    if 0 <= i < out.removed_roots@.len() {
        assert(set_in(out.removed_roots@)[i] == "  "@ + out.removed_roots@[i]@);
        assert(lines[4 + i] == set_in(out.removed_roots@)[i]);
    }
}

} // verus!
