//! Carrying out a plan.

use crate::api::{http_error, lemma_failures_worth_a_retry};
use crate::error::{failure, ErrorView, TickError};
use crate::layout::Layout;
use crate::order::{lemma_sorted_keys, sort, sorted_from, Ranked};
use crate::path::{components, same_path};
use crate::planner::{missing, plan_keys, LocalSnapshotState, SnapshotPlan, SyncPlan};
use crate::staging::{
    lemma_walk_puts_content_in_place, walks, Stage, StageAction, StageReport, StagedFile,
    StagedSource, World,
};
use crate::text::{concat2, is_before, texts};
use vstd::arithmetic::power2::{lemma2_to64, lemma_pow2_unfold, pow2};
use vstd::multiset::Multiset;
use vstd::prelude::*;

verus! {

/// The layout under `root`.
pub fn layout_for_root(root: String) -> (out: Layout)
    ensures
        out@ == root@,
{
    Layout::new(root)
}

// ---------------------------------------------------------------------------
// One sync at a time
// ---------------------------------------------------------------------------

/// The locks that this process holds.
#[derive(Debug)]
pub struct LockTable {
    held: Vec<String>,
}

/// The components of paths.
pub open spec fn all_components(v: Seq<String>) -> Seq<Seq<Seq<char>>> {
    v.map_values(|path: String| components(path@))
}

/// The components of the files whose locks are held: paths with the same components are one lock.
impl View for LockTable {
    type V = Set<Seq<Seq<char>>>;

    closed spec fn view(&self) -> Set<Seq<Seq<char>>> {
        all_components(self.held@).to_set()
    }
}

impl LockTable {
    /// Whether no lock is listed twice.
    pub closed spec fn valid(self) -> bool {
        all_components(self.held@).no_duplicates()
    }

    /// No locks.
    pub fn new() -> (out: LockTable)
        ensures
            out.valid(),
            out@ == Set::<Seq<Seq<char>>>::empty(),
    {
        let held: Vec<String> = Vec::new();
        assert(all_components(held@).to_set() =~= Set::<Seq<Seq<char>>>::empty());
        LockTable { held }
    }

    /// The place of a lock in the list.
    fn position(&self, path: &str) -> (out: Option<usize>)
        ensures
            out is Some <==> self@.contains(components(path@)),
            out matches Some(i) ==> i < self.held.len() && components(self.held@[i as int]@)
                == components(path@),
    {
        let ghost all = all_components(self.held@);
        for i in 0..self.held.len()
            invariant
                all == all_components(self.held@),
                forall|j: int| 0 <= j < i ==> all[j] != components(path@),
        {
            assert(all[i as int] == components(self.held@[i as int]@));
            if same_path(self.held[i].as_str(), path) {
                assert(all.contains(components(path@)));
                return Some(i);
            }
        }
        assert(!all.contains(components(path@)));
        None
    }

    /// Takes a lock, unless this process holds it already.
    pub fn acquire(&mut self, path: &str) -> (out: Result<(), TickError>)
        requires
            old(self).valid(),
        ensures
            final(self).valid(),
            final(self)@ == old(self)@.insert(components(path@)),
            out is Ok <==> !old(self)@.contains(components(path@)),
            out is Err ==> failure(out) == Some(ErrorView::LockHeld(path@)),
    {
        if self.position(path).is_some() {
            assert(self@.insert(components(path@)) =~= self@);
            return Err(TickError::LockHeld(path.to_owned()));
        }
        let ghost before = all_components(self.held@);
        self.held.push(path.to_owned());
        proof {
            let after = all_components(self.held@);
            assert(after =~= before.push(components(path@)));
            assert(!before.contains(components(path@)));
            before.lemma_push_to_set_commute(components(path@));
            assert forall|i: int, j: int| 0 <= i < after.len() && 0 <= j < after.len() && i
                != j implies after[i] != after[j] by {
                if i < before.len() {
                    assert(before.contains(before[i]));
                }
                if j < before.len() {
                    assert(before.contains(before[j]));
                }
            }
        }
        Ok(())
    }

    /// Gives a lock back.
    pub fn release(&mut self, path: &str)
        requires
            old(self).valid(),
        ensures
            final(self).valid(),
            final(self)@ == old(self)@.remove(components(path@)),
    {
        match self.position(path) {
            Some(i) => {
                let ghost before = all_components(self.held@);
                self.held.remove(i);
                proof {
                    let after = all_components(self.held@);
                    assert(after =~= before.remove(i as int));
                    assert forall|x: Seq<Seq<char>>| after.contains(x) <==> before.contains(x) && x
                        != components(path@) by {
                        if after.contains(x) {
                            let k = choose|k: int| 0 <= k < after.len() && after[k] == x;
                            let m = if k < i { k } else { k + 1 };
                            assert(before[m] == x);
                            assert(before[i as int] == components(path@));
                        }
                        if before.contains(x) && x != components(path@) {
                            let m = choose|m: int| 0 <= m < before.len() && before[m] == x;
                            let k = if m < i { m } else { m - 1 };
                            assert(after[k] == x);
                        }
                    }
                    assert(after.to_set() =~= before.to_set().remove(components(path@)));
                    assert forall|a: int, b: int| 0 <= a < after.len() && 0 <= b < after.len() && a
                        != b implies after[a] != after[b] by {
                        let c = if a < i { a } else { a + 1 };
                        let d = if b < i { b } else { b + 1 };
                        assert(before[c] != before[d]);
                    }
                }
            },
            None => {
                assert(self@.remove(components(path@)) =~= self@);
            },
        }
    }

    /// What comes of a lock that was taken here, once its file was opened and locked or not. A lock
    /// that could not be had is given back.
    pub fn settle(&mut self, path: &str, opened: bool, locked: bool) -> (out: Result<(), TickError>)
        requires
            old(self).valid(),
        ensures
            final(self).valid(),
            opened && locked ==> out is Ok && final(self)@ == old(self)@,
            !(opened && locked) ==> final(self)@ == old(self)@.remove(components(path@)),
            !opened ==> failure(out) == Some(ErrorView::Other("failed to open "@ + path@)),
            opened && !locked ==> failure(out) == Some(ErrorView::LockHeld(path@)),
    {
        if !opened {
            self.release(path);
            return Err(TickError::Other(concat2("failed to open ", path)));
        }
        if !locked {
            self.release(path);
            return Err(TickError::LockHeld(path.to_owned()));
        }
        Ok(())
    }
}

/// A lock that is held is refused to a second taker, however the path is written. Once it is given
/// back, everything is as before it was taken.
pub proof fn lemma_lock_is_exclusive(
    held: Set<Seq<Seq<char>>>,
    path: Seq<char>,
    again: Seq<char>,
)
    requires
        !held.contains(components(path)),
        components(again) == components(path),
    ensures
        held.insert(components(path)).contains(components(again)),
        held.insert(components(path)).remove(components(again)) == held,
{
    assert(held.insert(components(path)).remove(components(again)) =~= held);
}

/// A lock that was taken is refused to whoever comes next, however they write its path, until it is
/// given back. Then it can be had again. Locks of other files are not touched.
pub proof fn lemma_lock_is_given_once(
    first: &mut LockTable,
    second: &mut LockTable,
    back: &mut LockTable,
    third: &mut LockTable,
    path: &str,
    again: &str,
    other: Seq<Seq<char>>,
    taken: Result<(), TickError>,
    refused: Result<(), TickError>,
    given: Result<(), TickError>,
)
    requires
        components(again@) == components(path@),
        old(first).valid(),
        call_ensures(LockTable::acquire, (first, path), taken),
        *old(second) == *final(first),
        call_ensures(LockTable::acquire, (second, again), refused),
        *old(back) == *final(second),
        call_ensures(LockTable::release, (back, path), ()),
        *old(third) == *final(back),
        call_ensures(LockTable::acquire, (third, again), given),
        other != components(path@),
    ensures
        refused is Err && refused->Err_0 is LockHeld,
        given is Ok,
        taken is Ok <==> !old(first)@.contains(components(path@)),
        old(first)@.contains(other) <==> final(third)@.contains(other),
{
}

/// A lock whose file could not be opened or locked is not kept.
pub proof fn lemma_lock_that_failed_is_not_kept(
    table: &mut LockTable,
    path: &str,
    opened: bool,
    locked: bool,
    out: Result<(), TickError>,
)
    requires
        old(table).valid(),
        old(table)@.contains(components(path@)),
        call_ensures(LockTable::settle, (table, path, opened, locked), out),
    ensures
        out is Ok <==> opened && locked,
        final(table)@.contains(components(path@)) <==> opened && locked,
        opened && !locked ==> out->Err_0 is LockHeld,
{
}

// ---------------------------------------------------------------------------
// Attempts
// ---------------------------------------------------------------------------

/// How often a failed download is tried again.
pub const MAX_RETRIES: usize = 5;

/// The pause before a retry, in milliseconds: half a second, then twice as long each time.
pub open spec fn retry_delay(attempt: nat) -> nat
    decreases attempt,
{
    if attempt == 0 {
        500
    } else {
        2 * retry_delay((attempt - 1) as nat)
    }
}

/// The attempts at one download.
#[derive(Debug)]
pub struct Retry {
    /// How many retries were made.
    pub attempt: usize,
}

impl Retry {
    /// Whether not more retries were made than are allowed.
    pub open spec fn valid(self) -> bool {
        self.attempt <= MAX_RETRIES
    }

    /// No retries so far.
    pub fn new() -> (out: Retry)
        ensures
            out.valid(),
            out.attempt == 0,
    {
        Retry { attempt: 0 }
    }

    /// The pause before the next retry, or the error where there is none: it is not worth a retry,
    /// or all retries were made.
    pub fn after_failure(&mut self, error: TickError) -> (out: Result<u64, TickError>)
        requires
            old(self).valid(),
        ensures
            final(self).valid(),
            (error matches TickError::Request { retryable: true, .. }) && old(self).attempt
                < MAX_RETRIES ==> {
                &&& out matches Ok(pause) && pause == retry_delay(old(self).attempt as nat)
                &&& final(self).attempt == old(self).attempt + 1
            },
            !((error matches TickError::Request { retryable: true, .. }) && old(self).attempt
                < MAX_RETRIES) ==> {
                &&& out == Err::<u64, TickError>(error)
                &&& final(self).attempt == old(self).attempt
            },
    {
        if error.retryable() && self.attempt < MAX_RETRIES {
            proof {
                reveal_with_fuel(retry_delay, 5);
            }
            let pause: u64 = match self.attempt {
                0 => 500,
                1 => 1000,
                2 => 2000,
                3 => 4000,
                _ => 8000,
            };
            self.attempt += 1;
            Ok(pause)
        } else {
            Err(error)
        }
    }
}

/// A failed download is tried again up to five times. The pause before the first retry is half a
/// second, and each pause is twice the one before.
pub proof fn lemma_pauses_double(attempt: nat)
    ensures
        MAX_RETRIES == 5,
        retry_delay(attempt) == 500 * pow2(attempt),
        retry_delay(attempt + 1) == 2 * retry_delay(attempt),
    decreases attempt,
{
    if attempt == 0 {
        lemma2_to64();
    } else {
        lemma_pauses_double((attempt - 1) as nat);
        lemma_pow2_unfold(attempt);
    }
}

/// A download that failed is tried again if and only if the failure may pass and not five retries were
/// made. Then there is a pause, of half a second at first and twice as long each time. Else the error
/// is the end of it.
pub proof fn lemma_failed_download_is_retried(
    retry: &mut Retry,
    error: TickError,
    out: Result<u64, TickError>,
)
    requires
        call_ensures(Retry::after_failure, (retry, error), out),
    ensures
        ({
            let passes = error is Request && error->retryable;
            let n = old(retry).attempt;
            &&& passes && n < 5 ==> out is Ok && out->Ok_0 == 500 * pow2(n as nat) && final(retry).attempt == n + 1
            &&& !passes || n >= 5 ==> out == Err::<u64, TickError>(error) && final(retry).attempt
                == n
        }),
{
    lemma_pauses_double(old(retry).attempt as nat);
}

/// A download that the server answered with a status of 500 to 599, or with 429, is tried again, as
/// long as not five retries were made. With any other status it has failed at once.
pub proof fn lemma_what_is_tried_again(
    status: u16,
    body: &str,
    context: &str,
    error: TickError,
    retry: &mut Retry,
    out: Result<u64, TickError>,
)
    requires
        call_ensures(http_error, (status, body, context), error),
        call_ensures(Retry::after_failure, (retry, error), out),
    ensures
        out is Ok <==> (status == 429 || 500 <= status <= 599) && old(retry).attempt < 5,
{
    lemma_failures_worth_a_retry(status, body, context, error);
    lemma_failed_download_is_retried(retry, error, out);
}

/// A snapshot that is fetched comes to its place: a walk through the stages of its file that comes to
/// the end has put there what the server holds under its key, and left nothing beside it.
pub proof fn lemma_fetched_snapshot_is_in_place(
    plan: SnapshotPlan,
    file: StagedFile,
    stages: Seq<Stage>,
    actions: Seq<StageAction>,
    reports: Seq<StageReport>,
    before: World,
    served: Map<Seq<char>, Seq<u8>>,
)
    requires
        call_ensures(staged_snapshot, (&plan,), file),
        plan.local_path@ != plan.temp_path@,
        walks(file, stages, actions, reports),
        stages.last() == Stage::Done,
    ensures
        ({
            let now = before.after_all(actions, served, actions.len());
            &&& now.files.dom().contains(plan.local_path@)
            &&& now.files[plan.local_path@] == served[plan.key@]
            &&& now.safe.contains(plan.local_path@)
            &&& !now.files.dom().contains(plan.temp_path@)
        }),
{
    lemma_walk_puts_content_in_place(
        file,
        stages,
        actions,
        reports,
        before,
        served,
        actions.len(),
    );
}

/// The file in which a planned snapshot is stored, as it is fetched.
pub fn staged_snapshot(plan: &SnapshotPlan) -> (out: StagedFile)
    ensures
        out.local_path@ == plan.local_path@,
        out.temp_path@ == plan.temp_path@,
        out.source matches StagedSource::Fetch { key, present } && key@ == plan.key@ && present == (
        plan.state == LocalSnapshotState::Present),
{
    StagedFile {
        local_path: plan.local_path.clone(),
        temp_path: plan.temp_path.clone(),
        source: StagedSource::Fetch {
            key: plan.key.clone(),
            present: plan.state == LocalSnapshotState::Present,
        },
    }
}

// ---------------------------------------------------------------------------
// Results
// ---------------------------------------------------------------------------

/// A snapshot that could not be fetched.
#[derive(Debug, PartialEq, Eq)]
pub struct FailedDownload {
    pub key: String,
    pub error: String,
}

impl Clone for FailedDownload {
    fn clone(&self) -> (out: FailedDownload)
        ensures
            out == *self,
    {
        FailedDownload { key: self.key.clone(), error: self.error.clone() }
    }
}

impl Ranked for FailedDownload {
    open spec fn rank(&self) -> (int, Seq<char>) {
        (0, self.key@)
    }

    fn ranks_before(&self, other: &FailedDownload) -> (res: bool) {
        is_before(self.key.as_str(), other.key.as_str())
    }
}

/// What came of carrying out a plan.
#[derive(Debug)]
pub struct SyncExecution {
    pub downloaded_keys: Vec<String>,
    pub failed: Vec<FailedDownload>,
}

/// What happened to one snapshot.
#[derive(Debug, PartialEq, Eq)]
pub enum SyncProgressEvent {
    Started { key: String, total_bytes: Option<u64> },
    Progress { key: String, downloaded_bytes: u64, total_bytes: Option<u64> },
    Downloaded { key: String, total_bytes: u64 },
    Failed { key: String, error: String },
}

/// How the work on one snapshot ended.
#[derive(Debug)]
pub enum DownloadOutcome {
    /// It was fetched.
    Downloaded { key: String, total_bytes: u64 },
    /// It could not be fetched.
    Failed(FailedDownload),
    /// The task that worked on it was lost.
    Lost(String),
}

/// The key under which the end of the work on a snapshot is noted.
pub open spec fn noted_key(outcome: DownloadOutcome) -> Seq<char> {
    match outcome {
        DownloadOutcome::Downloaded { key, .. } => key@,
        DownloadOutcome::Failed(failed) => failed.key@,
        DownloadOutcome::Lost(_) => "<task>"@,
    }
}

/// The keys under which the ends of the work on snapshots are noted.
pub open spec fn noted_keys(outcomes: Seq<DownloadOutcome>) -> Seq<Seq<char>> {
    outcomes.map_values(|outcome: DownloadOutcome| noted_key(outcome))
}

/// The keys of the snapshots that could not be fetched.
pub open spec fn failed_keys(v: Seq<FailedDownload>) -> Seq<Seq<char>> {
    v.map_values(|failed: FailedDownload| failed.key@)
}

/// How the work on a planned snapshot ended, from the bytes that were fetched or the error. It bears
/// the key of the snapshot.
pub fn download_outcome(
    snapshot: &SnapshotPlan,
    result: Result<u64, TickError>,
) -> (out: DownloadOutcome)
    ensures
        noted_key(out) == snapshot.key@,
        match result {
            Ok(bytes) => out matches DownloadOutcome::Downloaded { key, total_bytes } && key@
                == snapshot.key@ && total_bytes == bytes,
            Err(error) => out matches DownloadOutcome::Failed(failed) && failed.key@
                == snapshot.key@ && failed.error@ == error@.text(),
        },
{
    let key = snapshot.key.clone();
    match result {
        Ok(total_bytes) => DownloadOutcome::Downloaded { key, total_bytes },
        Err(error) => DownloadOutcome::Failed(FailedDownload { key, error: error.text() }),
    }
}

/// What a list of results becomes when one more snapshot is done: its key is noted where it was
/// fetched, else the failure.
pub open spec fn recorded(
    before: SyncExecution,
    outcome: DownloadOutcome,
    after: SyncExecution,
) -> bool {
    match outcome {
        DownloadOutcome::Downloaded { key, .. } => {
            &&& after.downloaded_keys@ == before.downloaded_keys@.push(key)
            &&& after.failed@ == before.failed@
        },
        DownloadOutcome::Failed(failed) => {
            &&& after.downloaded_keys@ == before.downloaded_keys@
            &&& after.failed@ == before.failed@.push(failed)
        },
        DownloadOutcome::Lost(error) => {
            &&& after.downloaded_keys@ == before.downloaded_keys@
            &&& after.failed@.len() == before.failed@.len() + 1
            &&& after.failed@.drop_last() == before.failed@
            &&& after.failed@.last().key@ == "<task>"@
            &&& after.failed@.last().error@ == error@
        },
    }
}

/// What is told of a snapshot that is done.
pub open spec fn told(outcome: DownloadOutcome, event: SyncProgressEvent) -> bool {
    match outcome {
        DownloadOutcome::Downloaded { key, total_bytes } => event == (
        SyncProgressEvent::Downloaded { key, total_bytes }),
        DownloadOutcome::Failed(failed) => event == (SyncProgressEvent::Failed {
            key: failed.key,
            error: failed.error,
        }),
        DownloadOutcome::Lost(error) => event matches SyncProgressEvent::Failed {
            key,
            error: reason,
        } && key@ == "<task>"@ && reason@ == error@,
    }
}

/// Whether `after` holds the results of `before`, ordered by key.
pub open spec fn finished(before: SyncExecution, after: SyncExecution) -> bool {
    &&& sorted_from(after.downloaded_keys@, before.downloaded_keys@)
    &&& sorted_from(after.failed@, before.failed@)
}

impl SyncExecution {
    /// The number of snapshots that are done.
    pub open spec fn done(self) -> nat {
        self.downloaded_keys@.len() + self.failed@.len()
    }

    /// The keys of the snapshots that are done, fetched and failed, each as often as it was noted.
    pub open spec fn keys(self) -> Multiset<Seq<char>> {
        texts(self.downloaded_keys@).to_multiset().add(failed_keys(self.failed@).to_multiset())
    }

    /// Nothing done so far.
    pub fn new() -> (out: SyncExecution)
        ensures
            out.downloaded_keys@.len() == 0,
            out.failed@.len() == 0,
            out.keys() == Multiset::<Seq<char>>::empty(),
    {
        let out = SyncExecution { downloaded_keys: Vec::new(), failed: Vec::new() };
        proof {
            lemma_no_keys(out);
        }
        out
    }

    /// The number of snapshots that were fetched.
    pub fn downloaded_total(&self) -> (out: usize)
        ensures
            out == self.downloaded_keys@.len(),
    {
        self.downloaded_keys.len()
    }

    /// The number of snapshots that could not be fetched.
    pub fn failed_total(&self) -> (out: usize)
        ensures
            out == self.failed@.len(),
    {
        self.failed.len()
    }

    /// Notes how the work on one snapshot ended. The event tells it to whoever watches.
    pub fn record(&mut self, outcome: DownloadOutcome) -> (event: SyncProgressEvent)
        ensures
            recorded(*old(self), outcome, *final(self)),
            told(outcome, event),
            final(self).done() == old(self).done() + 1,
            final(self).keys() == old(self).keys().insert(noted_key(outcome)),
    {
        let ghost noted = outcome;
        let event = match outcome {
            DownloadOutcome::Downloaded { key, total_bytes } => {
                self.downloaded_keys.push(key.clone());
                SyncProgressEvent::Downloaded { key, total_bytes }
            },
            DownloadOutcome::Failed(failed) => {
                let event = SyncProgressEvent::Failed {
                    key: failed.key.clone(),
                    error: failed.error.clone(),
                };
                self.failed.push(failed);
                event
            },
            DownloadOutcome::Lost(error) => {
                let failed = FailedDownload { key: "<task>".to_owned(), error };
                let event = SyncProgressEvent::Failed {
                    key: failed.key.clone(),
                    error: failed.error.clone(),
                };
                self.failed.push(failed);
                assert(self.failed@.drop_last() =~= old(self).failed@);
                event
            },
        };
        proof {
            lemma_key_is_noted(*old(self), noted, *self);
        }
        event
    }

    /// The result, ordered by key.
    pub fn finish(self) -> (out: SyncExecution)
        ensures
            finished(self, out),
            out.done() == self.done(),
            out.keys() == self.keys(),
    {
        let ghost before = self;
        let out = SyncExecution {
            downloaded_keys: sort(self.downloaded_keys),
            failed: sort(self.failed),
        };
        proof {
            lemma_order_keeps_keys(before, out);
        }
        out
    }
}

/// What came of a snapshot is noted and told: its key among those fetched, or its failure with the
/// reason, and nothing that was noted before is lost.
pub proof fn lemma_outcome_is_noted(
    execution: &mut SyncExecution,
    outcome: DownloadOutcome,
    event: SyncProgressEvent,
)
    requires
        call_ensures(SyncExecution::record, (execution, outcome), event),
    ensures
        outcome matches DownloadOutcome::Downloaded { key, total_bytes } ==> {
            &&& final(execution).downloaded_keys@.len() == old(execution).downloaded_keys@.len() + 1
            &&& final(execution).downloaded_keys@.last()@ == key@
            &&& final(execution).downloaded_keys@.drop_last() == old(execution).downloaded_keys@
            &&& final(execution).failed@ == old(execution).failed@
            &&& event matches SyncProgressEvent::Downloaded { key: told, total_bytes: bytes }
                && told@ == key@ && bytes == total_bytes
        },
        !(outcome is Downloaded) ==> {
            let last = final(execution).failed@.last();
            &&& final(execution).downloaded_keys@ == old(execution).downloaded_keys@
            &&& final(execution).failed@.len() == old(execution).failed@.len() + 1
            &&& final(execution).failed@.drop_last() == old(execution).failed@
            &&& outcome matches DownloadOutcome::Failed(failed) ==> last.key@ == failed.key@
                && last.error@ == failed.error@
            &&& outcome matches DownloadOutcome::Lost(error) ==> last.error@ == error@
            &&& event matches SyncProgressEvent::Failed { key, error } && key@ == last.key@
                && error@ == last.error@
        },
{
    let before = *old(execution);
    if let DownloadOutcome::Downloaded { key, total_bytes } = outcome {
        assert(before.downloaded_keys@.push(key).drop_last() =~= before.downloaded_keys@);
    }
    if let DownloadOutcome::Failed(failed) = outcome {
        assert(before.failed@.push(failed).drop_last() =~= before.failed@);
    }
}

/// What came of a planned snapshot bears its key: the bytes that were fetched, or the words of the
/// error.
pub proof fn lemma_outcome_bears_the_key(
    snapshot: SnapshotPlan,
    result: Result<u64, TickError>,
    out: DownloadOutcome,
)
    requires
        call_ensures(download_outcome, (&snapshot, result), out),
    ensures
        result matches Ok(bytes) ==> (out matches DownloadOutcome::Downloaded { key, total_bytes }
            && key@ == snapshot.key@ && total_bytes == bytes),
        result is Err ==> (out matches DownloadOutcome::Failed(failed) && failed.key@
            == snapshot.key@),
{
}

proof fn lemma_no_keys(execution: SyncExecution)
    requires
        execution.done() == 0,
    ensures
        execution.keys() == Multiset::<Seq<char>>::empty(),
{
    broadcast use vstd::seq_lib::group_to_multiset_ensures;

    let downloaded = texts(execution.downloaded_keys@);
    let failed = failed_keys(execution.failed@);
    assert forall|key: Seq<char>| #[trigger] execution.keys().count(key) == 0 by {
        assert(!downloaded.contains(key));
        assert(!failed.contains(key));
    }
    assert(execution.keys() =~= Multiset::<Seq<char>>::empty());
}

proof fn lemma_key_is_noted(before: SyncExecution, outcome: DownloadOutcome, after: SyncExecution)
    requires
        recorded(before, outcome, after),
    ensures
        after.keys() == before.keys().insert(noted_key(outcome)),
{
    broadcast use vstd::seq_lib::group_to_multiset_ensures;

    let key = noted_key(outcome);
    let downloaded = texts(before.downloaded_keys@);
    let failed = failed_keys(before.failed@);
    if outcome is Downloaded {
        assert(texts(after.downloaded_keys@) =~= downloaded.push(key));
    } else {
        assert(after.failed@ =~= before.failed@.push(after.failed@.last()));
        assert(failed_keys(after.failed@) =~= failed.push(key));
    }
    assert(after.keys() =~= before.keys().insert(key));
}

proof fn lemma_order_keeps_keys(before: SyncExecution, after: SyncExecution)
    requires
        finished(before, after),
    ensures
        after.keys() == before.keys(),
{
    lemma_sorted_keys(
        after.downloaded_keys@,
        texts(after.downloaded_keys@),
        before.downloaded_keys@,
        texts(before.downloaded_keys@),
    );
    lemma_sorted_keys(
        after.failed@,
        failed_keys(after.failed@),
        before.failed@,
        failed_keys(before.failed@),
    );
}

/// A plan that is being carried out.
#[derive(Debug)]
pub struct SyncRun {
    /// The snapshots that are to be fetched.
    pub missing: Vec<SnapshotPlan>,
    /// What came of them so far.
    pub execution: SyncExecution,
}

impl SyncRun {
    /// Whether not more snapshots are done than are to be fetched.
    pub open spec fn valid(self) -> bool {
        self.execution.done() <= self.missing@.len()
    }

    /// No snapshot done so far. Those that are stored are not fetched again.
    pub fn new(plan: &SyncPlan) -> (out: SyncRun)
        ensures
            out.valid(),
            out.missing@ == missing(plan.snapshots@),
            out.execution.done() == 0,
            out.execution.keys() == Multiset::<Seq<char>>::empty(),
    {
        SyncRun { missing: plan.missing_snapshots(), execution: SyncExecution::new() }
    }

    /// Whether all snapshots are done.
    pub fn is_done(&self) -> (out: bool)
        requires
            self.valid(),
        ensures
            out == (self.execution.done() == self.missing@.len()),
    {
        self.missing.len() - self.execution.downloaded_total() == self.execution.failed_total()
    }

    /// Notes how the work on one snapshot ended. The event tells it to whoever watches.
    pub fn record(&mut self, outcome: DownloadOutcome) -> (event: SyncProgressEvent)
        requires
            old(self).valid(),
            old(self).execution.done() < old(self).missing@.len(),
        ensures
            final(self).valid(),
            final(self).missing@ == old(self).missing@,
            recorded(old(self).execution, outcome, final(self).execution),
            told(outcome, event),
            final(self).execution.done() == old(self).execution.done() + 1,
            final(self).execution.keys() == old(self).execution.keys().insert(noted_key(outcome)),
    {
        self.execution.record(outcome)
    }

    /// What came of the plan, once all snapshots are done: each is counted once, as fetched or as
    /// failed.
    pub fn finish(self) -> (out: SyncExecution)
        requires
            self.valid(),
            self.execution.done() == self.missing@.len(),
        ensures
            finished(self.execution, out),
            out.downloaded_keys@.len() + out.failed@.len() == self.missing@.len(),
            out.keys() == self.execution.keys(),
    {
        self.execution.finish()
    }
}

/// Whether `states` are the results before the first of these ends of work was noted, and after each.
pub open spec fn noted_in_turn(outcomes: Seq<DownloadOutcome>, states: Seq<SyncExecution>) -> bool {
    &&& states.len() == outcomes.len() + 1
    &&& states[0].done() == 0
    &&& forall|i: int|
        0 <= i < outcomes.len() ==> recorded(states[i], #[trigger] outcomes[i], states[i + 1])
}

/// Once the work on every missing snapshot of a plan has ended and was noted, those fetched and those
/// failed are together as many as were missing.
pub proof fn lemma_every_missing_snapshot_is_counted(
    plan: SyncPlan,
    outcomes: Seq<DownloadOutcome>,
    states: Seq<SyncExecution>,
    out: SyncExecution,
)
    requires
        outcomes.len() == missing(plan.snapshots@).len(),
        noted_in_turn(outcomes, states),
        finished(states.last(), out),
    ensures
        out.downloaded_keys@.len() + out.failed@.len() == missing(plan.snapshots@).len(),
{
    lemma_notes_add_up(outcomes, states, outcomes.len());
}

/// Once the work on every missing snapshot of a plan has ended and was noted under its key, the keys
/// of those fetched and those failed are together the keys that were missing, each as often. A task
/// that was lost is noted as `<task>`.
pub proof fn lemma_every_missing_key_is_noted(
    plan: SyncPlan,
    outcomes: Seq<DownloadOutcome>,
    states: Seq<SyncExecution>,
    out: SyncExecution,
)
    requires
        noted_keys(outcomes).to_multiset() == plan_keys(missing(plan.snapshots@)).to_multiset(),
        noted_in_turn(outcomes, states),
        finished(states.last(), out),
    ensures
        texts(out.downloaded_keys@).to_multiset().add(failed_keys(out.failed@).to_multiset())
            == plan_keys(missing(plan.snapshots@)).to_multiset(),
        out.downloaded_keys@.len() + out.failed@.len() == missing(plan.snapshots@).len(),
{
    broadcast use vstd::seq_lib::group_to_multiset_ensures;

    lemma_notes_add_up(outcomes, states, outcomes.len());
    assert(outcomes.take(outcomes.len() as int) =~= outcomes);
    lemma_order_keeps_keys(states.last(), out);
    assert(noted_keys(outcomes).len() == noted_keys(outcomes).to_multiset().len());
    assert(plan_keys(missing(plan.snapshots@)).len() == plan_keys(
        missing(plan.snapshots@),
    ).to_multiset().len());
}

proof fn lemma_notes_add_up(outcomes: Seq<DownloadOutcome>, states: Seq<SyncExecution>, n: nat)
    requires
        n <= outcomes.len(),
        noted_in_turn(outcomes, states),
    ensures
        states[n as int].done() == n,
        states[n as int].keys() == noted_keys(outcomes.take(n as int)).to_multiset(),
    decreases n,
{
    broadcast use vstd::seq_lib::group_to_multiset_ensures;

    let some = outcomes.take(n as int);
    if n == 0 {
        lemma_no_keys(states[0]);
        assert(noted_keys(some).to_multiset().len() == 0);
        assert forall|key: Seq<char>| #[trigger]
            noted_keys(some).to_multiset().count(key) == 0 by {
            assert(!noted_keys(some).contains(key));
        }
        assert(noted_keys(some).to_multiset() =~= Multiset::<Seq<char>>::empty());
    } else {
        let before = outcomes.take(n - 1);
        let last = outcomes[n - 1];
        lemma_notes_add_up(outcomes, states, (n - 1) as nat);
        assert(recorded(states[n - 1], last, states[n as int]));
        lemma_key_is_noted(states[n - 1], last, states[n as int]);
        assert(noted_keys(some) =~= noted_keys(before).push(noted_key(last)));
    }
}

} // verus!
