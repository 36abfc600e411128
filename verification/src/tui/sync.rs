//! Datasets, days and syncs in the browser.

use crate::api::SnapshotEntry;
use crate::calendar::{date_text, day_of_second, Date, Timestamp, EPOCH_DAY};
use crate::collections::lemma_filter_positions;
use crate::layout::LocalSnapshotEntry;
use crate::planner::{lemma_present_and_missing, missing, present, SyncPlan, TimeWindow};
use crate::text::{
    blank, concat2, concat4, copy_texts, decimal, decimal_of, lemma_trim, opt_text, same_text, trim,
    trimmed, white, without_last,
};
use crate::tui::browser::{lemma_listing_frame, RemoteListTui};
use crate::tui::coverage::{
    api_key_requirement_for_download, belongs_to, build_day_coverages, dataset_id, days_cover,
    first_incomplete, group_local_snapshot_keys, holds_key, key_requirement, keys_grouped,
    lemma_covered_day, lemma_first_incomplete_from, select_initial_day, stored_of, summaries_of,
    summarize_local_snapshots,
};
use crate::tui::model::{
    ActiveDaySync, ApiKeyPromptState, ApiKeyRequirement, DatasetView, DayCoverage, DaySyncUpdate,
    RemoteDatasetEntry, ViewMode,
};
use crate::tui::sizes::{format_byte_progress, progress_text};
use vstd::prelude::*;

verus! {

// ---------------------------------------------------------------------------
// Opening a dataset
// ---------------------------------------------------------------------------

/// The first position, from `i` on, of a day.
pub open spec fn day_position_from(days: Seq<DayCoverage>, date: Date, i: int) -> Option<int>
    decreases days.len() - i,
{
    if i < 0 || i >= days.len() {
        None
    } else if days[i].date == date {
        Some(i)
    } else {
        day_position_from(days, date, i + 1)
    }
}

/// The position of a day.
fn find_day(days: &Vec<DayCoverage>, date: Date) -> (out: Option<usize>)
    ensures
        day_position_from(days@, date, 0) == (match out {
            Some(i) => Some(i as int),
            None => None,
        }),
        out matches Some(i) ==> i < days@.len(),
{
    for i in 0..days.len()
        invariant
            day_position_from(days@, date, 0) == day_position_from(days@, date, i as int),
    {
        if days[i].date == date {
            return Some(i);
        }
    }
    None
}

/// The stored keys of a dataset, where there are any.
pub open spec fn stored_keys(app: RemoteListTui, dataset: Seq<char>) -> Seq<String> {
    if app.local_keys@.dom().contains(dataset) {
        app.local_keys@[dataset]@
    } else {
        seq![]
    }
}

/// Whether a view shows the days of a dataset with what is on the server and what is stored.
pub open spec fn shows_days(
    view: DatasetView,
    dataset: RemoteDatasetEntry,
    remote: Seq<SnapshotEntry>,
    local: Seq<String>,
) -> bool {
    &&& view.dataset@ == dataset@
    &&& days_cover(
        view.days@,
        remote,
        local,
        day_of_second(dataset.start.secs as int),
        day_of_second(dataset.end.secs as int),
    )
}

impl RemoteListTui {
    /// The dataset that is shown day by day.
    pub fn dataset_view(&self) -> (out: Option<&DatasetView>)
        ensures
            match self.mode {
                ViewMode::Dataset(view) => out == Some(&view),
                _ => out is None,
            },
    {
        match &self.mode {
            ViewMode::Dataset(view) => Some(view),
            _ => None,
        }
    }

    /// The days of a dataset.
    fn days_of(&self, dataset: &RemoteDatasetEntry, remote: Vec<SnapshotEntry>) -> (out: Vec<
        DayCoverage,
    >)
        requires
            self.sound(),
            dataset@.valid(),
        ensures
            days_cover(
                out@,
                remote@,
                stored_keys(*self, dataset.dataset@),
                day_of_second(dataset.start.secs as int),
                day_of_second(dataset.end.secs as int),
            ),
    {
        let local = match self.local_keys.get(dataset.dataset.as_str()) {
            Some(keys) => copy_texts(keys),
            None => {
                let none: Vec<String> = Vec::new();
                assert(none@ =~= seq![]);
                none
            },
        };
        build_day_coverages(remote, &local, dataset.start.date(), dataset.end.date())
    }

    /// Shows a dataset day by day, with the first day selected of which something is missing.
    pub fn open_selected_dataset(&mut self, dataset: RemoteDatasetEntry, remote: Vec<SnapshotEntry>)
        requires
            old(self).valid(),
            dataset@.valid(),
        ensures
            final(self).valid(),
            *final(self) == (RemoteListTui {
                mode: final(self).mode,
                status_message: None,
                ..*old(self)
            }),
            final(self).mode matches ViewMode::Dataset(view) && shows_days(
                view,
                dataset,
                remote@,
                stored_keys(*old(self), dataset.dataset@),
            ) && view.selected_day == first_incomplete(view.days@),
    {
        let days = self.days_of(&dataset, remote);
        let selected_day: usize = select_initial_day(&days);
        assert forall|i: int| 0 <= i < days@.len() implies (#[trigger] days@[i]).date.valid() by {}
        self.mode = ViewMode::Dataset(DatasetView { dataset, days, selected_day });
        self.status_message = None;
        proof {
            lemma_listing_frame(*self, *old(self));
        }
    }

    /// Shows a dataset day by day once more, with a day selected, or the first of which something is
    /// missing.
    pub fn refresh_dataset_view(
        &mut self,
        dataset: &RemoteDatasetEntry,
        remote: Vec<SnapshotEntry>,
        selected_date: Date,
    )
        requires
            old(self).valid(),
            dataset@.valid(),
        ensures
            final(self).valid(),
            *final(self) == (RemoteListTui { mode: final(self).mode, ..*old(self) }),
            final(self).mode matches ViewMode::Dataset(view) && shows_days(
                view,
                *dataset,
                remote@,
                stored_keys(*old(self), dataset.dataset@),
            ) && view.selected_day == (match day_position_from(view.days@, selected_date, 0) {
                Some(i) => i,
                None => first_incomplete(view.days@),
            }),
    {
        let days = self.days_of(dataset, remote);
        let selected_day: usize = match find_day(&days, selected_date) {
            Some(i) => i,
            None => select_initial_day(&days),
        };
        assert forall|i: int| 0 <= i < days@.len() implies (#[trigger] days@[i]).date.valid() by {}
        self.mode = ViewMode::Dataset(DatasetView { dataset: dataset.clone(), days, selected_day });
        proof {
            lemma_listing_frame(*self, *old(self));
        }
    }

    /// Takes note of what is stored.
    pub fn reload_local_state(&mut self, local_snapshots: Vec<LocalSnapshotEntry>)
        requires
            old(self).valid(),
        ensures
            final(self).valid(),
            *final(self) == (RemoteListTui {
                local_summaries: final(self).local_summaries,
                local_keys: final(self).local_keys,
                ..*old(self)
            }),
            summaries_of(final(self).local_summaries@, local_snapshots@),
            keys_grouped(final(self).local_keys@, local_snapshots@),
    {
        self.local_summaries = summarize_local_snapshots(&local_snapshots);
        self.local_keys = group_local_snapshot_keys(local_snapshots);
        proof {
            lemma_listing_frame(*self, *old(self));
        }
    }

    /// The first dataset of this name.
    pub fn find_dataset(&self, name: &str) -> (out: Option<RemoteDatasetEntry>)
        requires
            self.valid(),
        ensures
            out is Some <==> exists|i: int|
                0 <= i < self.datasets@.len() && (#[trigger] self.datasets@[i]).dataset@ == name@,
            out matches Some(entry) ==> entry@.valid() && exists|i: int|
                {
                    &&& 0 <= i < self.datasets@.len()
                    &&& entry@ == (#[trigger] self.datasets@[i])@
                    &&& entry.dataset@ == name@
                    &&& forall|j: int|
                        0 <= j < i ==> (#[trigger] self.datasets@[j]).dataset@ != name@
                },
    {
        for i in 0..self.datasets.len()
            invariant
                self.valid(),
                forall|j: int| 0 <= j < i ==> (#[trigger] self.datasets@[j]).dataset@ != name@,
        {
            if same_text(self.datasets[i].dataset.as_str(), name) {
                assert(self.datasets@[i as int]@.valid());
                return Some(self.datasets[i].clone());
            }
        }
        None
    }
}

// ---------------------------------------------------------------------------
// Starting a sync
// ---------------------------------------------------------------------------

/// A sync of one day that is to be planned.
#[derive(Debug)]
pub struct DaySyncRequest {
    pub dataset: RemoteDatasetEntry,
    pub date: Date,
    pub requested_range: TimeWindow,
}

impl RemoteListTui {
    /// The sync of the selected day that is to be planned. While one is under way, the status line
    /// tells so and there is none.
    pub fn request_day_sync(&mut self) -> (out: Option<DaySyncRequest>)
        requires
            old(self).valid(),
        ensures
            final(self).valid(),
            old(self).active_sync is Some ==> {
                &&& out is None
                &&& opt_text(final(self).status_message) == Some("sync already in progress"@)
                &&& *final(self) == (RemoteListTui {
                    status_message: final(self).status_message,
                    ..*old(self)
                })
            },
            old(self).active_sync is None ==> *final(self) == *old(self),
            old(self).active_sync is None ==> (match old(self).mode {
                ViewMode::Dataset(view) => if !view.has_day() {
                    out is None
                } else {
                    let day = view.days@[view.selected_day as int].date;
                    out matches Some(request) && {
                        &&& request.dataset@ == view.dataset@
                        &&& request.date == day
                        &&& request.date.valid()
                        &&& request.requested_range.valid()
                        &&& request.requested_range.from.nanos == 0
                        &&& request.requested_range.to.nanos == 0
                        &&& request.requested_range.from.secs == (day.days - EPOCH_DAY) * 86_400
                        &&& request.requested_range.to.secs == request.requested_range.from.secs
                            + 86_399
                    }
                },
                _ => out is None,
            }),
    {
        if self.active_sync.is_some() {
            self.status_message = Some("sync already in progress".to_owned());
            proof {
                lemma_listing_frame(*self, *old(self));
            }
            return None;
        }
        match &self.mode {
            ViewMode::Dataset(view) => {
                if view.days.len() == 0 {
                    return None;
                }
                let date = view.selected_coverage().date;
                let requested_range = TimeWindow {
                    from: date.first_second(),
                    to: date.last_second(),
                };
                Some(DaySyncRequest { dataset: view.dataset.clone(), date, requested_range })
            },
            _ => None,
        }
    }

    /// Shows that a planned sync of a day is under way, where none was before.
    pub fn sync_selected_day(&mut self, request: &DaySyncRequest, plan: &SyncPlan)
        requires
            old(self).valid(),
            old(self).active_sync is None,
            request.date.valid(),
        ensures
            final(self).valid(),
            *final(self) == (RemoteListTui {
                active_sync: final(self).active_sync,
                status_message: final(self).status_message,
                ..*old(self)
            }),
            opt_text(final(self).status_message) == Some(
                "syncing "@ + date_text(request.date.days as int),
            ),
            final(self).active_sync matches Some(sync) && {
                &&& sync.dataset@ == request.dataset.dataset@
                &&& sync.date == request.date
                &&& sync.remote_total == plan.snapshots@.len()
                &&& sync.local_present == present(plan.snapshots@).len()
                &&& sync.downloaded == 0
                &&& sync.failed == 0
                &&& sync.download_bytes == 0
                &&& sync.download_total_bytes is None
                &&& sync.deferred_update is None
            },
    {
        let day = request.date.text();
        self.active_sync = Some(
            ActiveDaySync {
                dataset: request.dataset.dataset.clone(),
                date: request.date,
                remote_total: plan.remote_total(),
                local_present: plan.present_total(),
                downloaded: 0,
                failed: 0,
                download_bytes: 0,
                download_total_bytes: None,
                deferred_update: None,
            },
        );
        self.status_message = Some(concat2("syncing ", day.as_str()));
        proof {
            lemma_listing_frame(*self, *old(self));
        }
    }
}

// ---------------------------------------------------------------------------
// Following a sync
// ---------------------------------------------------------------------------

/// What is said of a sync that ended.
pub open spec fn finished_text(downloaded: usize, failed: usize) -> Seq<char> {
    "synced "@ + decimal(downloaded as nat) + " snapshot(s), failed "@ + decimal(failed as nat)
}

/// What becomes of a sync when news of it come, and what is said when they end it. `seen` tells that
/// progress was met that was not shown yet: then the end waits for the next time.
pub open spec fn followed(
    sync: ActiveDaySync,
    seen: bool,
    news: Seq<DaySyncUpdate>,
    disconnected: bool,
) -> (ActiveDaySync, Option<Seq<char>>)
    decreases news.len(),
{
    if news.len() == 0 {
        (sync, if disconnected {
            Some("error: sync task disconnected"@)
        } else {
            None
        })
    } else {
        let rest = news.drop_first();
        match news[0] {
            DaySyncUpdate::Started { total_bytes } => followed(
                ActiveDaySync { download_bytes: 0, download_total_bytes: total_bytes, ..sync },
                true,
                rest,
                disconnected,
            ),
            DaySyncUpdate::Progress { downloaded_bytes, total_bytes } => followed(
                ActiveDaySync {
                    download_bytes: downloaded_bytes,
                    download_total_bytes: if total_bytes is Some {
                        total_bytes
                    } else {
                        sync.download_total_bytes
                    },
                    ..sync
                },
                true,
                rest,
                disconnected,
            ),
            DaySyncUpdate::Downloaded { total_bytes } => followed(
                ActiveDaySync {
                    downloaded: (sync.downloaded + 1) as usize,
                    download_bytes: total_bytes,
                    download_total_bytes: Some(total_bytes),
                    ..sync
                },
                true,
                rest,
                disconnected,
            ),
            DaySyncUpdate::Failed => followed(
                ActiveDaySync { failed: (sync.failed + 1) as usize, ..sync },
                true,
                rest,
                disconnected,
            ),
            DaySyncUpdate::Finished { downloaded, failed } => if seen {
                (ActiveDaySync { deferred_update: Some(news[0]), ..sync }, None)
            } else {
                (sync, Some(finished_text(downloaded, failed)))
            },
            DaySyncUpdate::Error(message) => if seen {
                (ActiveDaySync { deferred_update: Some(news[0]), ..sync }, None)
            } else {
                (sync, Some("error: "@ + message@))
            },
        }
    }
}

/// The news of a sync, that which waited first.
pub open spec fn all_news(sync: ActiveDaySync, news: Seq<DaySyncUpdate>) -> Seq<DaySyncUpdate> {
    match sync.deferred_update {
        Some(update) => seq![update] + news,
        None => news,
    }
}

/// What becomes of a sync when news of it come.
pub open spec fn after_news(sync: ActiveDaySync, news: Seq<DaySyncUpdate>, disconnected: bool) -> (
    ActiveDaySync,
    Option<Seq<char>>,
) {
    followed(
        ActiveDaySync { deferred_update: None, ..sync },
        false,
        all_news(sync, news),
        disconnected,
    )
}

/// What is said of a sync that is under way.
pub open spec fn syncing_text(sync: ActiveDaySync) -> Seq<char> {
    let progress = progress_text(sync.download_bytes as nat, sync.download_total_bytes);
    let head = "syncing "@ + date_text(sync.date.days as int) + " ("@ + decimal(
        (sync.local_present + sync.downloaded) as nat,
    ) + "/"@ + decimal(sync.remote_total as nat);
    if progress.len() == 0 {
        head + ")"@
    } else {
        head + ", "@ + progress + ")"@
    }
}

/// Progress is shown before the end: as long as there is progress that was not shown, news do not end
/// a sync, unless its task is gone.
pub proof fn lemma_progress_is_shown_first(
    sync: ActiveDaySync,
    seen: bool,
    news: Seq<DaySyncUpdate>,
)
    requires
        seen || (news.len() > 0 && !(news[0] is Finished) && !(news[0] is Error)),
    ensures
        followed(sync, seen, news, false).1 is None,
    decreases news.len(),
{
    if news.len() > 0 {
        let rest = news.drop_first();
        match news[0] {
            DaySyncUpdate::Started { total_bytes } => lemma_progress_is_shown_first(
                ActiveDaySync { download_bytes: 0, download_total_bytes: total_bytes, ..sync },
                true,
                rest,
            ),
            DaySyncUpdate::Progress { downloaded_bytes, total_bytes } =>
                lemma_progress_is_shown_first(
                ActiveDaySync {
                    download_bytes: downloaded_bytes,
                    download_total_bytes: if total_bytes is Some {
                        total_bytes
                    } else {
                        sync.download_total_bytes
                    },
                    ..sync
                },
                true,
                rest,
            ),
            DaySyncUpdate::Downloaded { total_bytes } => lemma_progress_is_shown_first(
                ActiveDaySync {
                    downloaded: (sync.downloaded + 1) as usize,
                    download_bytes: total_bytes,
                    download_total_bytes: Some(total_bytes),
                    ..sync
                },
                true,
                rest,
            ),
            DaySyncUpdate::Failed => lemma_progress_is_shown_first(
                ActiveDaySync { failed: (sync.failed + 1) as usize, ..sync },
                true,
                rest,
            ),
            _ => {},
        }
    }
}

/// An end that waited is told the next time, whatever else has come.
pub proof fn lemma_deferred_end_is_told(
    sync: ActiveDaySync,
    news: Seq<DaySyncUpdate>,
    disconnected: bool,
)
    requires
        sync.deferred_update matches Some(update) && (update is Finished || update is Error),
    ensures
        after_news(sync, news, disconnected).1 is Some,
{
    let all = all_news(sync, news);
    assert(all[0] == sync.deferred_update->0);
}

/// A sync that ended.
#[derive(Debug)]
pub struct FinishedSync {
    pub dataset: String,
    pub date: Date,
    pub status: String,
}

/// Takes note of news of a sync.
fn follow(sync: ActiveDaySync, news: Vec<DaySyncUpdate>, disconnected: bool) -> (out: (
    ActiveDaySync,
    Option<String>,
))
    requires
        sync.local_present + sync.downloaded + news@.len() + 1 <= usize::MAX,
        sync.failed + news@.len() + 1 <= usize::MAX,
    ensures
        ({
            let (next, end) = after_news(sync, news@, disconnected);
            &&& out.0 == next
            &&& opt_text(out.1) == end
        }),
        out.0.dataset == sync.dataset,
        out.0.date == sync.date,
        out.0.local_present == sync.local_present,
        out.0.downloaded <= sync.downloaded + news@.len() + 1,
{
    let mut state = sync;
    let mut all = news;
    let ghost list = all_news(sync, news@);
    match state.deferred_update.take() {
        Some(update) => {
            all.insert(0, update);
            assert(all@ =~= list);
        },
        None => {},
    }
    let ghost goal = followed(state, false, list, disconnected);
    assert(state == ActiveDaySync { deferred_update: None, ..sync });
    let mut seen = false;
    assert(list.skip(0) =~= list);
    for update in it: all
        invariant
            it.seq() == list,
            goal == followed(state, seen, list.skip(it.index() as int), disconnected),
            state.dataset == sync.dataset,
            state.date == sync.date,
            state.local_present == sync.local_present,
            state.downloaded <= sync.downloaded + it.index(),
            state.failed <= sync.failed + it.index(),
            list.len() <= news@.len() + 1,
            sync.local_present + sync.downloaded + news@.len() + 1 <= usize::MAX,
            sync.failed + news@.len() + 1 <= usize::MAX,
            goal == after_news(sync, news@, disconnected),
    {
        let ghost k = it.index() as int;
        assert(list[k] == update);
        assert(list.skip(k)[0] == update);
        assert(list.skip(k).drop_first() =~= list.skip(k + 1));
        match update {
            DaySyncUpdate::Started { total_bytes } => {
                state.download_bytes = 0;
                state.download_total_bytes = total_bytes;
                seen = true;
            },
            DaySyncUpdate::Progress { downloaded_bytes, total_bytes } => {
                state.download_bytes = downloaded_bytes;
                if total_bytes.is_some() {
                    state.download_total_bytes = total_bytes;
                }
                seen = true;
            },
            DaySyncUpdate::Downloaded { total_bytes } => {
                state.downloaded += 1;
                state.download_bytes = total_bytes;
                state.download_total_bytes = Some(total_bytes);
                seen = true;
            },
            DaySyncUpdate::Failed => {
                state.failed += 1;
                seen = true;
            },
            DaySyncUpdate::Finished { downloaded, failed } => {
                if seen {
                    state.deferred_update = Some(DaySyncUpdate::Finished { downloaded, failed });
                    return (state, None);
                }
                let a = decimal_of(downloaded as u64);
                let b = decimal_of(failed as u64);
                let status = concat4("synced ", a.as_str(), " snapshot(s), failed ", b.as_str());
                return (state, Some(status));
            },
            DaySyncUpdate::Error(message) => {
                if seen {
                    state.deferred_update = Some(DaySyncUpdate::Error(message));
                    return (state, None);
                }
                let status = concat2("error: ", message.as_str());
                return (state, Some(status));
            },
        }
    }
    assert(list.skip(list.len() as int).len() == 0);
    if disconnected {
        (state, Some("error: sync task disconnected".to_owned()))
    } else {
        (state, None)
    }
}

/// What is said of a sync that is under way.
fn syncing_status(sync: &ActiveDaySync) -> (out: String)
    requires
        sync.date.valid(),
        sync.local_present + sync.downloaded <= usize::MAX,
    ensures
        out@ == syncing_text(*sync),
{
    let progress = format_byte_progress(sync.download_bytes, sync.download_total_bytes);
    let day = sync.date.text();
    let reached = decimal_of((sync.local_present + sync.downloaded) as u64);
    let total = decimal_of(sync.remote_total as u64);
    let mut out = concat4("syncing ", day.as_str(), " (", reached.as_str());
    out.append("/");
    out.append(total.as_str());
    if progress.as_str().unicode_len() > 0 {
        out.append(", ");
        out.append(progress.as_str());
    }
    out.append(")");
    out
}

impl RemoteListTui {
    /// Takes note of news of the sync that is under way. While it goes on, the status line tells how
    /// far it is. When it ended, what is stored is to be read again and shown, and then the status.
    pub fn pump_sync_updates(&mut self, news: Vec<DaySyncUpdate>, disconnected: bool) -> (out: Option<
        FinishedSync,
    >)
        requires
            old(self).valid(),
            old(self).active_sync matches Some(sync) ==> sync.local_present + sync.downloaded
                + news@.len() + 1 <= usize::MAX && sync.failed + news@.len() + 1 <= usize::MAX,
        ensures
            final(self).valid(),
            *final(self) == (RemoteListTui {
                spinner_tick: final(self).spinner_tick,
                active_sync: final(self).active_sync,
                status_message: final(self).status_message,
                ..*old(self)
            }),
            final(self).spinner_tick == (if old(self).spinner_tick == usize::MAX {
                0
            } else {
                old(self).spinner_tick + 1
            }),
            match old(self).active_sync {
                None => {
                    &&& out is None
                    &&& final(self).active_sync is None
                    &&& final(self).status_message == old(self).status_message
                },
                Some(sync) => {
                    let (next, end) = after_news(sync, news@, disconnected);
                    match end {
                        None => {
                            &&& out is None
                            &&& final(self).active_sync == Some(next)
                            &&& opt_text(final(self).status_message) == Some(syncing_text(next))
                        },
                        Some(status) => {
                            &&& final(self).active_sync is None
                            &&& final(self).status_message == old(self).status_message
                            &&& out matches Some(finished) && finished.dataset@ == sync.dataset@
                                && finished.date == sync.date && finished.status@ == status
                        },
                    }
                },
            },
    {
        self.spinner_tick = self.spinner_tick.wrapping_add(1);
        let active = self.active_sync.take();
        let mut out = None;
        if let Some(sync) = active {
            let (next, end) = follow(sync, news, disconnected);
            match end {
                Some(status) => {
                    out = Some(FinishedSync { dataset: next.dataset, date: next.date, status });
                },
                None => {
                    let status = syncing_status(&next);
                    self.active_sync = Some(next);
                    self.status_message = Some(status);
                },
            }
        }
        proof {
            lemma_listing_frame(*self, *old(self));
        }
        out
    }
}

// ---------------------------------------------------------------------------
// Asking for an API key
// ---------------------------------------------------------------------------

impl RemoteListTui {
    /// Why an API key is needed to fetch what is missing of the selected day, where one is.
    pub open spec fn selected_requirement(self, today: int, has_api_key: bool) -> Option<
        ApiKeyRequirement,
    > {
        match self.mode {
            ViewMode::Dataset(view) => if view.has_day() {
                let day = view.days@[view.selected_day as int];
                key_requirement(
                    view.dataset.access,
                    day.date.days as int,
                    today,
                    has_api_key,
                    day.missing_keys@.len(),
                )
            } else {
                None
            },
            _ => None,
        }
    }

    /// Why an API key is needed to fetch what is missing of the selected day, where one is.
    pub fn api_key_requirement_for_selected_day(&self, today: Date, has_api_key: bool) -> (out: Option<
        ApiKeyRequirement,
    >)
        requires
            self.valid(),
            today.valid(),
        ensures
            out == self.selected_requirement(today.days as int, has_api_key),
            out matches Some(requirement) ==> requirement.valid(),
    {
        match &self.mode {
            ViewMode::Dataset(view) => {
                if view.days.len() == 0 {
                    return None;
                }
                let day = view.selected_coverage();
                api_key_requirement_for_download(
                    view.dataset.access,
                    day.date,
                    today,
                    has_api_key,
                    day.missing_keys.len(),
                )
            },
            _ => None,
        }
    }

    /// Asks for an API key, unless that is being done.
    pub fn open_api_key_prompt(&mut self, requirement: ApiKeyRequirement)
        requires
            old(self).valid(),
            requirement.valid(),
        ensures
            final(self).valid(),
            *final(self) == (RemoteListTui {
                api_key_prompt: final(self).api_key_prompt,
                ..*old(self)
            }),
            old(self).api_key_prompt is Some ==> final(self).api_key_prompt == old(
                self,
            ).api_key_prompt,
            old(self).api_key_prompt is None ==> (final(self).api_key_prompt matches Some(prompt)
                && prompt.input@.len() == 0 && prompt.error_message is None
                && prompt.access_message@ == requirement.words()),
    {
        if self.api_key_prompt.is_none() {
            self.api_key_prompt = Some(
                ApiKeyPromptState {
                    input: String::new(),
                    error_message: None,
                    access_message: requirement.message(),
                },
            );
        }
        proof {
            lemma_listing_frame(*self, *old(self));
        }
    }

    /// Asks no more.
    pub fn close_api_key_prompt(&mut self)
        requires
            old(self).valid(),
        ensures
            final(self).valid(),
            *final(self) == (RemoteListTui { api_key_prompt: None, ..*old(self) }),
    {
        self.api_key_prompt = None;
        proof {
            lemma_listing_frame(*self, *old(self));
        }
    }

    /// Puts a character at the end of the key that is typed.
    pub fn push_api_key_prompt_char(&mut self, c: char)
        requires
            old(self).valid(),
        ensures
            final(self).valid(),
            *final(self) == (RemoteListTui {
                api_key_prompt: final(self).api_key_prompt,
                ..*old(self)
            }),
            match old(self).api_key_prompt {
                None => final(self).api_key_prompt is None,
                Some(before) => final(self).api_key_prompt matches Some(prompt) && prompt.input@
                    == before.input@.push(c) && prompt.error_message is None
                    && prompt.access_message == before.access_message,
            },
    {
        if let Some(before) = self.api_key_prompt.take() {
            let mut input = before.input;
            input.push(c);
            self.api_key_prompt = Some(
                ApiKeyPromptState {
                    input,
                    error_message: None,
                    access_message: before.access_message,
                },
            );
        }
        proof {
            lemma_listing_frame(*self, *old(self));
        }
    }

    /// Takes the last character of the key that is typed away.
    pub fn pop_api_key_prompt_char(&mut self)
        requires
            old(self).valid(),
        ensures
            final(self).valid(),
            *final(self) == (RemoteListTui {
                api_key_prompt: final(self).api_key_prompt,
                ..*old(self)
            }),
            match old(self).api_key_prompt {
                None => final(self).api_key_prompt is None,
                Some(before) => final(self).api_key_prompt matches Some(prompt) && prompt.input@
                    == (if before.input@.len() > 0 {
                    before.input@.drop_last()
                } else {
                    before.input@
                }) && prompt.error_message is None && prompt.access_message
                    == before.access_message,
            },
    {
        if let Some(before) = self.api_key_prompt.take() {
            self.api_key_prompt = Some(
                ApiKeyPromptState {
                    input: without_last(before.input.as_str()),
                    error_message: None,
                    access_message: before.access_message,
                },
            );
        }
        proof {
            lemma_listing_frame(*self, *old(self));
        }
    }

    /// Shows what is wrong with the key that was typed.
    pub fn set_api_key_prompt_error(&mut self, message: String)
        requires
            old(self).valid(),
        ensures
            final(self).valid(),
            *final(self) == (RemoteListTui {
                api_key_prompt: final(self).api_key_prompt,
                ..*old(self)
            }),
            final(self).api_key_prompt == (match old(self).api_key_prompt {
                None => None,
                Some(before) => Some(
                    ApiKeyPromptState { error_message: Some(message), ..before },
                ),
            }),
    {
        if let Some(before) = self.api_key_prompt.take() {
            self.api_key_prompt = Some(
                ApiKeyPromptState {
                    input: before.input,
                    error_message: Some(message),
                    access_message: before.access_message,
                },
            );
        }
        proof {
            lemma_listing_frame(*self, *old(self));
        }
    }

    /// The key that was typed, without white space around it. One of white space alone is refused, and
    /// the prompt tells so.
    pub fn submit_api_key_prompt(&mut self) -> (out: Option<String>)
        requires
            old(self).valid(),
        ensures
            final(self).valid(),
            match old(self).api_key_prompt {
                None => out is None && *final(self) == *old(self),
                Some(before) => if blank(before.input@) {
                    &&& out is None
                    &&& *final(self) == (RemoteListTui {
                        api_key_prompt: final(self).api_key_prompt,
                        ..*old(self)
                    })
                    &&& final(self).api_key_prompt matches Some(prompt) && prompt.input
                        == before.input && prompt.access_message == before.access_message
                        && opt_text(prompt.error_message) == Some("API key cannot be empty"@)
                } else {
                    &&& opt_text(out) == Some(trim(before.input@))
                    &&& *final(self) == *old(self)
                },
            },
    {
        let key = match &self.api_key_prompt {
            None => {
                return None;
            },
            Some(prompt) => trimmed(prompt.input.as_str()),
        };
        if key.as_str().unicode_len() == 0 {
            self.set_api_key_prompt_error("API key cannot be empty".to_owned());
            return None;
        }
        Some(key)
    }
}

// ---------------------------------------------------------------------------
// What comes of news
// ---------------------------------------------------------------------------

/// Whether news end a sync.
pub open spec fn ends(update: DaySyncUpdate) -> bool {
    update is Finished || update is Error
}

proof fn lemma_followed_counts(sync: ActiveDaySync, seen: bool, news: Seq<DaySyncUpdate>, disconnected: bool)
    requires
        forall|i: int| 0 <= i < news.len() ==> !ends(#[trigger] news[i]),
        sync.downloaded + news.len() <= usize::MAX,
        sync.failed + news.len() <= usize::MAX,
    ensures
        ({
            let (next, end) = followed(sync, seen, news, disconnected);
            let good = |update: DaySyncUpdate| update is Downloaded;
            let bad = |update: DaySyncUpdate| update is Failed;
            &&& next.downloaded == sync.downloaded + news.filter(good).len()
            &&& next.failed == sync.failed + news.filter(bad).len()
            &&& next.dataset == sync.dataset && next.date == sync.date
            &&& next.remote_total == sync.remote_total && next.local_present == sync.local_present
            &&& next.deferred_update == sync.deferred_update
            &&& end == (if disconnected {
                Some("error: sync task disconnected"@)
            } else {
                None
            })
        }),
    decreases news.len(),
{
    let good = |update: DaySyncUpdate| update is Downloaded;
    let bad = |update: DaySyncUpdate| update is Failed;
    reveal(Seq::filter);
    if news.len() > 0 {
        let rest = news.drop_first();
        assert forall|i: int| 0 <= i < rest.len() implies !ends(#[trigger] rest[i]) by {
            assert(rest[i] == news[i + 1]);
        }
        assert(!ends(news[0]));
        lemma_filter_first(news, good);
        lemma_filter_first(news, bad);
        match news[0] {
            DaySyncUpdate::Started { total_bytes } => lemma_followed_counts(
                ActiveDaySync { download_bytes: 0, download_total_bytes: total_bytes, ..sync },
                true,
                rest,
                disconnected,
            ),
            DaySyncUpdate::Progress { downloaded_bytes, total_bytes } => lemma_followed_counts(
                ActiveDaySync {
                    download_bytes: downloaded_bytes,
                    download_total_bytes: if total_bytes is Some {
                        total_bytes
                    } else {
                        sync.download_total_bytes
                    },
                    ..sync
                },
                true,
                rest,
                disconnected,
            ),
            DaySyncUpdate::Downloaded { total_bytes } => lemma_followed_counts(
                ActiveDaySync {
                    downloaded: (sync.downloaded + 1) as usize,
                    download_bytes: total_bytes,
                    download_total_bytes: Some(total_bytes),
                    ..sync
                },
                true,
                rest,
                disconnected,
            ),
            DaySyncUpdate::Failed => lemma_followed_counts(
                ActiveDaySync { failed: (sync.failed + 1) as usize, ..sync },
                true,
                rest,
                disconnected,
            ),
            _ => {},
        }
    }
}

proof fn lemma_filter_first(s: Seq<DaySyncUpdate>, pred: spec_fn(DaySyncUpdate) -> bool)
    requires
        s.len() > 0,
    ensures
        s.filter(pred).len() == s.drop_first().filter(pred).len() + (if pred(s[0]) {
            1int
        } else {
            0int
        }),
    decreases s.len(),
{
    reveal(Seq::filter);
    if s.len() > 1 {
        lemma_filter_first(s.drop_last(), pred);
        assert(s.drop_first().drop_last() =~= s.drop_last().drop_first());
        assert(s.drop_first().last() == s.last());
        assert(s.drop_last()[0] == s[0]);
    } else {
        assert(s.drop_first() =~= seq![]);
        assert(s.drop_last() =~= seq![]);
    }
}

/// As long as news do not end a sync, it counts what they tell: each snapshot that was fetched, and
/// each that failed. What it is a sync of stays as it is. It ends only where its task is gone.
pub proof fn lemma_news_are_counted(sync: ActiveDaySync, news: Seq<DaySyncUpdate>, disconnected: bool)
    requires
        sync.deferred_update is None,
        forall|i: int| 0 <= i < news.len() ==> !ends(#[trigger] news[i]),
        sync.downloaded + news.len() <= usize::MAX,
        sync.failed + news.len() <= usize::MAX,
    ensures
        ({
            let (next, end) = after_news(sync, news, disconnected);
            &&& next.downloaded == sync.downloaded + news.filter(
                |update: DaySyncUpdate| update is Downloaded,
            ).len()
            &&& next.failed == sync.failed + news.filter(
                |update: DaySyncUpdate| update is Failed,
            ).len()
            &&& next.dataset == sync.dataset && next.date == sync.date
            &&& next.remote_total == sync.remote_total && next.local_present == sync.local_present
            &&& end is Some <==> disconnected
            &&& disconnected ==> end == Some("error: sync task disconnected"@)
        }),
{
    assert(ActiveDaySync { deferred_update: None, ..sync } == sync);
    lemma_followed_counts(sync, false, news, disconnected);
}

/// An end that comes alone is told at once, with the numbers or the words that it brings. One that
/// waited is told first, whatever has come since.
pub proof fn lemma_end_is_told(
    sync: ActiveDaySync,
    update: DaySyncUpdate,
    news: Seq<DaySyncUpdate>,
    disconnected: bool,
)
    requires
        sync.deferred_update == Some(update) || sync.deferred_update is None && news.len() > 0
            && news[0] == update,
    ensures
        update matches DaySyncUpdate::Finished { downloaded, failed } ==> after_news(
            sync,
            news,
            disconnected,
        ).1 == Some(
            "synced "@ + decimal(downloaded as nat) + " snapshot(s), failed "@ + decimal(
                failed as nat,
            ),
        ),
        update matches DaySyncUpdate::Error(message) ==> after_news(sync, news, disconnected).1
            == Some("error: "@ + message@),
{
    assert(all_news(sync, news)[0] == update);
}

/// How far the bytes of a snapshot are is what was told last: a start begins at nothing, progress tells
/// the number, and a snapshot that was fetched is there whole.
pub proof fn lemma_last_progress_is_shown(sync: ActiveDaySync, update: DaySyncUpdate)
    requires
        sync.deferred_update is None,
    ensures
        ({
            let next = after_news(sync, seq![update], false).0;
            &&& update matches DaySyncUpdate::Started { total_bytes } ==> next.download_bytes == 0
                && next.download_total_bytes == total_bytes
            &&& update matches DaySyncUpdate::Progress { downloaded_bytes, total_bytes } ==> {
                &&& next.download_bytes == downloaded_bytes
                &&& total_bytes is Some ==> next.download_total_bytes == total_bytes
                &&& total_bytes is None ==> next.download_total_bytes == sync.download_total_bytes
            }
            &&& update matches DaySyncUpdate::Downloaded { total_bytes } ==> next.download_bytes
                == total_bytes && next.download_total_bytes == Some(total_bytes)
            &&& update is Failed ==> next.download_bytes == sync.download_bytes
        }),
{
    assert(ActiveDaySync { deferred_update: None, ..sync } == sync);
    assert(seq![update].drop_first() =~= seq![]);
    reveal_with_fuel(followed, 3);
}

// ---------------------------------------------------------------------------
// What the browser does
// ---------------------------------------------------------------------------

/// A dataset that is opened is shown from the day on which it starts to the day on which it ends, each
/// day with its keys, and with the first day selected of which something is missing.
pub proof fn lemma_opened_dataset(
    app: &mut RemoteListTui,
    dataset: RemoteDatasetEntry,
    remote: Vec<SnapshotEntry>,
    first: Date,
    last: Date,
    i: int,
    key: Seq<char>,
)
    requires
        call_ensures(RemoteListTui::open_selected_dataset, (app, dataset, remote), ()),
        call_ensures(Timestamp::date, (&dataset.start,), first),
        call_ensures(Timestamp::date, (&dataset.end,), last),
        final(app).mode is Dataset ==> 0 <= i < final(app).mode->Dataset_0.days@.len(),
    ensures
        final(app).mode is Dataset,
        ({
            let view = final(app).mode->Dataset_0;
            let local = if old(app).local_keys@.dom().contains(dataset.dataset@) {
                old(app).local_keys@[dataset.dataset@]@
            } else {
                seq![]
            };
            &&& view.dataset@ == dataset@
            &&& view.days@.len() == last.days - first.days + 1
            &&& view.days@[i].date.days == first.days + i
            &&& holds_key(view.days@[i], first.days + i, remote@, local, key)
            &&& i < view.selected_day ==> view.days@[i].missing_keys@.len() == 0
            &&& view.days@[i].missing_keys@.len() > 0
                ==> view.days@[view.selected_day as int].missing_keys@.len() > 0
        }),
        final(app).search == old(app).search && final(app).selected == old(app).selected,
{
    let view = final(app).mode->Dataset_0;
    let local = stored_keys(*old(app), dataset.dataset@);
    lemma_covered_day(
        view.days@,
        remote@,
        local,
        first.days as int,
        last.days as int,
        i,
        key,
    );
    lemma_first_incomplete_means(view.days@);
}

/// The first day of which something is missing.
proof fn lemma_first_incomplete_means(days: Seq<DayCoverage>)
    ensures
        forall|i: int|
            0 <= i < first_incomplete(days) ==> (#[trigger] days[i]).missing_keys@.len() == 0,
        (exists|i: int| 0 <= i < days.len() && (#[trigger] days[i]).missing_keys@.len() > 0)
            ==> first_incomplete(days) < days.len() && days[first_incomplete(
            days,
        )].missing_keys@.len() > 0,
{
    lemma_first_incomplete_from(days, 0);
}

/// The sync that is asked for is one of the selected day, of the dataset that is shown, and of the
/// seconds of that day and no others. While a sync is under way none is asked for, and that is told.
pub proof fn lemma_day_sync_is_of_the_selected_day(
    app: &mut RemoteListTui,
    out: Option<DaySyncRequest>,
    t: Timestamp,
)
    requires
        old(app).valid(),
        call_ensures(RemoteListTui::request_day_sync, (app,), out),
        t.nanos == 0,
    ensures
        out is Some <==> old(app).active_sync is None && old(app).mode is Dataset && old(
            app
        ).mode->Dataset_0.days@.len() > 0,
        out matches Some(request) ==> {
            let view = old(app).mode->Dataset_0;
            &&& request.dataset@ == view.dataset@
            &&& request.date == view.days@[view.selected_day as int].date
            &&& request.requested_range.from.not_after(t) && t.not_after(request.requested_range.to)
                <==> day_of_second(t.secs as int) == request.date.days
            &&& *final(app) == *old(app)
        },
        old(app).active_sync is Some ==> final(app).status_message is Some && final(
            app
        ).status_message->0@ == "sync already in progress"@ && final(app).active_sync == old(
            app
        ).active_sync,
{
}

/// A sync that begins counts what is stored of the plan, and nothing as fetched or failed.
pub proof fn lemma_sync_begins(app: &mut RemoteListTui, request: DaySyncRequest, plan: SyncPlan)
    requires
        old(app).valid(),
        old(app).active_sync is None,
        request.date.valid(),
        call_ensures(RemoteListTui::sync_selected_day, (app, &request, &plan), ()),
    ensures
        final(app).active_sync matches Some(sync) && {
            &&& sync.dataset@ == request.dataset.dataset@
            &&& sync.date == request.date
            &&& sync.remote_total == plan.snapshots@.len()
            &&& sync.local_present + missing(plan.snapshots@).len() == plan.snapshots@.len()
            &&& sync.downloaded == 0 && sync.failed == 0
            &&& sync.download_bytes == 0 && sync.download_total_bytes is None
            &&& sync.deferred_update is None
        },
        final(app).mode == old(app).mode && final(app).search == old(app).search,
{
    lemma_present_and_missing(plan.snapshots@);
}

/// News of a sync that do not end it are counted, and it stays under way, unless its task is gone. Then
/// it is over, and that is told.
pub proof fn lemma_sync_goes_on(
    app: &mut RemoteListTui,
    news: Vec<DaySyncUpdate>,
    disconnected: bool,
    out: Option<FinishedSync>,
)
    requires
        old(app).valid(),
        old(app).active_sync matches Some(sync) && sync.deferred_update is None
            && sync.local_present + sync.downloaded + news@.len() + 1 <= usize::MAX && sync.failed
            + news@.len() + 1 <= usize::MAX,
        forall|i: int| 0 <= i < news@.len() ==> !ends(#[trigger] news@[i]),
        call_ensures(RemoteListTui::pump_sync_updates, (app, news, disconnected), out),
    ensures
        ({
            let sync = old(app).active_sync->0;
            &&& out is Some <==> disconnected
            &&& final(app).active_sync is Some <==> !disconnected
            &&& !disconnected ==> {
                let next = final(app).active_sync->0;
                &&& next.downloaded == sync.downloaded + news@.filter(
                    |update: DaySyncUpdate| update is Downloaded,
                ).len()
                &&& next.failed == sync.failed + news@.filter(
                    |update: DaySyncUpdate| update is Failed,
                ).len()
                &&& next.dataset == sync.dataset && next.date == sync.date
            }
            &&& disconnected ==> out->0.status@ == "error: sync task disconnected"@
                && out->0.dataset@ == sync.dataset@ && out->0.date == sync.date
        }),
{
    lemma_news_are_counted(old(app).active_sync->0, news@, disconnected);
}

/// A sync that ended is over, and what is told of it are the numbers or the words of its end.
pub proof fn lemma_sync_ends(
    app: &mut RemoteListTui,
    news: Vec<DaySyncUpdate>,
    disconnected: bool,
    out: Option<FinishedSync>,
    end: DaySyncUpdate,
)
    requires
        old(app).valid(),
        old(app).active_sync matches Some(sync) && (sync.deferred_update == Some(end)
            || sync.deferred_update is None && news@.len() > 0 && news@[0] == end),
        ends(end),
        call_ensures(RemoteListTui::pump_sync_updates, (app, news, disconnected), out),
    ensures
        final(app).active_sync is None,
        out is Some,
        out->0.dataset@ == old(app).active_sync->0.dataset@,
        out->0.date == old(app).active_sync->0.date,
        end matches DaySyncUpdate::Finished { downloaded, failed } ==> out->0.status@ == "synced "@
            + decimal(downloaded as nat) + " snapshot(s), failed "@ + decimal(failed as nat),
        end matches DaySyncUpdate::Error(message) ==> out->0.status@ == "error: "@ + message@,
{
    lemma_end_is_told(old(app).active_sync->0, end, news@, disconnected);
}

/// The API key that is handed in is what was typed, without white space around it. What is white space
/// alone is not handed in, and the question tells it.
pub proof fn lemma_typed_key_is_handed_in(app: &mut RemoteListTui, out: Option<String>)
    requires
        old(app).valid(),
        call_ensures(RemoteListTui::submit_api_key_prompt, (app,), out),
        old(app).api_key_prompt is Some,
    ensures
        ({
            let typed = old(app).api_key_prompt->0.input@;
            &&& out is None <==> forall|i: int| 0 <= i < typed.len() ==> white(#[trigger] typed[i])
            &&& out matches Some(key) ==> key@ == trim(typed) && *final(app) == *old(app)
            &&& out is None ==> final(app).api_key_prompt is Some && final(
                app
            ).api_key_prompt->0.error_message is Some
        }),
{
    let at = lemma_trim(old(app).api_key_prompt->0.input@);
}

/// A dataset that is shown once more keeps the day that is asked for selected, where it has it. Else
/// the first day is selected of which something is missing.
pub proof fn lemma_refreshed_dataset(
    app: &mut RemoteListTui,
    dataset: RemoteDatasetEntry,
    remote: Vec<SnapshotEntry>,
    selected: Date,
    i: int,
)
    requires
        call_ensures(RemoteListTui::refresh_dataset_view, (app, &dataset, remote, selected), ()),
        final(app).mode is Dataset ==> 0 <= i < final(app).mode->Dataset_0.days@.len(),
    ensures
        final(app).mode is Dataset,
        ({
            let view = final(app).mode->Dataset_0;
            &&& view.dataset@ == dataset@
            &&& view.days@[i].date == selected ==> view.days@[view.selected_day as int].date
                == selected
            &&& final(app).status_message == old(app).status_message
        }),
{
    let view = final(app).mode->Dataset_0;
    lemma_day_position(view.days@, selected, 0);
    if view.days@[i].date == selected {
        assert(day_position_from(view.days@, selected, 0) is Some);
    }
}

proof fn lemma_day_position(days: Seq<DayCoverage>, date: Date, from: int)
    requires
        0 <= from,
    ensures
        match day_position_from(days, date, from) {
            Some(i) => from <= i < days.len() && days[i].date == date,
            None => forall|i: int| from <= i < days.len() ==> (#[trigger] days[i]).date != date,
        },
    decreases days.len() - from,
{
    if from < days.len() && days[from].date != date {
        lemma_day_position(days, date, from + 1);
    }
}

/// What is stored is noted anew for every dataset: its keys, as many as there are snapshots of it.
pub proof fn lemma_stored_keys_are_noted(
    app: &mut RemoteListTui,
    local: Vec<LocalSnapshotEntry>,
    id: Seq<char>,
)
    requires
        call_ensures(RemoteListTui::reload_local_state, (app, local), ()),
    ensures
        final(app).local_keys@.dom().contains(id) <==> exists|i: int|
            0 <= i < local@.len() && belongs_to(#[trigger] local@[i], id),
        final(app).local_summaries@.dom().contains(id) <==> final(app).local_keys@.dom().contains(
            id,
        ),
        final(app).local_keys@.dom().contains(id) ==> final(app).local_keys@[id]@.len() == final(
            app
        ).local_summaries@[id].snapshot_count,
        final(app).mode == old(app).mode && final(app).datasets == old(app).datasets,
{
    let all = local@;
    let pred = |entry: LocalSnapshotEntry| dataset_id(entry) == Some(id);
    let at = lemma_filter_positions(all, pred);
    assert(final(app).local_keys@.dom().contains(id) <==> stored_of(all, id).len() > 0);
    assert(final(app).local_summaries@.dom().contains(id) <==> stored_of(all, id).len() > 0);
    if stored_of(all, id).len() > 0 {
        assert(at.contains(at[0]));
        assert(belongs_to(all[at[0]], id));
    }
    if exists|i: int| 0 <= i < all.len() && belongs_to(#[trigger] all[i], id) {
        let i = choose|i: int| 0 <= i < all.len() && belongs_to(#[trigger] all[i], id);
        assert(at.contains(i));
    }
}

} // verus!
