//! Putting the snapshots of a day together in one file.

use crate::api::SnapshotEntry;
use crate::calendar::{
    date_text, day_of_second, lemma_letters_of_a_date, parsed_date, Date, Timestamp, EPOCH_DAY,
};
use crate::collections::{growing, lemma_filter_positions};
use crate::layout::{temp_path, Layout, LocalSnapshotEntry};
use crate::path::{components, join_path, lemma_join_adds_component, one_component, path_join};
use crate::planner::TimeWindow;
use crate::staging::{
    apart, lemma_walk_puts_content_in_place, walks, Stage, StageAction, StageReport, StagedFile,
    StagedSource, World,
};
use crate::text::{concat2, opt_text, same_text};
use vstd::prelude::*;

verus! {

/// What came of a day.
#[derive(Debug, Clone, Copy, PartialEq, Eq, Structural)]
pub enum MaterializeDayStatus {
    /// Its file was written.
    Built,
    /// Snapshots are missing locally.
    Incomplete,
    /// The server has no snapshots of it.
    NoRemoteData,
}

/// A day and what came of it.
#[derive(Debug, PartialEq, Eq)]
pub struct MaterializedDay {
    pub date: String,
    pub status: MaterializeDayStatus,
    pub remote_total: usize,
    pub local_total: usize,
    pub missing_total: usize,
    pub output_path: Option<String>,
}

/// The days of a dataset and what came of them.
#[derive(Debug, PartialEq, Eq)]
pub struct MaterializeExecution {
    pub exchange: String,
    pub asset: String,
    pub built_total: usize,
    pub incomplete_total: usize,
    pub no_remote_total: usize,
    pub days: Vec<MaterializedDay>,
}

// ---------------------------------------------------------------------------
// Which days
// ---------------------------------------------------------------------------

/// The stored snapshots of one dataset.
pub open spec fn of_dataset(
    entries: Seq<LocalSnapshotEntry>,
    exchange: Seq<char>,
    asset: Seq<char>,
) -> Seq<LocalSnapshotEntry> {
    entries.filter(
        |e: LocalSnapshotEntry|
            opt_text(e.source) == Some(exchange) && opt_text(e.market) == Some(asset),
    )
}

/// The stored snapshots of one dataset.
pub fn dataset_entries(entries: Vec<LocalSnapshotEntry>, exchange: &str, asset: &str) -> (out: Vec<
    LocalSnapshotEntry,
>)
    ensures
        out@ == of_dataset(entries@, exchange@, asset@),
{
    let ghost all = entries@;
    let mut out: Vec<LocalSnapshotEntry> = Vec::new();
    proof {
        reveal(Seq::filter);
        assert(of_dataset(all.take(0), exchange@, asset@) =~= Seq::empty());
    }
    for entry in it: entries
        invariant
            it.seq() == all,
            out@ == of_dataset(all.take(it.index() as int), exchange@, asset@),
    {
        proof {
            reveal(Seq::filter);
            assert(all.take(it.index() + 1).drop_last() =~= all.take(it.index() as int));
            assert(all.take(it.index() + 1).last() == entry);
        }
        let same_source = match &entry.source {
            Some(source) => same_text(source.as_str(), exchange),
            None => false,
        };
        let same_market = match &entry.market {
            Some(market) => same_text(market.as_str(), asset),
            None => false,
        };
        if same_source && same_market {
            out.push(entry);
        }
    }
    assert(all.take(all.len() as int) =~= all);
    out
}

/// Whether some stored snapshot carries this day.
pub open spec fn has_day(entries: Seq<LocalSnapshotEntry>, day: int) -> bool {
    exists|i: int|
        0 <= i < entries.len() && (#[trigger] entries[i]).date is Some && parsed_date(
            entries[i].date->0@,
        ) == Some(day)
}

/// Whether the days are valid and each is later than the one before it.
pub open spec fn increasing(dates: Seq<Date>) -> bool {
    &&& forall|i: int| 0 <= i < dates.len() ==> (#[trigger] dates[i]).valid()
    &&& forall|i: int, j: int|
        0 <= i < j < dates.len() ==> (#[trigger] dates[i]).days < (#[trigger] dates[j]).days
}

/// Puts a day in its place, unless it is there.
fn insert_date(dates: &mut Vec<Date>, date: Date)
    requires
        increasing(old(dates)@),
        date.valid(),
    ensures
        increasing(final(dates)@),
        forall|d: Date|
            final(dates)@.contains(d) <==> old(dates)@.contains(d) || d == date,
{
    let ghost before = dates@;
    let mut at: usize = 0;
    while at < dates.len() && dates[at].days < date.days
        invariant
            at <= dates.len(),
            dates@ == before,
            forall|i: int| 0 <= i < at ==> (#[trigger] before[i]).days < date.days,
        decreases dates.len() - at,
    {
        at += 1;
    }
    if at < dates.len() && dates[at].days == date.days {
        assert(before[at as int] == date);
        return;
    }
    dates.insert(at, date);
    proof {
        let after = dates@;
        assert(after =~= before.insert(at as int, date));
        assert forall|i: int| 0 <= i < after.len() implies (#[trigger] after[i]).valid() by {
            if i < at {
                assert(after[i] == before[i]);
            } else if i > at {
                assert(after[i] == before[i - 1]);
            }
        }
        assert forall|i: int, j: int| 0 <= i < j < after.len() implies (#[trigger] after[i]).days
            < (#[trigger] after[j]).days by {
            let a = if i < at { before[i] } else if i == at { date } else { before[i - 1] };
            let b = if j < at { before[j] } else if j == at { date } else { before[j - 1] };
            assert(after[i] == a && after[j] == b);
            if i == at && j > at {
                if j - 1 > at {
                    assert(before[at as int].days < before[j - 1].days);
                }
            }
        }
        assert forall|d: Date| after.contains(d) <==> before.contains(d) || d == date by {
            if after.contains(d) {
                let k = choose|k: int| 0 <= k < after.len() && after[k] == d;
                if k < at {
                    assert(before[k] == d);
                } else if k > at {
                    assert(before[k - 1] == d);
                }
            }
            if before.contains(d) {
                let k = choose|k: int| 0 <= k < before.len() && before[k] == d;
                if k < at {
                    assert(after[k] == d);
                } else {
                    assert(after[k + 1] == d);
                }
            }
            if d == date {
                assert(after[at as int] == d);
            }
        }
    }
}

/// The days to look at: the one that was asked for, or each day of the stored snapshots once, in
/// order.
pub fn collect_candidate_dates(entries: &Vec<LocalSnapshotEntry>, date_filter: Option<Date>) -> (out:
    Vec<Date>)
    ensures
        date_filter matches Some(date) ==> out@ == seq![date],
        date_filter is None ==> increasing(out@),
        date_filter is None ==> forall|d: Date| #[trigger]
            out@.contains(d) <==> has_day(entries@, d.days as int),
{
    let mut out: Vec<Date> = Vec::new();
    if let Some(date) = date_filter {
        out.push(date);
        assert(out@ =~= seq![date]);
        return out;
    }
    for i in 0..entries.len()
        invariant
            increasing(out@),
            forall|d: Date| #[trigger]
                out@.contains(d) <==> has_day(entries@.take(i as int), d.days as int),
    {
        let ghost before = out@;
        let ghost seen = entries@.take(i as int);
        let ghost more = entries@.take(i + 1);
        let ghost mut added: Option<int> = None;
        if let Some(text) = &entries[i].date {
            if let Some(date) = Date::parse(text.as_str()) {
                insert_date(&mut out, date);
                proof {
                    added = Some(date.days as int);
                }
            }
        }
        proof {
            assert forall|d: Date| #[trigger] out@.contains(d) <==> has_day(
                more,
                d.days as int,
            ) by {
                assert(out@.contains(d) <==> before.contains(d) || added == Some(d.days as int));
                assert(before.contains(d) <==> has_day(seen, d.days as int));
                if has_day(seen, d.days as int) {
                    let k = choose|k: int|
                        0 <= k < seen.len() && (#[trigger] seen[k]).date is Some && parsed_date(
                            seen[k].date->0@,
                        ) == Some(d.days as int);
                    assert(more[k] == seen[k]);
                }
                if added == Some(d.days as int) {
                    assert(more[i as int] == entries@[i as int]);
                }
                if has_day(more, d.days as int) {
                    let k = choose|k: int|
                        0 <= k < more.len() && (#[trigger] more[k]).date is Some && parsed_date(
                            more[k].date->0@,
                        ) == Some(d.days as int);
                    if k < i {
                        assert(seen[k] == more[k]);
                    }
                }
            }
        }
    }
    assert(entries@.take(entries@.len() as int) =~= entries@);
    out
}

/// The days from one to another, both included.
pub fn range_dates(start_date: Date, end_date: Date) -> (out: Vec<Date>)
    requires
        start_date.valid(),
        end_date.valid(),
    ensures
        out@.len() == (if start_date.days <= end_date.days {
            end_date.days - start_date.days + 1
        } else {
            0
        }),
        forall|i: int|
            0 <= i < out@.len() ==> #[trigger] out@[i] == (Date {
                days: (start_date.days + i) as i32,
            }),
{
    let mut out: Vec<Date> = Vec::new();
    let mut current: i32 = start_date.days;
    while current <= end_date.days
        invariant
            start_date.valid(),
            end_date.valid(),
            start_date.days <= current,
            start_date.days <= end_date.days ==> current <= end_date.days + 1,
            start_date.days > end_date.days ==> current == start_date.days,
            out@.len() == current - start_date.days,
            forall|i: int|
                0 <= i < out@.len() ==> #[trigger] out@[i] == (Date {
                    days: (start_date.days + i) as i32,
                }),
        decreases end_date.days + 1 - current,
    {
        out.push(Date { days: current });
        current += 1;
    }
    out
}

// ---------------------------------------------------------------------------
// One day
// ---------------------------------------------------------------------------

/// The stored snapshots of one day.
pub open spec fn of_day(entries: Seq<LocalSnapshotEntry>, day: int) -> Seq<LocalSnapshotEntry> {
    entries.filter(|e: LocalSnapshotEntry| opt_text(e.date) == Some(date_text(day)))
}

/// The path of the stored snapshot with this key, the last where there are several.
pub open spec fn path_of(entries: Seq<LocalSnapshotEntry>, key: Seq<char>) -> Option<Seq<char>>
    decreases entries.len(),
{
    if entries.len() == 0 {
        None
    } else if entries.last().key@ == key {
        Some(entries.last().path@)
    } else {
        path_of(entries.drop_last(), key)
    }
}

/// The keys of snapshots on the server that are not stored.
pub open spec fn keys_not_stored(remote: Seq<SnapshotEntry>, local: Seq<LocalSnapshotEntry>) -> Seq<
    Seq<char>,
>
    decreases remote.len(),
{
    if remote.len() == 0 {
        seq![]
    } else {
        let before = keys_not_stored(remote.drop_last(), local);
        if path_of(local, remote.last().key@) is None {
            before.push(remote.last().key@)
        } else {
            before
        }
    }
}

/// What is to be done with a day.
#[derive(Debug)]
pub enum DayDecision {
    /// Nothing is to be built.
    Report(MaterializedDay),
    /// These files are to be put together.
    Build { inputs: Vec<String>, remote_total: usize, local_total: usize },
}

/// The stored snapshots of one day.
fn entries_of_day(entries: &Vec<LocalSnapshotEntry>, date: &str, day: Ghost<int>) -> (out: Vec<usize>)
    requires
        date@ == date_text(day@),
    ensures
        out@.len() == of_day(entries@, day@).len(),
        forall|i: int|
            0 <= i < out@.len() ==> (#[trigger] out@[i]) < entries@.len() && entries@[out@[i] as int]
                == of_day(entries@, day@)[i],
{
    let ghost all = entries@;
    let mut out: Vec<usize> = Vec::new();
    proof {
        reveal(Seq::filter);
        assert(of_day(all.take(0), day@) =~= Seq::empty());
    }
    for i in 0..entries.len()
        invariant
            all == entries@,
            date@ == date_text(day@),
            out@.len() == of_day(all.take(i as int), day@).len(),
            forall|k: int|
                0 <= k < out@.len() ==> (#[trigger] out@[k]) < all.len() && all[out@[k] as int]
                    == of_day(all.take(i as int), day@)[k],
    {
        proof {
            reveal(Seq::filter);
            assert(all.take(i + 1).drop_last() =~= all.take(i as int));
            assert(all.take(i + 1).last() == all[i as int]);
        }
        let same = match &entries[i].date {
            Some(text) => same_text(text.as_str(), date),
            None => false,
        };
        if same {
            out.push(i);
        }
    }
    assert(all.take(all.len() as int) =~= all);
    out
}

/// The path of the stored snapshot with this key among those at `places`.
fn find_path(entries: &Vec<LocalSnapshotEntry>, places: &Vec<usize>, key: &str, day: Ghost<int>) -> (out:
    Option<String>)
    requires
        places@.len() == of_day(entries@, day@).len(),
        forall|i: int|
            0 <= i < places@.len() ==> (#[trigger] places@[i]) < entries@.len()
                && entries@[places@[i] as int] == of_day(entries@, day@)[i],
    ensures
        opt_text(out) == path_of(of_day(entries@, day@), key@),
{
    let ghost local = of_day(entries@, day@);
    let mut n: usize = places.len();
    assert(local.take(n as int) =~= local);
    while 0 < n
        invariant
            n <= places.len(),
            local == of_day(entries@, day@),
            places@.len() == local.len(),
            forall|i: int|
                0 <= i < places@.len() ==> (#[trigger] places@[i]) < entries@.len()
                    && entries@[places@[i] as int] == local[i],
            path_of(local.take(n as int), key@) == path_of(local, key@),
        decreases n,
    {
        let place: usize = places[n - 1];
        assert(local.take(n as int).last() == local[n - 1]);
        assert(local.take(n as int).drop_last() =~= local.take(n - 1));
        if same_text(entries[place].key.as_str(), key) {
            return Some(entries[place].path.clone());
        }
        n -= 1;
    }
    None
}

/// What is to be done with a day: its file is built where the server has snapshots of it and all of
/// them are stored, from the stored files in the order of the server.
pub fn judge_day(date: Date, remote: &Vec<SnapshotEntry>, entries: &Vec<LocalSnapshotEntry>) -> (out:
    DayDecision)
    requires
        date.valid(),
    ensures
        ({
            let local = of_day(entries@, date.days as int);
            let missing = keys_not_stored(remote@, local);
            match out {
                DayDecision::Report(day) => {
                    &&& remote@.len() == 0 || missing.len() > 0
                    &&& day.date@ == date_text(date.days as int)
                    &&& day.status == (if remote@.len() == 0 {
                        MaterializeDayStatus::NoRemoteData
                    } else {
                        MaterializeDayStatus::Incomplete
                    })
                    &&& day.remote_total == remote@.len()
                    &&& day.local_total == local.len()
                    &&& day.missing_total == missing.len()
                    &&& day.output_path is None
                },
                DayDecision::Build { inputs, remote_total, local_total } => {
                    &&& remote@.len() > 0 && missing.len() == 0
                    &&& remote_total == remote@.len()
                    &&& local_total == local.len()
                    &&& inputs@.len() == remote@.len()
                    &&& forall|i: int|
                        0 <= i < remote@.len() ==> path_of(local, remote@[i].key@) == Some(
                            (#[trigger] inputs@[i])@,
                        )
                },
            }
        }),
{
    let text = date.text();
    let day: Ghost<int> = Ghost(date.days as int);
    let places = entries_of_day(entries, text.as_str(), day);
    let ghost local = of_day(entries@, date.days as int);
    let local_total: usize = places.len();
    let mut inputs: Vec<String> = Vec::new();
    let mut missing_total: usize = 0;
    for i in 0..remote.len()
        invariant
            day@ == date.days,
            local == of_day(entries@, day@),
            places@.len() == local.len(),
            forall|k: int|
                0 <= k < places@.len() ==> (#[trigger] places@[k]) < entries@.len()
                    && entries@[places@[k] as int] == local[k],
            missing_total == keys_not_stored(remote@.take(i as int), local).len(),
            missing_total <= i,
            missing_total == 0 ==> inputs@.len() == i,
            missing_total == 0 ==> forall|k: int|
                0 <= k < i ==> path_of(local, remote@[k].key@) == Some((#[trigger] inputs@[k])@),
    {
        assert(remote@.take(i + 1).drop_last() =~= remote@.take(i as int));
        assert(remote@.take(i + 1).last() == remote@[i as int]);
        match find_path(entries, &places, remote[i].key.as_str(), day) {
            Some(path) => {
                inputs.push(path);
            },
            None => {
                missing_total += 1;
            },
        }
    }
    assert(remote@.take(remote@.len() as int) =~= remote@);
    if remote.len() == 0 || missing_total > 0 {
        DayDecision::Report(
            MaterializedDay {
                date: text,
                status: if remote.len() == 0 {
                    MaterializeDayStatus::NoRemoteData
                } else {
                    MaterializeDayStatus::Incomplete
                },
                remote_total: remote.len(),
                local_total,
                missing_total,
                output_path: None,
            },
        )
    } else {
        DayDecision::Build { inputs, remote_total: remote.len(), local_total }
    }
}

/// A day is complete where none of its keys is missing: every key on the server has a stored file.
pub proof fn lemma_complete_day(remote: Seq<SnapshotEntry>, local: Seq<LocalSnapshotEntry>)
    ensures
        keys_not_stored(remote, local).len() == 0 <==> forall|i: int|
            0 <= i < remote.len() ==> path_of(local, (#[trigger] remote[i]).key@) is Some,
    decreases remote.len(),
{
    if remote.len() > 0 {
        let front = remote.drop_last();
        lemma_complete_day(front, local);
        if keys_not_stored(remote, local).len() == 0 {
            assert forall|i: int| 0 <= i < remote.len() implies path_of(
                local,
                (#[trigger] remote[i]).key@,
            ) is Some by {
                if i < front.len() {
                    assert(front[i] == remote[i]);
                }
            }
        }
        if forall|i: int|
            0 <= i < remote.len() ==> path_of(local, (#[trigger] remote[i]).key@) is Some {
            assert(path_of(local, remote[remote.len() - 1].key@) is Some);
            assert forall|i: int| 0 <= i < front.len() implies path_of(
                local,
                (#[trigger] front[i]).key@,
            ) is Some by {
                assert(front[i] == remote[i]);
            }
        }
    }
}

/// A day whose file was written.
pub fn built_day(date: Date, remote_total: usize, local_total: usize, output_path: String) -> (out:
    MaterializedDay)
    requires
        date.valid(),
    ensures
        out.date@ == date_text(date.days as int),
        out.status == MaterializeDayStatus::Built,
        out.remote_total == remote_total,
        out.local_total == local_total,
        out.missing_total == 0,
        opt_text(out.output_path) == Some(output_path@),
{
    MaterializedDay {
        date: date.text(),
        status: MaterializeDayStatus::Built,
        remote_total,
        local_total,
        missing_total: 0,
        output_path: Some(output_path),
    }
}

// ---------------------------------------------------------------------------
// All days
// ---------------------------------------------------------------------------

/// How many days came out so.
pub open spec fn days_with(days: Seq<MaterializedDay>, status: MaterializeDayStatus) -> nat
    decreases days.len(),
{
    if days.len() == 0 {
        0
    } else {
        days_with(days.drop_last(), status) + if days.last().status == status {
            1nat
        } else {
            0nat
        }
    }
}

/// How many days came out so.
fn count_days(days: &Vec<MaterializedDay>, status: MaterializeDayStatus) -> (out: usize)
    ensures
        out == days_with(days@, status),
{
    let mut out: usize = 0;
    for i in 0..days.len()
        invariant
            out == days_with(days@.take(i as int), status),
            out <= i,
    {
        assert(days@.take(i + 1).drop_last() =~= days@.take(i as int));
        if days[i].status == status {
            out += 1;
        }
    }
    assert(days@.take(days@.len() as int) =~= days@);
    out
}

/// The days of a dataset, with how many came out how.
pub fn summarize_days(exchange: &str, asset: &str, days: Vec<MaterializedDay>) -> (out:
    MaterializeExecution)
    ensures
        out.exchange@ == exchange@,
        out.asset@ == asset@,
        out.built_total == days_with(days@, MaterializeDayStatus::Built),
        out.incomplete_total == days_with(days@, MaterializeDayStatus::Incomplete),
        out.no_remote_total == days_with(days@, MaterializeDayStatus::NoRemoteData),
        out.days@ == days@,
{
    MaterializeExecution {
        exchange: exchange.to_owned(),
        asset: asset.to_owned(),
        built_total: count_days(&days, MaterializeDayStatus::Built),
        incomplete_total: count_days(&days, MaterializeDayStatus::Incomplete),
        no_remote_total: count_days(&days, MaterializeDayStatus::NoRemoteData),
        days,
    }
}

/// Every day comes out in exactly one way.
pub proof fn lemma_days_add_up(days: Seq<MaterializedDay>)
    ensures
        days_with(days, MaterializeDayStatus::Built) + days_with(
            days,
            MaterializeDayStatus::Incomplete,
        ) + days_with(days, MaterializeDayStatus::NoRemoteData) == days.len(),
    decreases days.len(),
{
    if days.len() > 0 {
        lemma_days_add_up(days.drop_last());
    }
}

// ---------------------------------------------------------------------------
// One day after the other
// ---------------------------------------------------------------------------

/// Days that are worked through in order.
#[derive(Debug)]
pub struct MaterializeRun {
    pub dates: Vec<Date>,
    pub days: Vec<MaterializedDay>,
}

impl MaterializeRun {
    /// Whether every day is one of the calendar, and those done so far are the first ones.
    pub open spec fn valid(self) -> bool {
        &&& forall|i: int| 0 <= i < self.dates@.len() ==> (#[trigger] self.dates@[i]).valid()
        &&& self.days@.len() <= self.dates@.len()
        &&& forall|i: int|
            0 <= i < self.days@.len() ==> (#[trigger] self.days@[i]).date@ == date_text(
                self.dates@[i].days as int,
            )
    }

    /// No day done so far.
    pub fn new(dates: Vec<Date>) -> (out: MaterializeRun)
        requires
            forall|i: int| 0 <= i < dates@.len() ==> (#[trigger] dates@[i]).valid(),
        ensures
            out.valid(),
            out.dates@ == dates@,
            out.days@.len() == 0,
    {
        MaterializeRun { dates, days: Vec::new() }
    }

    /// The next day, with the range of time for which the server is asked.
    pub fn next_day(&self) -> (out: Option<(Date, TimeWindow)>)
        requires
            self.valid(),
        ensures
            out is Some <==> self.days@.len() < self.dates@.len(),
            out matches Some(day) ==> {
                &&& day.0 == self.dates@[self.days@.len() as int]
                &&& day.0.valid()
                &&& day.1.valid()
                &&& day.1.from.nanos == 0 && day.1.to.nanos == 0
                &&& day.1.from.secs == (day.0.days - EPOCH_DAY) * 86_400
                &&& day.1.to.secs == day.1.from.secs + 86_399
            },
    {
        if self.days.len() < self.dates.len() {
            let date = self.dates[self.days.len()];
            Some((date, TimeWindow { from: date.first_second(), to: date.last_second() }))
        } else {
            None
        }
    }

    /// Takes note of what came of the next day.
    pub fn finish_day(&mut self, day: MaterializedDay)
        requires
            old(self).valid(),
            old(self).days@.len() < old(self).dates@.len(),
            day.date@ == date_text(old(self).dates@[old(self).days@.len() as int].days as int),
        ensures
            final(self).valid(),
            final(self).dates@ == old(self).dates@,
            final(self).days@ == old(self).days@.push(day),
    {
        self.days.push(day);
    }

    /// What came of the days, once all are done.
    pub fn finish(self, exchange: &str, asset: &str) -> (out: MaterializeExecution)
        requires
            self.valid(),
            self.days@.len() == self.dates@.len(),
        ensures
            out.exchange@ == exchange@,
            out.asset@ == asset@,
            out.days@ == self.days@,
            out.built_total == days_with(self.days@, MaterializeDayStatus::Built),
            out.incomplete_total == days_with(self.days@, MaterializeDayStatus::Incomplete),
            out.no_remote_total == days_with(self.days@, MaterializeDayStatus::NoRemoteData),
            out.built_total + out.incomplete_total + out.no_remote_total == self.dates@.len(),
    {
        proof {
            lemma_days_add_up(self.days@);
        }
        summarize_days(exchange, asset, self.days)
    }
}

// ---------------------------------------------------------------------------
// The file of a day
// ---------------------------------------------------------------------------

/// The path of the file of a day.
pub open spec fn daily_path(
    root: Seq<char>,
    exchange: Seq<char>,
    asset: Seq<char>,
    day: int,
) -> Seq<char> {
    path_join(
        path_join(path_join(path_join(path_join(root, "cache"@), "daily"@), exchange), asset),
        date_text(day) + ".jsonl.zst"@,
    )
}

impl Layout {
    /// The file of a day of a dataset.
    pub fn daily_path_for_dataset_day(&self, exchange: &str, asset: &str, date: Date) -> (out: String)
        requires
            date.valid(),
        ensures
            out@ == daily_path(self@, exchange@, asset@, date.days as int),
    {
        let cache = self.cache_root();
        let daily = join_path(cache.as_str(), "daily");
        let of_exchange = join_path(daily.as_str(), exchange);
        let of_asset = join_path(of_exchange.as_str(), asset);
        let day = date.text();
        let file = concat2(day.as_str(), ".jsonl.zst");
        join_path(of_asset.as_str(), file.as_str())
    }

    /// The file in which that of a day is put together.
    pub fn daily_temp_path_for_dataset_day(&self, exchange: &str, asset: &str, date: Date) -> (out:
        String)
        requires
            date.valid(),
        ensures
            out@ == temp_path(
                self@,
                daily_path(self@, exchange@, asset@, date.days as int),
            ),
    {
        let path = self.daily_path_for_dataset_day(exchange, asset, date);
        self.temp_path_for_key(path.as_str())
    }

    /// The file of a day, as it is put together.
    pub fn staged_day(&self, exchange: &str, asset: &str, date: Date, inputs: Vec<String>) -> (out:
        StagedFile)
        requires
            date.valid(),
        ensures
            out.local_path@ == daily_path(self@, exchange@, asset@, date.days as int),
            out.temp_path@ == temp_path(self@, out.local_path@),
            out.source == StagedSource::Files(inputs),
    {
        StagedFile {
            local_path: self.daily_path_for_dataset_day(exchange, asset, date),
            temp_path: self.daily_temp_path_for_dataset_day(exchange, asset, date),
            source: StagedSource::Files(inputs),
        }
    }
}

// ---------------------------------------------------------------------------
// What a day comes to
// ---------------------------------------------------------------------------

/// Whether a stored snapshot is the one of this key on this day.
pub open spec fn is_stored_as(entry: LocalSnapshotEntry, key: Seq<char>, day: int) -> bool {
    entry.key@ == key && entry.date is Some && entry.date->0@ == date_text(day)
}

/// Whether a snapshot of this key is stored on this day.
pub open spec fn has_stored(entries: Seq<LocalSnapshotEntry>, key: Seq<char>, day: int) -> bool {
    exists|k: int| 0 <= k < entries.len() && is_stored_as(#[trigger] entries[k], key, day)
}

proof fn lemma_path_of_day(entries: Seq<LocalSnapshotEntry>, key: Seq<char>, day: int)
    ensures
        match path_of(of_day(entries, day), key) {
            None => !has_stored(entries, key, day),
            Some(path) => exists|k: int|
                0 <= k < entries.len() && is_stored_as(#[trigger] entries[k], key, day) && path
                    == entries[k].path@,
        },
    decreases entries.len(),
{
    reveal(Seq::filter);
    if entries.len() > 0 {
        let front = entries.drop_last();
        let last = entries.last();
        lemma_path_of_day(front, key, day);
        let some = of_day(front, day);
        if opt_text(last.date) == Some(date_text(day)) {
            assert(of_day(entries, day) =~= some.push(last));
            assert(some.push(last).drop_last() =~= some);
        } else {
            assert(of_day(entries, day) =~= some);
        }
        if last.key@ == key && opt_text(last.date) == Some(date_text(day)) {
            assert(is_stored_as(entries[entries.len() - 1], key, day));
            assert(path_of(of_day(entries, day), key) == Some(last.path@));
        } else {
            assert(path_of(of_day(entries, day), key) == path_of(some, key));
            match path_of(some, key) {
                Some(path) => {
                    let k = choose|k: int|
                        0 <= k < front.len() && is_stored_as(#[trigger] front[k], key, day) && path
                            == front[k].path@;
                    assert(entries[k] == front[k]);
                },
                None => {
                    assert forall|k: int| 0 <= k < entries.len() implies !is_stored_as(
                        #[trigger] entries[k],
                        key,
                        day,
                    ) by {
                        if k < front.len() {
                            assert(front[k] == entries[k]);
                        }
                    }
                },
            }
        }
    }
}

/// The file of a day is built if and only if the server has snapshots of it and each of them is
/// stored. It is then made of one stored file for each snapshot on the server, in the order of the
/// server: that of the snapshot's key on that day.
pub proof fn lemma_day_is_built_of_its_snapshots(
    date: Date,
    remote: Vec<SnapshotEntry>,
    entries: Vec<LocalSnapshotEntry>,
    out: DayDecision,
)
    requires
        call_ensures(judge_day, (date, &remote, &entries), out),
    ensures
        out is Build <==> remote@.len() > 0 && forall|i: int|
            0 <= i < remote@.len() ==> has_stored(
                entries@,
                (#[trigger] remote@[i]).key@,
                date.days as int,
            ),
        out matches DayDecision::Build { inputs, remote_total, .. } ==> {
            &&& inputs@.len() == remote@.len()
            &&& remote_total == remote@.len()
            &&& forall|i: int|
                0 <= i < remote@.len() ==> exists|k: int|
                    0 <= k < entries@.len() && is_stored_as(
                        #[trigger] entries@[k],
                        remote@[i].key@,
                        date.days as int,
                    ) && (#[trigger] inputs@[i])@ == entries@[k].path@
        },
        out matches DayDecision::Report(day) ==> {
            &&& day.date@ == date_text(date.days as int)
            &&& day.status == MaterializeDayStatus::NoRemoteData <==> remote@.len() == 0
            &&& day.status != MaterializeDayStatus::Built
            &&& day.output_path is None
            &&& day.remote_total == remote@.len()
        },
{
    let local = of_day(entries@, date.days as int);
    lemma_complete_day(remote@, local);
    assert forall|i: int| 0 <= i < remote@.len() implies (path_of(local, (#[trigger] remote@[i]).key@)
        is Some <==> has_stored(entries@, remote@[i].key@, date.days as int)) by {
        lemma_path_of_day(entries@, remote@[i].key@, date.days as int);
    }
    if let DayDecision::Build { inputs, remote_total, local_total } = out {
        assert forall|i: int| 0 <= i < remote@.len() implies exists|k: int|
            0 <= k < entries@.len() && is_stored_as(
                #[trigger] entries@[k],
                remote@[i].key@,
                date.days as int,
            ) && (#[trigger] inputs@[i])@ == entries@[k].path@ by {
            lemma_path_of_day(entries@, remote@[i].key@, date.days as int);
        }
    }
}

/// How many snapshots of a day are told to be missing: as many as the server has and are not stored.
pub proof fn lemma_missing_snapshots_are_counted(
    date: Date,
    remote: Vec<SnapshotEntry>,
    entries: Vec<LocalSnapshotEntry>,
    day: MaterializedDay,
)
    requires
        call_ensures(judge_day, (date, &remote, &entries), DayDecision::Report(day)),
    ensures
        day.missing_total == remote@.filter(
            |entry: SnapshotEntry| !has_stored(entries@, entry.key@, date.days as int),
        ).len(),
        day.local_total == entries@.filter(
            |entry: LocalSnapshotEntry|
                entry.date is Some && entry.date->0@ == date_text(date.days as int),
        ).len(),
{
    lemma_keys_not_stored_count(remote@, entries@, date.days as int);
    lemma_of_day_count(entries@, date.days as int);
}

proof fn lemma_keys_not_stored_count(
    remote: Seq<SnapshotEntry>,
    entries: Seq<LocalSnapshotEntry>,
    day: int,
)
    ensures
        keys_not_stored(remote, of_day(entries, day)).len() == remote.filter(
            |entry: SnapshotEntry| !has_stored(entries, entry.key@, day),
        ).len(),
    decreases remote.len(),
{
    reveal(Seq::filter);
    if remote.len() > 0 {
        lemma_keys_not_stored_count(remote.drop_last(), entries, day);
        lemma_path_of_day(entries, remote.last().key@, day);
    }
}

proof fn lemma_of_day_count(entries: Seq<LocalSnapshotEntry>, day: int)
    ensures
        of_day(entries, day).len() == entries.filter(
            |entry: LocalSnapshotEntry| entry.date is Some && entry.date->0@ == date_text(day),
        ).len(),
    decreases entries.len(),
{
    reveal(Seq::filter);
    if entries.len() > 0 {
        lemma_of_day_count(entries.drop_last(), day);
    }
}

/// A day that is built comes to its place whole: a walk through the stages of its file that comes to
/// the end has put there the content of the inputs, all of them, in order, and left nothing beside it.
pub proof fn lemma_built_day_holds_its_inputs(
    layout: Layout,
    exchange: &str,
    asset: &str,
    date: Date,
    inputs: Vec<String>,
    file: StagedFile,
    stages: Seq<Stage>,
    actions: Seq<StageAction>,
    reports: Seq<StageReport>,
    before: World,
    served: Map<Seq<char>, Seq<u8>>,
)
    requires
        call_ensures(Layout::staged_day, (&layout, exchange, asset, date, inputs), file),
        apart(file),
        walks(file, stages, actions, reports),
        stages.last() == Stage::Done,
    ensures
        ({
            let now = before.after_all(actions, served, actions.len());
            let place = file.local_path@;
            &&& now.files.dom().contains(place)
            &&& now.files[place] == inputs@.map_values(
                |path: String| before.files[path@],
            ).flatten()
            &&& now.safe.contains(place)
            &&& !now.files.dom().contains(file.temp_path@)
        }),
{
    lemma_walk_puts_content_in_place(
        file,
        stages,
        actions,
        reports,
        before,
        served,
        actions.len(),
    );
}

/// The days from one to another are all days between them, both included, each once and in order.
pub proof fn lemma_days_of_a_range(start: Date, end: Date, out: Vec<Date>, day: Date)
    requires
        call_ensures(range_dates, (start, end), out),
        start.valid(),
        end.valid(),
    ensures
        out@.contains(day) <==> start.days <= day.days <= end.days,
        forall|i: int, j: int|
            0 <= i < j < out@.len() ==> (#[trigger] out@[j]).days - (#[trigger] out@[i]).days == j
                - i,
{
    if start.days <= day.days <= end.days {
        let i = day.days - start.days;
        assert(out@[i] == day);
    }
    if out@.contains(day) {
        let i = choose|i: int| 0 <= i < out@.len() && out@[i] == day;
        assert(out@[i].days == start.days + i);
    }
}

/// The days that are looked at: the one that was asked for and no other, or else every day that a
/// stored snapshot carries.
pub proof fn lemma_days_to_look_at(
    entries: Vec<LocalSnapshotEntry>,
    asked: Option<Date>,
    out: Vec<Date>,
    day: Date,
)
    requires
        call_ensures(collect_candidate_dates, (&entries, asked), out),
    ensures
        asked matches Some(date) ==> (out@.contains(day) <==> day == date),
        asked is None ==> (out@.contains(day) <==> exists|i: int|
            0 <= i < entries@.len() && (#[trigger] entries@[i]).date is Some && parsed_date(
                entries@[i].date->0@,
            ) == Some(day.days as int)),
        forall|i: int, j: int|
            0 <= i < j < out@.len() ==> (#[trigger] out@[i]).days < (#[trigger] out@[j]).days,
{
    if let Some(date) = asked {
        assert(out@[0] == date);
    } else {
        assert(out@.contains(day) <==> has_day(entries@, day.days as int));
    }
}

/// The range for which the server is asked holds the seconds of the day and no others.
pub proof fn lemma_day_is_asked_for(run: MaterializeRun, out: Option<(Date, TimeWindow)>, t: Timestamp)
    requires
        run.valid(),
        call_ensures(MaterializeRun::next_day, (&run,), out),
        t.nanos == 0,
    ensures
        out is Some <==> run.days@.len() < run.dates@.len(),
        out matches Some((day, window)) ==> {
            &&& day == run.dates@[run.days@.len() as int]
            &&& window.from.not_after(t) && t.not_after(window.to) <==> day_of_second(t.secs as int)
                == day.days
        },
{
}

/// The stored snapshots of a dataset are those whose source and market are the ones asked for: all of
/// them, each once, in their order. The answer is where they stand.
pub proof fn lemma_dataset_entries(
    entries: Vec<LocalSnapshotEntry>,
    exchange: &str,
    asset: &str,
    out: Vec<LocalSnapshotEntry>,
) -> (at: Seq<int>)
    requires
        call_ensures(dataset_entries, (entries, exchange, asset), out),
    ensures
        growing(at),
        at.len() == out@.len(),
        forall|i: int|
            0 <= i < at.len() ==> 0 <= (#[trigger] at[i]) < entries@.len() && out@[i]
                == entries@[at[i]],
        forall|k: int|
            0 <= k < entries@.len() ==> (#[trigger] at.contains(k) <==> {
                &&& entries@[k].source is Some && entries@[k].source->0@ == exchange@
                &&& entries@[k].market is Some && entries@[k].market->0@ == asset@
            }),
{
    lemma_filter_positions(
        entries@,
        |e: LocalSnapshotEntry|
            opt_text(e.source) == Some(exchange@) && opt_text(e.market) == Some(asset@),
    )
}

/// The file of a day lies among what can be made again, below its exchange and its asset, under its
/// date.
pub proof fn lemma_file_of_a_day(
    layout: Layout,
    exchange: &str,
    asset: &str,
    date: Date,
    out: String,
    day: String,
)
    requires
        call_ensures(Layout::daily_path_for_dataset_day, (&layout, exchange, asset, date), out),
        call_ensures(Date::text, (&date,), day),
        one_component(exchange@),
        one_component(asset@),
    ensures
        components(out@) == components(layout@) + seq![
            "cache"@,
            "daily"@,
            exchange@,
            asset@,
            day@ + ".jsonl.zst"@,
        ],
{
    reveal_strlit("cache");
    reveal_strlit("daily");
    reveal_strlit(".");
    assert("cache"@.len() == 5 && "daily"@.len() == 5 && "."@.len() == 1);
    let a = path_join(layout@, "cache"@);
    let b = path_join(a, "daily"@);
    let c = path_join(b, exchange@);
    let d = path_join(c, asset@);
    let name = day@ + ".jsonl.zst"@;
    reveal_strlit(".jsonl.zst");
    assert(".jsonl.zst"@.len() == 10);
    assert forall|i: int| 0 <= i < name.len() implies name[i] != '/' by {
        if i < day@.len() {
            lemma_letters_of_a_date(date.days as int, i);
        } else {
            assert(name[i] == ".jsonl.zst"@[i - day@.len()]);
        }
    }
    lemma_join_adds_component(layout@, "cache"@);
    lemma_join_adds_component(a, "daily"@);
    lemma_join_adds_component(b, exchange@);
    lemma_join_adds_component(c, asset@);
    lemma_join_adds_component(d, day@ + ".jsonl.zst"@);
    assert(components(out@) =~= components(layout@) + seq![
        "cache"@,
        "daily"@,
        exchange@,
        asset@,
        day@ + ".jsonl.zst"@,
    ]);
}

proof fn lemma_days_with(days: Seq<MaterializedDay>, status: MaterializeDayStatus)
    ensures
        days_with(days, status) == days.filter(|day: MaterializedDay| day.status == status).len(),
    decreases days.len(),
{
    reveal(Seq::filter);
    if days.len() > 0 {
        lemma_days_with(days.drop_last(), status);
    }
}

/// What is told of days counts each of them once, by what came of it, and tells them all in order.
pub proof fn lemma_days_are_counted(
    exchange: &str,
    asset: &str,
    days: Vec<MaterializedDay>,
    out: MaterializeExecution,
)
    requires
        call_ensures(summarize_days, (exchange, asset, days), out),
    ensures
        out.exchange@ == exchange@ && out.asset@ == asset@,
        out.days@ == days@,
        out.built_total == days@.filter(
            |day: MaterializedDay| day.status == MaterializeDayStatus::Built,
        ).len(),
        out.incomplete_total == days@.filter(
            |day: MaterializedDay| day.status == MaterializeDayStatus::Incomplete,
        ).len(),
        out.no_remote_total == days@.filter(
            |day: MaterializedDay| day.status == MaterializeDayStatus::NoRemoteData,
        ).len(),
        out.built_total + out.incomplete_total + out.no_remote_total == days@.len(),
{
    lemma_days_with(days@, MaterializeDayStatus::Built);
    lemma_days_with(days@, MaterializeDayStatus::Incomplete);
    lemma_days_with(days@, MaterializeDayStatus::NoRemoteData);
    lemma_days_add_up(days@);
}

/// A day whose file was written is told as built, with nothing missing and with the place of the file.
pub proof fn lemma_built_day(
    date: Date,
    remote_total: usize,
    local_total: usize,
    output_path: String,
    out: MaterializedDay,
    text: String,
)
    requires
        call_ensures(built_day, (date, remote_total, local_total, output_path), out),
        call_ensures(Date::text, (&date,), text),
    ensures
        out.status == MaterializeDayStatus::Built,
        out.missing_total == 0,
        out.remote_total == remote_total && out.local_total == local_total,
        out.output_path is Some && out.output_path->0@ == output_path@,
        out.date@ == text@,
{
}

} // verus!
