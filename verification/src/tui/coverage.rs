//! What is stored of what is on the server.

use crate::api::{DatasetAccess, DatasetAccessStatus, SnapshotEntry};
use crate::calendar::{Date, Timestamp};
use crate::collections::{
    growing, increasing_texts, lemma_filter_nothing, lemma_filter_positions, lemma_filter_step,
    TextMap, TextSet,
};
use crate::layout::{
    date_at, date_in, date_position, day_at, infer_date_from_text, lemma_first_date,
    LocalSnapshotEntry,
};
use crate::order::{lemma_sorted_members, rank_before, sort, sorted_from, Ranked};
use crate::planner::TimeWindow;
use crate::text::{
    concat3, copy_texts, decimal, decimal_of, opt_text, precedes, repeated, same_text, texts,
};
use crate::tui::model::{
    category_views, ActiveDaySync, ApiKeyRequirement, BrowserCategory, CategoryView, DatasetView,
    DayCoverage, DayState, LocalDatasetSummary, RemoteDatasetEntry,
};
use vstd::prelude::*;

verus! {

// ---------------------------------------------------------------------------
// What is stored, by dataset
// ---------------------------------------------------------------------------

/// The dataset of a stored snapshot, as `source:market`.
pub open spec fn dataset_id(entry: LocalSnapshotEntry) -> Option<Seq<char>> {
    match (entry.source, entry.market) {
        (Some(source), Some(market)) => Some(source@ + ":"@ + market@),
        _ => None,
    }
}

/// The stored snapshots of a dataset.
pub open spec fn stored_of(s: Seq<LocalSnapshotEntry>, id: Seq<char>) -> Seq<LocalSnapshotEntry> {
    s.filter(|entry: LocalSnapshotEntry| dataset_id(entry) == Some(id))
}

/// The keys of the stored snapshots of a dataset.
pub open spec fn keys_of(s: Seq<LocalSnapshotEntry>, id: Seq<char>) -> Seq<String> {
    stored_of(s, id).map_values(|entry: LocalSnapshotEntry| entry.key)
}

/// The earliest start of snapshots, as far as it is known.
pub open spec fn first_start(s: Seq<LocalSnapshotEntry>) -> Option<Timestamp>
    decreases s.len(),
{
    if s.len() == 0 {
        None
    } else {
        match (first_start(s.drop_last()), s.last().start) {
            (Some(a), Some(b)) => Some(TimeWindow::earlier(a, b)),
            (None, b) => b,
            (a, None) => a,
        }
    }
}

/// The latest end of snapshots, as far as it is known.
pub open spec fn last_end(s: Seq<LocalSnapshotEntry>) -> Option<Timestamp>
    decreases s.len(),
{
    if s.len() == 0 {
        None
    } else {
        match (last_end(s.drop_last()), s.last().end) {
            (Some(a), Some(b)) => Some(TimeWindow::later(a, b)),
            (None, b) => b,
            (a, None) => a,
        }
    }
}

/// Whether a summary tells of exactly these snapshots.
pub open spec fn sums_up(summary: LocalDatasetSummary, s: Seq<LocalSnapshotEntry>) -> bool {
    &&& summary.snapshot_count == s.len()
    &&& summary.first_start == first_start(s)
    &&& summary.last_end == last_end(s)
}

/// Whether a map holds the datasets of these snapshots with their summaries.
pub open spec fn summaries_of(
    map: Map<Seq<char>, LocalDatasetSummary>,
    s: Seq<LocalSnapshotEntry>,
) -> bool {
    forall|id: Seq<char>|
        {
            &&& #[trigger] map.dom().contains(id) <==> stored_of(s, id).len() > 0
            &&& map.dom().contains(id) ==> sums_up(map[id], stored_of(s, id))
        }
}

/// Whether a map holds the datasets of these snapshots with the keys of theirs in order.
pub open spec fn keys_grouped(map: Map<Seq<char>, Vec<String>>, s: Seq<LocalSnapshotEntry>) -> bool {
    forall|id: Seq<char>|
        {
            &&& #[trigger] map.dom().contains(id) <==> stored_of(s, id).len() > 0
            &&& map.dom().contains(id) ==> sorted_from(map[id]@, keys_of(s, id))
        }
}

/// The dataset of a stored snapshot.
fn dataset_of(entry: &LocalSnapshotEntry) -> (out: Option<String>)
    ensures
        opt_text(out) == dataset_id(*entry),
{
    match (&entry.source, &entry.market) {
        (Some(source), Some(market)) => Some(concat3(source.as_str(), ":", market.as_str())),
        _ => None,
    }
}

/// A summary with one more snapshot.
fn with_snapshot(summary: LocalDatasetSummary, entry: &LocalSnapshotEntry, s: Ghost<
    Seq<LocalSnapshotEntry>,
>) -> (out: LocalDatasetSummary)
    requires
        sums_up(summary, s@),
        summary.snapshot_count < usize::MAX,
    ensures
        sums_up(out, s@.push(*entry)),
{
    assert(s@.push(*entry).drop_last() =~= s@);
    let first = match (summary.first_start, entry.start) {
        (Some(a), Some(b)) => Some(if a.is_not_after(&b) { a } else { b }),
        (None, b) => b,
        (a, None) => a,
    };
    let last = match (summary.last_end, entry.end) {
        (Some(a), Some(b)) => Some(if a.is_not_after(&b) { b } else { a }),
        (None, b) => b,
        (a, None) => a,
    };
    LocalDatasetSummary {
        snapshot_count: summary.snapshot_count + 1,
        first_start: first,
        last_end: last,
    }
}

/// What is stored of each dataset.
pub fn summarize_local_snapshots(snapshots: &Vec<LocalSnapshotEntry>) -> (out: TextMap<
    LocalDatasetSummary,
>)
    ensures
        out.valid(),
        summaries_of(out@, snapshots@),
{
    let ghost all = snapshots@;
    let mut out: TextMap<LocalDatasetSummary> = TextMap::new();
    proof {
        assert forall|id: Seq<char>| (#[trigger] out@.dom().contains(id)) <==> stored_of(
            all.take(0),
            id,
        ).len() > 0 by {
            lemma_filter_nothing(all, |entry: LocalSnapshotEntry| dataset_id(entry) == Some(id));
        }
    }
    for i in 0..snapshots.len()
        invariant
            all == snapshots@,
            out.valid(),
            summaries_of(out@, all.take(i as int)),
    {
        let ghost before = out@;
        let ghost seen = all.take(i as int);
        let ghost more = all.take(i + 1);
        let entry = &snapshots[i];
        match dataset_of(entry) {
            Some(id) => {
                let ghost name = id@;
                let summary = match out.get(id.as_str()) {
                    Some(summary) => *summary,
                    None => LocalDatasetSummary {
                        snapshot_count: 0,
                        first_start: None,
                        last_end: None,
                    },
                };
                let ghost theirs = stored_of(seen, name);
                proof {
                    assert(before.dom().contains(name) <==> theirs.len() > 0);
                    assert(sums_up(summary, theirs));
                    lemma_stored_at_most(seen, name);
                }
                let summary = with_snapshot(summary, entry, Ghost(theirs));
                out.insert(id, summary);
                proof {
                    assert forall|x: Seq<char>|
                        {
                            &&& #[trigger] out@.dom().contains(x) <==> stored_of(more, x).len() > 0
                            &&& out@.dom().contains(x) ==> sums_up(out@[x], stored_of(more, x))
                        } by {
                        lemma_filter_step(
                            all,
                            i as int,
                            |entry: LocalSnapshotEntry| dataset_id(entry) == Some(x),
                        );
                        assert(before.dom().contains(x) <==> stored_of(seen, x).len() > 0);
                        assert(before.dom().contains(x) ==> sums_up(before[x], stored_of(seen, x)));
                    }
                }
            },
            None => {
                proof {
                    assert forall|x: Seq<char>|
                        {
                            &&& #[trigger] out@.dom().contains(x) <==> stored_of(more, x).len() > 0
                            &&& out@.dom().contains(x) ==> sums_up(out@[x], stored_of(more, x))
                        } by {
                        lemma_filter_step(
                            all,
                            i as int,
                            |entry: LocalSnapshotEntry| dataset_id(entry) == Some(x),
                        );
                    }
                }
            },
        }
    }
    assert(all.take(all.len() as int) =~= all);
    out
}

proof fn lemma_stored_at_most(s: Seq<LocalSnapshotEntry>, id: Seq<char>)
    ensures
        stored_of(s, id).len() <= s.len(),
{
    s.lemma_filter_len(|entry: LocalSnapshotEntry| dataset_id(entry) == Some(id));
}

/// The keys of the stored snapshots of each dataset, in order.
pub fn group_local_snapshot_keys(snapshots: Vec<LocalSnapshotEntry>) -> (out: TextMap<Vec<String>>)
    ensures
        out.valid(),
        keys_grouped(out@, snapshots@),
{
    let ghost all = snapshots@;
    let mut grouped: TextMap<Vec<String>> = TextMap::new();
    proof {
        assert forall|id: Seq<char>| (#[trigger] grouped@.dom().contains(id)) <==> stored_of(
            all.take(0),
            id,
        ).len() > 0 by {
            lemma_filter_nothing(all, |entry: LocalSnapshotEntry| dataset_id(entry) == Some(id));
        }
    }
    for snapshot in it: snapshots
        invariant
            it.seq() == all,
            grouped.valid(),
            forall|id: Seq<char>|
                {
                    &&& #[trigger] grouped@.dom().contains(id) <==> stored_of(
                        all.take(it.index() as int),
                        id,
                    ).len() > 0
                    &&& grouped@.dom().contains(id) ==> grouped@[id]@ == keys_of(
                        all.take(it.index() as int),
                        id,
                    )
                },
    {
        let ghost before = grouped@;
        let ghost k = it.index() as int;
        let ghost seen = all.take(k);
        let ghost more = all.take(k + 1);
        match dataset_of(&snapshot) {
            Some(id) => {
                let ghost name = id@;
                let ghost key = snapshot.key;
                let mut keys = match grouped.insert(id.clone(), Vec::new()) {
                    Some(keys) => keys,
                    None => {
                        proof {
                            assert(stored_of(seen, name).len() == 0);
                            assert(keys_of(seen, name) =~= Seq::empty());
                        }
                        Vec::new()
                    },
                };
                assert(keys@ =~= keys_of(seen, name));
                keys.push(snapshot.key);
                grouped.insert(id, keys);
                proof {
                    assert forall|x: Seq<char>|
                        {
                            &&& #[trigger] grouped@.dom().contains(x) <==> stored_of(
                                more,
                                x,
                            ).len() > 0
                            &&& grouped@.dom().contains(x) ==> grouped@[x]@ == keys_of(more, x)
                        } by {
                        lemma_filter_step(
                            all,
                            k,
                            |entry: LocalSnapshotEntry| dataset_id(entry) == Some(x),
                        );
                        assert(before.dom().contains(x) <==> stored_of(seen, x).len() > 0);
                        assert(before.dom().contains(x) ==> before[x]@ == keys_of(seen, x));
                        if x == name {
                            assert(keys_of(more, x) =~= keys_of(seen, x).push(key));
                        }
                    }
                }
            },
            None => {
                proof {
                    assert forall|x: Seq<char>|
                        {
                            &&& #[trigger] grouped@.dom().contains(x) <==> stored_of(
                                more,
                                x,
                            ).len() > 0
                            &&& grouped@.dom().contains(x) ==> grouped@[x]@ == keys_of(more, x)
                        } by {
                        lemma_filter_step(
                            all,
                            k,
                            |entry: LocalSnapshotEntry| dataset_id(entry) == Some(x),
                        );
                    }
                }
            },
        }
    }
    assert(all.take(all.len() as int) =~= all);
    let ghost unsorted = grouped@;
    let out = grouped.into_sorted();
    proof {
        assert forall|id: Seq<char>|
            {
                &&& #[trigger] out@.dom().contains(id) <==> stored_of(all, id).len() > 0
                &&& out@.dom().contains(id) ==> sorted_from(out@[id]@, keys_of(all, id))
            } by {
            assert(unsorted.dom().contains(id) <==> stored_of(all, id).len() > 0);
            assert(unsorted.dom().contains(id) ==> unsorted[id]@ == keys_of(all, id));
            if unsorted.dom().contains(id) {
                assert(sorted_from(out@[id]@, unsorted[id]@));
            }
        }
    }
    out
}

// ---------------------------------------------------------------------------
// What is missing, by day
// ---------------------------------------------------------------------------

/// The keys on the server that are not stored, in their order.
pub open spec fn not_stored(remote: Seq<Seq<char>>, local: Seq<Seq<char>>) -> Seq<Seq<char>> {
    remote.filter(|key: Seq<char>| !local.contains(key))
}

/// The keys on the server that are not stored, in their order.
pub fn diff_missing_snapshot_keys(remote_keys: Vec<String>, local_keys: &Vec<String>) -> (out: Vec<
    String,
>)
    ensures
        texts(out@) == not_stored(texts(remote_keys@), texts(local_keys@)),
{
    let ghost remote = texts(remote_keys@);
    let ghost local = texts(local_keys@);
    let ghost missing = |key: Seq<char>| !local.contains(key);
    let stored = TextSet::from_texts(copy_texts(local_keys));
    let mut out: Vec<String> = Vec::new();
    proof {
        lemma_filter_nothing(remote, missing);
        assert(texts(out@) =~= remote.take(0).filter(missing));
    }
    for key in it: remote_keys
        invariant
            it.seq() == remote_keys@,
            remote == texts(remote_keys@),
            missing == (|key: Seq<char>| !local.contains(key)),
            stored.valid(),
            stored@ == local.to_set(),
            texts(out@) == remote.take(it.index() as int).filter(missing),
    {
        let ghost k = it.index() as int;
        let ghost before = texts(out@);
        proof {
            assert(remote[k] == key@);
            lemma_filter_step(remote, k, missing);
        }
        if !stored.contains(key.as_str()) {
            out.push(key);
            assert(texts(out@) =~= before.push(remote[k]));
        }
    }
    assert(remote.take(remote.len() as int) =~= remote);
    out
}

/// The day of a snapshot on the server: the one it is marked with, or the first that is written in
/// its key.
pub open spec fn snapshot_day(entry: SnapshotEntry) -> Option<int> {
    match entry.date {
        Some(date) => Some(date.days as int),
        None => date_in(entry.key@),
    }
}

/// The keys of the snapshots on the server of one day.
pub open spec fn remote_on(s: Seq<SnapshotEntry>, day: int) -> Seq<String> {
    s.filter(|entry: SnapshotEntry| snapshot_day(entry) == Some(day)).map_values(
        |entry: SnapshotEntry| entry.key,
    )
}

/// The stored keys of one day.
pub open spec fn local_on(s: Seq<String>, day: int) -> Seq<String> {
    s.filter(|key: String| date_in(key@) == Some(day))
}

/// Whether a day holds its keys on the server and those stored, each in order, and those missing.
pub open spec fn covers(
    coverage: DayCoverage,
    day: int,
    remote: Seq<SnapshotEntry>,
    local: Seq<String>,
) -> bool {
    &&& coverage.date.days == day
    &&& coverage.date.valid()
    &&& sorted_from(coverage.remote_keys@, remote_on(remote, day))
    &&& sorted_from(coverage.local_keys@, local_on(local, day))
    &&& texts(coverage.missing_keys@) == not_stored(
        texts(coverage.remote_keys@),
        texts(coverage.local_keys@),
    )
}

/// Whether the list holds the days from `start` to `end`, one after the other, each with its keys.
pub open spec fn days_cover(
    days: Seq<DayCoverage>,
    remote: Seq<SnapshotEntry>,
    local: Seq<String>,
    start: int,
    end: int,
) -> bool {
    &&& days.len() == (if start <= end {
        end - start + 1
    } else {
        0
    })
    &&& forall|i: int| 0 <= i < days.len() ==> covers(#[trigger] days[i], start + i, remote, local)
}

proof fn lemma_remote_on_step(s: Seq<SnapshotEntry>, k: int, day: int)
    requires
        0 <= k < s.len(),
    ensures
        remote_on(s.take(k + 1), day) == (if snapshot_day(s[k]) == Some(day) {
            remote_on(s.take(k), day).push(s[k].key)
        } else {
            remote_on(s.take(k), day)
        }),
{
    let pred = |entry: SnapshotEntry| snapshot_day(entry) == Some(day);
    lemma_filter_step(s, k, pred);
    if pred(s[k]) {
        assert(remote_on(s.take(k + 1), day) =~= remote_on(s.take(k), day).push(s[k].key));
    }
}

/// The days from `start_date` to `end_date` without keys.
fn empty_days(start_date: Date, end_date: Date) -> (out: Vec<DayCoverage>)
    requires
        start_date.valid(),
        end_date.valid(),
    ensures
        out@.len() == (if start_date.days <= end_date.days {
            end_date.days - start_date.days + 1
        } else {
            0
        }),
        forall|i: int|
            0 <= i < out@.len() ==> {
                &&& (#[trigger] out@[i]).date.days == start_date.days + i
                &&& out@[i].date.valid()
                &&& out@[i].remote_keys@.len() == 0
                &&& out@[i].local_keys@.len() == 0
                &&& out@[i].missing_keys@.len() == 0
            },
{
    let mut days: Vec<DayCoverage> = Vec::new();
    let mut current: i32 = start_date.days;
    while current <= end_date.days
        invariant
            start_date.valid(),
            end_date.valid(),
            start_date.days <= current,
            start_date.days <= end_date.days ==> current <= end_date.days + 1,
            start_date.days > end_date.days ==> current == start_date.days,
            days@.len() == current - start_date.days,
            forall|i: int|
                0 <= i < days@.len() ==> {
                    &&& (#[trigger] days@[i]).date.days == start_date.days + i
                    &&& days@[i].date.valid()
                    &&& days@[i].remote_keys@.len() == 0
                    &&& days@[i].local_keys@.len() == 0
                    &&& days@[i].missing_keys@.len() == 0
                },
        decreases end_date.days + 1 - current,
    {
        days.push(
            DayCoverage {
                date: Date { days: current },
                remote_keys: Vec::new(),
                local_keys: Vec::new(),
                missing_keys: Vec::new(),
            },
        );
        current += 1;
    }
    days
}

/// The days from `start_date` to `end_date` with what is on the server, what is stored and what is
/// missing. What lies outside the range is left out.
pub fn build_day_coverages(
    remote_snapshots: Vec<SnapshotEntry>,
    local_keys: &Vec<String>,
    start_date: Date,
    end_date: Date,
) -> (out: Vec<DayCoverage>)
    requires
        start_date.valid(),
        end_date.valid(),
    ensures
        days_cover(
            out@,
            remote_snapshots@,
            local_keys@,
            start_date.days as int,
            end_date.days as int,
        ),
{
    let ghost remote = remote_snapshots@;
    let ghost start = start_date.days as int;
    let mut days = empty_days(start_date, end_date);
    let ghost count = days@.len();
    proof {
        assert forall|i: int| 0 <= i < days@.len() implies (#[trigger] days@[i]).remote_keys@
            == remote_on(remote.take(0), start + i) by {
            lemma_filter_nothing(
                remote,
                |entry: SnapshotEntry| snapshot_day(entry) == Some(start + i),
            );
            assert(days@[i].remote_keys@ =~= remote_on(remote.take(0), start + i));
        }
    }
    for snapshot in it: remote_snapshots
        invariant
            it.seq() == remote,
            start == start_date.days,
            start_date.valid(),
            end_date.valid(),
            days@.len() == count,
            count == (if start_date.days <= end_date.days {
                end_date.days - start_date.days + 1
            } else {
                0
            }),
            forall|i: int|
                0 <= i < count ==> {
                    &&& (#[trigger] days@[i]).date.days == start + i
                    &&& days@[i].date.valid()
                    &&& days@[i].remote_keys@ == remote_on(
                        remote.take(it.index() as int),
                        start + i,
                    )
                    &&& days@[i].local_keys@.len() == 0
                },
    {
        let ghost k = it.index() as int;
        let ghost before = days@;
        proof {
            assert(remote[k] == snapshot);
            assert forall|i: int| 0 <= i < count implies #[trigger] remote_on(
                remote.take(k + 1),
                start + i,
            ) == (if snapshot_day(snapshot) == Some(start + i) {
                remote_on(remote.take(k), start + i).push(snapshot.key)
            } else {
                remote_on(remote.take(k), start + i)
            }) by {
                lemma_remote_on_step(remote, k, start + i);
            }
        }
        let date = match snapshot.date {
            Some(date) => Some(date),
            None => infer_date_from_text(snapshot.key.as_str()),
        };
        if let Some(date) = date {
            if date.days >= start_date.days && date.days <= end_date.days {
                let offset: usize = (date.days as i64 - start_date.days as i64) as usize;
                let ghost key = snapshot.key;
                days[offset].remote_keys.push(snapshot.key);
                proof {
                    assert forall|i: int| 0 <= i < count implies {
                        &&& (#[trigger] days@[i]).date.days == start + i
                        &&& days@[i].date.valid()
                        &&& days@[i].remote_keys@ == remote_on(remote.take(k + 1), start + i)
                        &&& days@[i].local_keys@.len() == 0
                    } by {
                        assert(before[i].date.days == start + i);
                        let step = remote_on(remote.take(k + 1), start + i);
                    }
                }
            }
        }
    }
    assert(remote.take(remote.len() as int) =~= remote);
    proof {
        assert forall|i: int| 0 <= i < count implies (#[trigger] days@[i]).local_keys@ == local_on(
            local_keys@.take(0),
            start + i,
        ) by {
            lemma_filter_nothing(local_keys@, |key: String| date_in(key@) == Some(start + i));
            assert(days@[i].local_keys@ =~= Seq::empty());
        }
    }
    for k in 0..local_keys.len()
        invariant
            start == start_date.days,
            start_date.valid(),
            end_date.valid(),
            days@.len() == count,
            count == (if start_date.days <= end_date.days {
                end_date.days - start_date.days + 1
            } else {
                0
            }),
            forall|i: int|
                0 <= i < count ==> {
                    &&& (#[trigger] days@[i]).date.days == start + i
                    &&& days@[i].date.valid()
                    &&& days@[i].remote_keys@ == remote_on(remote, start + i)
                    &&& days@[i].local_keys@ == local_on(local_keys@.take(k as int), start + i)
                },
    {
        let ghost before = days@;
        let key = &local_keys[k];
        proof {
            assert forall|i: int| 0 <= i < count implies #[trigger] local_on(
                local_keys@.take(k + 1),
                start + i,
            ) == (if date_in(key@) == Some(start + i) {
                local_on(local_keys@.take(k as int), start + i).push(*key)
            } else {
                local_on(local_keys@.take(k as int), start + i)
            }) by {
                lemma_filter_step(
                    local_keys@,
                    k as int,
                    |key: String| date_in(key@) == Some(start + i),
                );
            }
        }
        if let Some(date) = infer_date_from_text(key.as_str()) {
            if date.days >= start_date.days && date.days <= end_date.days {
                let offset: usize = (date.days as i64 - start_date.days as i64) as usize;
                days[offset].local_keys.push(key.clone());
                proof {
                    assert forall|i: int| 0 <= i < count implies {
                        &&& (#[trigger] days@[i]).date.days == start + i
                        &&& days@[i].date.valid()
                        &&& days@[i].remote_keys@ == remote_on(remote, start + i)
                        &&& days@[i].local_keys@ == local_on(local_keys@.take(k + 1), start + i)
                    } by {
                        assert(before[i].date.days == start + i);
                        let step = local_on(local_keys@.take(k + 1), start + i);
                    }
                }
            }
        }
    }
    assert(local_keys@.take(local_keys@.len() as int) =~= local_keys@);
    let ghost gathered = days@;
    let mut out: Vec<DayCoverage> = Vec::new();
    for day in it: days
        invariant
            it.seq() == gathered,
            gathered.len() == count,
            out@.len() == it.index(),
            forall|i: int|
                0 <= i < count ==> {
                    &&& (#[trigger] gathered[i]).date.days == start + i
                    &&& gathered[i].date.valid()
                    &&& gathered[i].remote_keys@ == remote_on(remote, start + i)
                    &&& gathered[i].local_keys@ == local_on(local_keys@, start + i)
                },
            forall|i: int|
                0 <= i < it.index() ==> covers(#[trigger] out@[i], start + i, remote, local_keys@),
    {
        assert(gathered[it.index() as int] == day);
        let remote_keys = sort(day.remote_keys);
        let stored_keys = sort(day.local_keys);
        let missing_keys = diff_missing_snapshot_keys(copy_texts(&remote_keys), &stored_keys);
        out.push(
            DayCoverage { date: day.date, remote_keys, local_keys: stored_keys, missing_keys },
        );
    }
    out
}

/// Whether everything of a day that is on the server is stored is told by its state.
pub proof fn lemma_full_day_is_stored(coverage: DayCoverage)
    requires
        texts(coverage.missing_keys@) == not_stored(
            texts(coverage.remote_keys@),
            texts(coverage.local_keys@),
        ),
    ensures
        coverage@.state() == DayState::Full <==> coverage@.remote.len() > 0 && forall|key: Seq<char>|
            coverage@.remote.contains(key) ==> coverage@.local.contains(key),
        forall|key: Seq<char>| #[trigger]
            coverage@.missing.contains(key) <==> coverage@.remote.contains(key)
                && !coverage@.local.contains(key),
{
    let remote = coverage@.remote;
    let local = coverage@.local;
    let pred = |key: Seq<char>| !local.contains(key);
    assert forall|key: Seq<char>| #[trigger]
        coverage@.missing.contains(key) <==> remote.contains(key) && !local.contains(key) by {
        if remote.contains(key) && !local.contains(key) {
            let i = choose|i: int| 0 <= i < remote.len() && remote[i] == key;
            assert(pred(remote[i]));
            remote.lemma_filter_contains(pred, i);
        }
        if coverage@.missing.contains(key) {
            remote.lemma_filter_contains_rev(pred, key);
            let j = choose|j: int|
                0 <= j < coverage@.missing.len() && coverage@.missing[j] == key;
            remote.lemma_filter_pred(pred, j);
        }
    }
    if coverage@.missing.len() == 0 {
        assert forall|key: Seq<char>| remote.contains(key) implies local.contains(key) by {
            assert(!coverage@.missing.contains(key));
        }
    } else {
        let key = coverage@.missing[0];
        assert(coverage@.missing.contains(key));
    }
}

/// The position of the first day of which something is missing, or 0.
pub open spec fn first_incomplete(days: Seq<DayCoverage>) -> int {
    first_incomplete_from(days, 0)
}

/// The first position, from `i` on, of a day of which something is missing, or 0.
pub open spec fn first_incomplete_from(days: Seq<DayCoverage>, i: int) -> int
    decreases days.len() - i,
{
    if i >= days.len() {
        0
    } else if days[i].missing_keys@.len() > 0 {
        i
    } else {
        first_incomplete_from(days, i + 1)
    }
}

/// The day that is selected first: the first of which something is missing, or the first.
pub fn select_initial_day(days: &Vec<DayCoverage>) -> (out: usize)
    ensures
        out == first_incomplete(days@),
        days@.len() > 0 ==> out < days@.len(),
{
    for i in 0..days.len()
        invariant
            first_incomplete(days@) == first_incomplete_from(days@, i as int),
    {
        if days[i].missing_keys.len() > 0 {
            return i;
        }
    }
    0
}

/// The categories of the datasets.
pub open spec fn all_categories(datasets: Seq<RemoteDatasetEntry>) -> Set<Seq<char>> {
    Set::new(
        |name: Seq<char>|
            exists|i: int|
                0 <= i < datasets.len() && texts(#[trigger] datasets[i].categories@).contains(name),
    )
}

/// The selections of datasets: all, the bookmarked, and each category of the catalog once, in order.
pub fn browser_categories(datasets: &Vec<RemoteDatasetEntry>) -> (out: Vec<BrowserCategory>)
    ensures
        exists|names: Seq<Seq<char>>|
            {
                &&& #[trigger] increasing_texts(names)
                &&& names.to_set() == all_categories(datasets@)
                &&& category_views(out@) == seq![CategoryView::AllDatasets, CategoryView::Bookmarks]
                    + names.map_values(|name: Seq<char>| CategoryView::Catalog(name))
            },
{
    let mut found = TextSet::new();
    assert(all_categories(datasets@.take(0)) =~= Set::<Seq<char>>::empty());
    for i in 0..datasets.len()
        invariant
            found.valid(),
            found@ == all_categories(datasets@.take(i as int)),
    {
        let names = &datasets[i].categories;
        let ghost before = found@;
        let ghost theirs = texts(names@);
        assert(before.union(theirs.take(0).to_set()) =~= before);
        for j in 0..names.len()
            invariant
                theirs == texts(names@),
                found.valid(),
                found@ == before.union(theirs.take(j as int).to_set()),
        {
            proof {
                assert(theirs[j as int] == names@[j as int]@);
                assert(theirs.take(j + 1) =~= theirs.take(j as int).push(theirs[j as int]));
                theirs.take(j as int).lemma_push_to_set_commute(theirs[j as int]);
                assert(before.union(theirs.take(j as int).to_set()).insert(theirs[j as int])
                    =~= before.union(theirs.take(j + 1).to_set()));
            }
            found.insert(names[j].clone());
        }
        proof {
            assert(theirs.take(theirs.len() as int) =~= theirs);
            let seen = datasets@.take(i as int);
            let more = datasets@.take(i + 1);
            assert forall|name: Seq<char>| all_categories(more).contains(name) <==> before.contains(
                name,
            ) || theirs.contains(name) by {
                if all_categories(more).contains(name) {
                    let k = choose|k: int|
                        0 <= k < more.len() && texts(#[trigger] more[k].categories@).contains(name);
                    if k < i {
                        assert(seen[k] == more[k]);
                        assert(texts(seen[k].categories@).contains(name));
                    }
                }
                if before.contains(name) {
                    let k = choose|k: int|
                        0 <= k < seen.len() && texts(#[trigger] seen[k].categories@).contains(name);
                    assert(more[k] == seen[k]);
                    assert(texts(more[k].categories@).contains(name));
                }
                if theirs.contains(name) {
                    assert(more[i as int] == datasets@[i as int]);
                    assert(texts(more[i as int].categories@).contains(name));
                }
            }
            assert(found@ =~= all_categories(more));
        }
    }
    assert(datasets@.take(datasets@.len() as int) =~= datasets@);
    proof {
        found.lemma_listed();
    }
    let ghost names = found.listed();
    let listed = found.items();
    let mut out: Vec<BrowserCategory> = Vec::new();
    out.push(BrowserCategory::AllDatasets);
    out.push(BrowserCategory::Bookmarks);
    let ghost head = seq![CategoryView::AllDatasets, CategoryView::Bookmarks];
    let ghost tail = names.map_values(|name: Seq<char>| CategoryView::Catalog(name));
    assert(category_views(out@) =~= head + tail.take(0));
    for i in 0..listed.len()
        invariant
            texts(listed@) == names,
            tail == names.map_values(|name: Seq<char>| CategoryView::Catalog(name)),
            category_views(out@) == head + tail.take(i as int),
    {
        let ghost before = category_views(out@);
        assert(names[i as int] == listed@[i as int]@);
        out.push(BrowserCategory::Catalog(listed[i].clone()));
        assert(category_views(out@) =~= before.push(tail[i as int]));
        assert(category_views(out@) =~= head + tail.take(i + 1));
    }
    assert(tail.take(tail.len() as int) =~= tail);
    assert(increasing_texts(names));
    out
}

// ---------------------------------------------------------------------------
// Who may fetch what
// ---------------------------------------------------------------------------

/// Why an API key is needed to fetch what is missing of a day, where one is. With a key, or with
/// nothing missing, none is needed. A dataset that tells nothing of its access is open for its last
/// seven days.
pub open spec fn key_requirement(
    access: Option<DatasetAccess>,
    day: int,
    today: int,
    has_api_key: bool,
    missing: nat,
) -> Option<ApiKeyRequirement> {
    if has_api_key || missing == 0 {
        None
    } else {
        match access {
            Some(access) => if !access.needs_key(day) {
                None
            } else {
                match access.status {
                    DatasetAccessStatus::Restricted => Some(ApiKeyRequirement::Restricted),
                    _ => Some(
                        ApiKeyRequirement::Preview {
                            public_cutoff_date: access.public_cutoff_date,
                        },
                    ),
                }
            },
            None => if day < today - 7 {
                Some(ApiKeyRequirement::LegacyPreviewWindow)
            } else {
                None
            },
        }
    }
}

/// Why an API key is needed to fetch what is missing of a day, where one is.
pub fn api_key_requirement_for_download(
    access: Option<DatasetAccess>,
    selected_date: Date,
    today: Date,
    has_api_key: bool,
    missing_snapshot_count: usize,
) -> (out: Option<ApiKeyRequirement>)
    requires
        today.valid(),
    ensures
        out == key_requirement(
            access,
            selected_date.days as int,
            today.days as int,
            has_api_key,
            missing_snapshot_count as nat,
        ),
{
    if has_api_key || missing_snapshot_count == 0 {
        return None;
    }
    match access {
        Some(access) => {
            if !access.requires_api_key_for_date(selected_date) {
                return None;
            }
            match access.status {
                DatasetAccessStatus::Restricted => Some(ApiKeyRequirement::Restricted),
                DatasetAccessStatus::Preview => Some(
                    ApiKeyRequirement::Preview { public_cutoff_date: access.public_cutoff_date },
                ),
                DatasetAccessStatus::Open => None,
            }
        },
        None => if selected_date.days < today.days - 7 {
            Some(ApiKeyRequirement::LegacyPreviewWindow)
        } else {
            None
        },
    }
}

/// With an API key, or with nothing missing, the user is never asked for one. An open dataset never
/// asks, a restricted one always.
pub proof fn lemma_key_requirement(
    access: Option<DatasetAccess>,
    day: int,
    today: int,
    has_api_key: bool,
    missing: nat,
)
    ensures
        has_api_key || missing == 0 ==> key_requirement(access, day, today, has_api_key, missing)
            is None,
        (access matches Some(a) && a.status == DatasetAccessStatus::Open) ==> key_requirement(
            access,
            day,
            today,
            has_api_key,
            missing,
        ) is None,
        (access matches Some(a) && a.status == DatasetAccessStatus::Restricted) && !has_api_key
            && missing > 0 ==> key_requirement(access, day, today, has_api_key, missing) == Some(
            ApiKeyRequirement::Restricted,
        ),
{
}

/// When an API key is asked for. With a key, or with nothing missing, never. Else a restricted dataset
/// always needs one, an open one never, and a preview needs one for the days before its cutoff, or for
/// all where it has none. A dataset that tells nothing of its access needs one for the days that are
/// more than seven days before today, and for no other.
pub proof fn lemma_key_is_needed(
    access: Option<DatasetAccess>,
    selected: Date,
    today: Date,
    has_api_key: bool,
    missing: usize,
    out: Option<ApiKeyRequirement>,
)
    requires
        call_ensures(
            api_key_requirement_for_download,
            (access, selected, today, has_api_key, missing),
            out,
        ),
    ensures
        has_api_key || missing == 0 ==> out is None,
        !has_api_key && missing > 0 ==> match access {
            None => {
                &&& out is Some <==> today.days - selected.days > 7
                &&& out is Some ==> out->0 is LegacyPreviewWindow
            },
            Some(access) => if access.status == DatasetAccessStatus::Open {
                out is None
            } else if access.status == DatasetAccessStatus::Restricted {
                out is Some && out->0 is Restricted
            } else if access.public_cutoff_date is Some {
                let cutoff = access.public_cutoff_date->0;
                &&& out is Some <==> selected.days - cutoff.days < 0
                &&& out is Some ==> out->0 == (ApiKeyRequirement::Preview {
                    public_cutoff_date: Some(cutoff),
                })
            } else {
                out is Some && out->0 == (ApiKeyRequirement::Preview { public_cutoff_date: None })
            },
        },
{
}

// ---------------------------------------------------------------------------
// Counts and sizes
// ---------------------------------------------------------------------------

/// A count in at most three characters.
pub fn compact_count(count: usize) -> (out: String)
    ensures
        out@ == (if count > 99 {
            "99+"@
        } else {
            decimal(count as nat)
        }),
{
    if count > 99 {
        "99+".to_owned()
    } else {
        decimal_of(count as u64)
    }
}

/// One of four strokes that turn.
pub fn spinner_frame(tick: usize) -> (out: &'static str)
    ensures
        out@ == (if tick % 4 == 0 {
            "|"@
        } else if tick % 4 == 1 {
            "/"@
        } else if tick % 4 == 2 {
            "-"@
        } else {
            "\\"@
        }),
{
    match tick % 4 {
        0 => "|",
        1 => "/",
        2 => "-",
        _ => "\\",
    }
}

/// The number of snapshots of a day that a sync of it has in place.
pub open spec fn synced_total(sync: ActiveDaySync) -> int {
    if sync.local_present + sync.downloaded <= sync.remote_total {
        sync.local_present + sync.downloaded
    } else {
        sync.remote_total as int
    }
}

/// Whether a sync is one of this day.
pub open spec fn syncs_day(sync: Option<ActiveDaySync>, dataset: Seq<char>, date: Date) -> bool {
    sync matches Some(s) && s.dataset@ == dataset && s.date == date
}

/// The words for how much of a day is stored.
pub open spec fn state_words(state: DayState) -> Seq<char> {
    match state {
        DayState::Full => "full"@,
        DayState::Partial => "partial"@,
        DayState::Empty => "none local"@,
        DayState::NoRemote => "no remote data"@,
    }
}

/// How many snapshots of a day are on the server, stored and missing, and its state in words. A sync
/// of the day that is under way counts.
pub fn sync_adjusted_day_totals(
    view: &DatasetView,
    day: &DayCoverage,
    active_sync: &Option<ActiveDaySync>,
) -> (out: (usize, usize, usize, &'static str))
    requires
        active_sync matches Some(sync) ==> sync.local_present + sync.downloaded <= usize::MAX,
    ensures
        syncs_day(*active_sync, view.dataset.dataset@, day.date) ==> {
            let sync = active_sync->0;
            &&& out.0 == sync.remote_total
            &&& out.1 == synced_total(sync)
            &&& out.2 == sync.remote_total - synced_total(sync)
            &&& out.3@ == "syncing"@
        },
        !syncs_day(*active_sync, view.dataset.dataset@, day.date) ==> {
            &&& out.0 == day.remote_keys@.len()
            &&& out.1 == day.local_keys@.len()
            &&& out.2 == day.missing_keys@.len()
            &&& out.3@ == state_words(day@.state())
        },
{
    if let Some(sync) = active_sync {
        if same_text(sync.dataset.as_str(), view.dataset.dataset.as_str()) && sync.date
            == day.date {
            let reached: usize = sync.local_present + sync.downloaded;
            let local_total: usize = if reached <= sync.remote_total {
                reached
            } else {
                sync.remote_total
            };
            return (sync.remote_total, local_total, sync.remote_total - local_total, "syncing");
        }
    }
    let state = match day.state() {
        DayState::Full => "full",
        DayState::Partial => "partial",
        DayState::Empty => "none local",
        DayState::NoRemote => "no remote data",
    };
    (day.remote_keys.len(), day.local_keys.len(), day.missing_keys.len(), state)
}

/// The share of `width` that `part` is of `whole`, to the nearest.
pub open spec fn filled_share(part: int, whole: int, width: int) -> int {
    (part * width + whole / 2) / whole
}

/// A bar for how much is stored.
pub open spec fn completion_bar(local: int, remote: int, width: int) -> Seq<char> {
    if remote == 0 {
        "[........................] no remote data"@
    } else {
        let stored = if local <= remote { local } else { remote };
        let filled = filled_share(stored, remote, width);
        "["@ + repeated('#', filled as nat) + repeated('.', (width - filled) as nat) + "] "@
            + decimal(stored as nat) + "/"@ + decimal(remote as nat)
    }
}

proof fn lemma_filled_share(part: int, whole: int, width: int)
    requires
        0 <= part <= whole,
        0 < whole,
        0 <= width,
    ensures
        0 <= filled_share(part, whole, width) <= width,
{
    let total = part * width + whole / 2;
    assert(0 <= part * width <= whole * width) by (nonlinear_arith)
        requires
            0 <= part <= whole,
            0 <= width,
    ;
    assert(total < whole * (width + 1)) by (nonlinear_arith)
        requires
            total <= whole * width + whole / 2,
            0 < whole,
    ;
    assert(0 <= total / whole <= width) by (nonlinear_arith)
        requires
            0 <= total < whole * (width + 1),
            0 < whole,
    ;
}

/// A bar for how much is stored.
pub fn render_completion_bar(local_total: usize, remote_total: usize, width: usize) -> (out: String)
    ensures
        out@ == completion_bar(local_total as int, remote_total as int, width as int),
{
    if remote_total == 0 {
        return "[........................] no remote data".to_owned();
    }
    let stored: usize = if local_total <= remote_total { local_total } else { remote_total };
    proof {
        assert(stored * width <= usize::MAX * usize::MAX) by (nonlinear_arith)
            requires
                0 <= stored <= usize::MAX,
                0 <= width <= usize::MAX,
        ;
        assert(usize::MAX * usize::MAX + usize::MAX <= u128::MAX) by (nonlinear_arith)
            requires
                usize::MAX <= 0xffff_ffff_ffff_ffff,
        ;
        lemma_filled_share(stored as int, remote_total as int, width as int);
    }
    let filled: usize = ((stored as u128 * width as u128 + remote_total as u128 / 2)
        / remote_total as u128) as usize;
    let mut bar = "[".to_owned();
    let ghost open = "["@;
    assert(bar@ =~= open + repeated('#', 0) + repeated('.', 0));
    for i in 0..width
        invariant
            filled <= width,
            bar@ == open + repeated('#', if i < filled { i as nat } else { filled as nat })
                + repeated('.', if i < filled { 0 } else { (i - filled) as nat }),
    {
        let ghost before = bar@;
        if i < filled {
            bar.push('#');
            assert(bar@ =~= open + repeated('#', (i + 1) as nat) + repeated('.', 0));
        } else {
            bar.push('.');
            assert(bar@ =~= open + repeated('#', filled as nat) + repeated(
                '.',
                (i + 1 - filled) as nat,
            ));
        }
    }
    bar.append("] ");
    let stored_text = decimal_of(stored as u64);
    bar.append(stored_text.as_str());
    bar.append("/");
    let remote_text = decimal_of(remote_total as u64);
    bar.append(remote_text.as_str());
    bar
}

// ---------------------------------------------------------------------------
// What is told of days and datasets
// ---------------------------------------------------------------------------

/// Whether this is the first day that is written in a key.
pub open spec fn day_written(key: Seq<char>, day: int) -> bool {
    exists|i: int| #[trigger]
        date_at(key, i) && day_at(key, i) == day && forall|j: int| j < i ==> !date_at(key, j)
}

/// Whether a snapshot on the server is one of this day: it is marked with the day, or it is not marked
/// and its key tells the day.
pub open spec fn is_of_day(entry: SnapshotEntry, day: int) -> bool {
    match entry.date {
        Some(date) => date.days == day,
        None => day_written(entry.key@, day),
    }
}

proof fn lemma_day_written(key: Seq<char>, day: int)
    ensures
        date_in(key) == Some(day) <==> day_written(key, day),
{
    lemma_first_date(key);
    if day_written(key, day) {
        let i = choose|i: int| #[trigger]
            date_at(key, i) && day_at(key, i) == day && forall|j: int|
                j < i ==> !date_at(key, j);
        assert(date_position(key) is Some);
        let k = date_position(key)->0;
        if k < i {
            assert(!date_at(key, k));
        }
        if i < k {
            assert(!date_at(key, i));
        }
    }
}

/// Whether a day holds a key: among those on the server, those stored and those missing.
pub open spec fn holds_key(
    day: DayCoverage,
    n: int,
    remote: Seq<SnapshotEntry>,
    local: Seq<String>,
    key: Seq<char>,
) -> bool {
    &&& texts(day.remote_keys@).contains(key) <==> exists|k: int|
        0 <= k < remote.len() && (#[trigger] remote[k]).key@ == key && is_of_day(remote[k], n)
    &&& texts(day.local_keys@).contains(key) <==> day_written(key, n) && texts(local).contains(key)
    &&& texts(day.missing_keys@).contains(key) <==> texts(day.remote_keys@).contains(key) && !texts(
        day.local_keys@,
    ).contains(key)
}

/// The days of a dataset hold their keys.
pub proof fn lemma_covered_day(
    days: Seq<DayCoverage>,
    remote: Seq<SnapshotEntry>,
    local: Seq<String>,
    start: int,
    end: int,
    i: int,
    key: Seq<char>,
)
    requires
        days_cover(days, remote, local, start, end),
        0 <= i < days.len(),
    ensures
        days.len() == end - start + 1,
        days[i].date.days == start + i,
        holds_key(days[i], start + i, remote, local, key),
{
    let coverage = days[i];
    assert(covers(coverage, start + i, remote, local));
    lemma_remote_keys_of_day(coverage.remote_keys@, remote, start + i, key);
    lemma_local_keys_of_day(coverage.local_keys@, local, start + i, key);
    lemma_full_day_is_stored(coverage);
}

/// The days of a dataset are all days from the first to the last, in order. Each holds the keys of the
/// snapshots on the server that are of that day, and the stored keys that tell that day. Missing is
/// what is on the server and not stored.
pub proof fn lemma_days_hold_their_keys(
    remote: Vec<SnapshotEntry>,
    local: Vec<String>,
    start: Date,
    end: Date,
    out: Vec<DayCoverage>,
    i: int,
    key: Seq<char>,
)
    requires
        call_ensures(build_day_coverages, (remote, &local, start, end), out),
        0 <= i < out@.len(),
    ensures
        out@.len() == end.days - start.days + 1,
        out@[i].date.days == start.days + i,
        texts(out@[i].remote_keys@).contains(key) <==> exists|k: int|
            0 <= k < remote@.len() && (#[trigger] remote@[k]).key@ == key && is_of_day(
                remote@[k],
                start.days + i,
            ),
        texts(out@[i].local_keys@).contains(key) <==> day_written(key, start.days + i) && texts(
            local@,
        ).contains(key),
        texts(out@[i].missing_keys@).contains(key) <==> texts(out@[i].remote_keys@).contains(key)
            && !texts(out@[i].local_keys@).contains(key),
        forall|a: int, b: int|
            0 <= a < b < out@[i].remote_keys@.len() ==> !precedes(
                (#[trigger] out@[i].remote_keys@[b])@,
                (#[trigger] out@[i].remote_keys@[a])@,
            ),
{
    let day = start.days + i;
    let coverage = out@[i];
    assert(covers(coverage, day, remote@, local@));
    lemma_remote_keys_of_day(coverage.remote_keys@, remote@, day, key);
    lemma_local_keys_of_day(coverage.local_keys@, local@, day, key);
    lemma_full_day_is_stored(coverage);
    assert forall|a: int, b: int| 0 <= a < b < coverage.remote_keys@.len() implies !precedes(
        (#[trigger] coverage.remote_keys@[b])@,
        (#[trigger] coverage.remote_keys@[a])@,
    ) by {
        assert(!rank_before(coverage.remote_keys@[b].rank(), coverage.remote_keys@[a].rank()));
    }
}

proof fn lemma_remote_keys_of_day(
    keys: Seq<String>,
    remote: Seq<SnapshotEntry>,
    day: int,
    key: Seq<char>,
)
    requires
        sorted_from(keys, remote_on(remote, day)),
    ensures
        texts(keys).contains(key) <==> exists|k: int|
            0 <= k < remote.len() && (#[trigger] remote[k]).key@ == key && is_of_day(
                remote[k],
                day,
            ),
        keys.len() == remote.filter(|entry: SnapshotEntry| snapshot_day(entry) == Some(day)).len(),
{
    let pred = |entry: SnapshotEntry| snapshot_day(entry) == Some(day);
    let some = remote.filter(pred);
    let at = lemma_filter_positions(remote, pred);
    assert forall|k: int| 0 <= k < remote.len() implies (pred(#[trigger] remote[k]) <==> is_of_day(
        remote[k],
        day,
    )) by {
        lemma_day_written(remote[k].key@, day);
    }
    if texts(keys).contains(key) {
        let i = choose|i: int| 0 <= i < texts(keys).len() && texts(keys)[i] == key;
        lemma_sorted_members(keys, remote_on(remote, day), keys[i]);
        assert(keys.contains(keys[i]));
        let j = choose|j: int|
            0 <= j < remote_on(remote, day).len() && remote_on(remote, day)[j] == keys[i];
        assert(remote_on(remote, day)[j] == some[j].key);
        assert(some[j] == remote[at[j]]);
        assert(at.contains(at[j]));
        assert(remote[at[j]].key@ == key);
    }
    if exists|k: int|
        0 <= k < remote.len() && (#[trigger] remote[k]).key@ == key && is_of_day(remote[k], day) {
        let k = choose|k: int|
            0 <= k < remote.len() && (#[trigger] remote[k]).key@ == key && is_of_day(
                remote[k],
                day,
            );
        assert(at.contains(k));
        let j = choose|j: int| 0 <= j < at.len() && at[j] == k;
        assert(some[j] == remote[k]);
        let x = remote_on(remote, day)[j];
        assert(x == remote[k].key);
        assert(remote_on(remote, day).contains(x));
        lemma_sorted_members(keys, remote_on(remote, day), x);
        let i = choose|i: int| 0 <= i < keys.len() && keys[i] == x;
        assert(texts(keys)[i] == key);
    }
}

proof fn lemma_local_keys_of_day(keys: Seq<String>, local: Seq<String>, day: int, key: Seq<char>)
    requires
        sorted_from(keys, local_on(local, day)),
    ensures
        texts(keys).contains(key) <==> day_written(key, day) && texts(local).contains(key),
{
    let pred = |k: String| date_in(k@) == Some(day);
    let some = local.filter(pred);
    let at = lemma_filter_positions(local, pred);
    lemma_day_written(key, day);
    if texts(keys).contains(key) {
        let i = choose|i: int| 0 <= i < texts(keys).len() && texts(keys)[i] == key;
        lemma_sorted_members(keys, some, keys[i]);
        assert(keys.contains(keys[i]));
        let j = choose|j: int| 0 <= j < some.len() && some[j] == keys[i];
        assert(some[j] == local[at[j]]);
        assert(at.contains(at[j]));
        assert(texts(local)[at[j]] == key);
    }
    if day_written(key, day) && texts(local).contains(key) {
        let k = choose|k: int| 0 <= k < texts(local).len() && texts(local)[k] == key;
        assert(pred(local[k]));
        assert(at.contains(k));
        let j = choose|j: int| 0 <= j < at.len() && at[j] == k;
        assert(some[j] == local[k]);
        assert(some.contains(local[k]));
        lemma_sorted_members(keys, some, local[k]);
        let i = choose|i: int| 0 <= i < keys.len() && keys[i] == local[k];
        assert(texts(keys)[i] == key);
    }
}

/// As many keys of a day are listed as snapshots on the server are of that day, none lost and none
/// twice.
pub proof fn lemma_days_count_their_snapshots(
    remote: Vec<SnapshotEntry>,
    local: Vec<String>,
    start: Date,
    end: Date,
    out: Vec<DayCoverage>,
    i: int,
)
    requires
        call_ensures(build_day_coverages, (remote, &local, start, end), out),
        0 <= i < out@.len(),
    ensures
        out@[i].remote_keys@.len() == remote@.filter(
            |entry: SnapshotEntry| is_of_day(entry, start.days + i),
        ).len(),
{
    let day = start.days + i;
    assert(covers(out@[i], day, remote@, local@));
    lemma_same_filter_len(
        remote@,
        |entry: SnapshotEntry| snapshot_day(entry) == Some(day),
        |entry: SnapshotEntry| is_of_day(entry, day),
        day,
    );
}

proof fn lemma_same_filter_len(
    s: Seq<SnapshotEntry>,
    f: spec_fn(SnapshotEntry) -> bool,
    g: spec_fn(SnapshotEntry) -> bool,
    day: int,
)
    requires
        f == (|entry: SnapshotEntry| snapshot_day(entry) == Some(day)),
        g == (|entry: SnapshotEntry| is_of_day(entry, day)),
    ensures
        s.filter(f).len() == s.filter(g).len(),
    decreases s.len(),
{
    reveal(Seq::filter);
    if s.len() > 0 {
        lemma_same_filter_len(s.drop_last(), f, g, day);
        lemma_day_written(s.last().key@, day);
    }
}

/// The day that is selected first has something missing, and no day before it has. Where nothing is
/// missing at all, it is the first day.
pub proof fn lemma_first_day_with_something_missing(days: Vec<DayCoverage>, out: usize)
    requires
        call_ensures(select_initial_day, (&days,), out),
    ensures
        forall|i: int| 0 <= i < out ==> (#[trigger] days@[i]).missing_keys@.len() == 0,
        out < days@.len() && days@[out as int].missing_keys@.len() > 0 || out == 0 && forall|i: int|
            0 <= i < days@.len() ==> (#[trigger] days@[i]).missing_keys@.len() == 0,
{
    lemma_first_incomplete_from(days@, 0);
}

/// From a position on, the first day of which something is missing.
pub proof fn lemma_first_incomplete_from(days: Seq<DayCoverage>, from: int)
    requires
        0 <= from,
    ensures
        ({
            let at = first_incomplete_from(days, from);
            ||| {
                &&& from <= at < days.len()
                &&& days[at].missing_keys@.len() > 0
                &&& forall|i: int| from <= i < at ==> (#[trigger] days[i]).missing_keys@.len() == 0
            }
            ||| at == 0 && forall|i: int|
                from <= i < days.len() ==> (#[trigger] days[i]).missing_keys@.len() == 0
        }),
    decreases days.len() - from,
{
    if from < days.len() && days[from].missing_keys@.len() == 0 {
        lemma_first_incomplete_from(days, from + 1);
    }
}

/// What is told of a day: nothing is on the server, or all of it is stored, or some is missing and
/// nothing at all is stored, or some is missing and something is stored.
pub proof fn lemma_state_of_a_day(day: DayCoverage, out: DayState)
    requires
        call_ensures(DayCoverage::state, (&day,), out),
    ensures
        out == DayState::NoRemote <==> day.remote_keys@.len() == 0,
        out == DayState::Full <==> day.remote_keys@.len() > 0 && day.missing_keys@.len() == 0,
        out == DayState::Empty <==> day.remote_keys@.len() > 0 && day.missing_keys@.len() > 0
            && day.local_keys@.len() == 0,
        out == DayState::Partial <==> day.remote_keys@.len() > 0 && day.missing_keys@.len() > 0
            && day.local_keys@.len() > 0,
{
}

/// The keys that are missing are those on the server that are not stored: all of them, in their order.
/// The answer is where they stand.
pub proof fn lemma_missing_keys(remote: Vec<String>, local: Vec<String>, out: Vec<String>) -> (at: Seq<
    int,
>)
    requires
        call_ensures(diff_missing_snapshot_keys, (remote, &local), out),
    ensures
        growing(at),
        at.len() == out@.len(),
        forall|i: int|
            0 <= i < at.len() ==> 0 <= (#[trigger] at[i]) < remote@.len() && out@[i]@
                == remote@[at[i]]@,
        forall|k: int|
            0 <= k < remote@.len() ==> (#[trigger] at.contains(k) <==> forall|j: int|
                0 <= j < local@.len() ==> (#[trigger] local@[j])@ != remote@[k]@),
{
    let here = texts(remote@);
    let there = texts(local@);
    let at = lemma_filter_positions(here, |key: Seq<char>| !there.contains(key));
    assert(texts(out@).len() == out@.len());
    assert forall|i: int| 0 <= i < at.len() implies 0 <= (#[trigger] at[i]) < remote@.len()
        && out@[i]@ == remote@[at[i]]@ by {
        assert(texts(out@)[i] == out@[i]@);
        assert(here[at[i]] == remote@[at[i]]@);
    }
    assert forall|k: int| 0 <= k < remote@.len() implies (#[trigger] at.contains(k)
        <==> forall|j: int| 0 <= j < local@.len() ==> (#[trigger] local@[j])@ != remote@[k]@) by {
        assert(here[k] == remote@[k]@);
        if there.contains(here[k]) {
            let j = choose|j: int| 0 <= j < there.len() && there[j] == here[k];
            assert(local@[j]@ == remote@[k]@);
        } else {
            assert forall|j: int| 0 <= j < local@.len() implies (#[trigger] local@[j])@
                != remote@[k]@ by {
                assert(there[j] == local@[j]@);
            }
        }
    }
    at
}

/// Whether a stored snapshot belongs to the dataset of this name, as `source:market`.
pub open spec fn belongs_to(entry: LocalSnapshotEntry, id: Seq<char>) -> bool {
    entry.source is Some && entry.market is Some && entry.source->0@ + ":"@ + entry.market->0@ == id
}

proof fn lemma_first_start(s: Seq<LocalSnapshotEntry>)
    ensures
        match first_start(s) {
            None => forall|i: int| 0 <= i < s.len() ==> (#[trigger] s[i]).start is None,
            Some(t) => {
                &&& exists|i: int| 0 <= i < s.len() && (#[trigger] s[i]).start == Some(t)
                &&& forall|i: int|
                    0 <= i < s.len() && (#[trigger] s[i]).start is Some ==> t.not_after(
                        s[i].start->0,
                    )
            },
        },
    decreases s.len(),
{
    if s.len() > 0 {
        let front = s.drop_last();
        lemma_first_start(front);
        assert forall|i: int| 0 <= i < front.len() implies front[i] == #[trigger] s[i] by {}
        if let Some(t) = first_start(s) {
            if s.last().start == Some(t) {
                assert(s[s.len() - 1].start == Some(t));
            } else {
                let i = choose|i: int| 0 <= i < front.len() && (#[trigger] front[i]).start == Some(t);
                assert(s[i].start == Some(t));
            }
        }
    }
}

proof fn lemma_last_end(s: Seq<LocalSnapshotEntry>)
    ensures
        match last_end(s) {
            None => forall|i: int| 0 <= i < s.len() ==> (#[trigger] s[i]).end is None,
            Some(t) => {
                &&& exists|i: int| 0 <= i < s.len() && (#[trigger] s[i]).end == Some(t)
                &&& forall|i: int|
                    0 <= i < s.len() && (#[trigger] s[i]).end is Some ==> s[i].end->0.not_after(t)
            },
        },
    decreases s.len(),
{
    if s.len() > 0 {
        let front = s.drop_last();
        lemma_last_end(front);
        assert forall|i: int| 0 <= i < front.len() implies front[i] == #[trigger] s[i] by {}
        if let Some(t) = last_end(s) {
            if s.last().end == Some(t) {
                assert(s[s.len() - 1].end == Some(t));
            } else {
                let i = choose|i: int| 0 <= i < front.len() && (#[trigger] front[i]).end == Some(t);
                assert(s[i].end == Some(t));
            }
        }
    }
}

/// What is told of a dataset that is stored: how many snapshots of it there are, that none of them
/// starts before the first start and that none ends after the last end. A dataset is told of if and
/// only if something of it is stored.
pub proof fn lemma_summary_of_a_dataset(
    snapshots: Vec<LocalSnapshotEntry>,
    out: TextMap<LocalDatasetSummary>,
    id: Seq<char>,
)
    requires
        call_ensures(summarize_local_snapshots, (&snapshots,), out),
    ensures
        out@.dom().contains(id) <==> exists|i: int|
            0 <= i < snapshots@.len() && belongs_to(#[trigger] snapshots@[i], id),
        out@.dom().contains(id) ==> {
            let summary = out@[id];
            &&& summary.snapshot_count == snapshots@.filter(
                |entry: LocalSnapshotEntry| belongs_to(entry, id),
            ).len()
            &&& forall|i: int|
                0 <= i < snapshots@.len() && belongs_to(#[trigger] snapshots@[i], id) ==> {
                    &&& snapshots@[i].start matches Some(t) ==> summary.first_start is Some
                        && summary.first_start->0.not_after(t)
                    &&& snapshots@[i].end matches Some(t) ==> summary.last_end is Some
                        && t.not_after(summary.last_end->0)
                }
            &&& summary.first_start is Some ==> exists|i: int|
                0 <= i < snapshots@.len() && belongs_to(#[trigger] snapshots@[i], id)
                    && snapshots@[i].start == summary.first_start
            &&& summary.last_end is Some ==> exists|i: int|
                0 <= i < snapshots@.len() && belongs_to(#[trigger] snapshots@[i], id)
                    && snapshots@[i].end == summary.last_end
        },
{
    let all = snapshots@;
    let f = |entry: LocalSnapshotEntry| dataset_id(entry) == Some(id);
    let g = |entry: LocalSnapshotEntry| belongs_to(entry, id);
    let some = stored_of(all, id);
    let at = lemma_filter_positions(all, f);
    assert(f =~= g);
    assert(out@.dom().contains(id) <==> some.len() > 0);
    lemma_first_start(some);
    lemma_last_end(some);
    assert forall|i: int| 0 <= i < all.len() && belongs_to(#[trigger] all[i], id) implies exists|
        j: int,
    | 0 <= j < some.len() && #[trigger] some[j] == all[i] by {
        assert(at.contains(i));
        let j = choose|j: int| 0 <= j < at.len() && at[j] == i;
        assert(some[j] == all[i]);
    }
    assert forall|j: int| 0 <= j < some.len() implies 0 <= at[j] < all.len() && #[trigger] some[j]
        == all[at[j]] && belongs_to(all[at[j]], id) by {
        assert(at.contains(at[j]));
    }
    if some.len() > 0 {
        assert(some[0] == all[at[0]]);
        let summary = out@[id];
        assert(sums_up(summary, some));
        if summary.first_start is Some {
            let j = choose|j: int|
                0 <= j < some.len() && (#[trigger] some[j]).start == summary.first_start;
            assert(belongs_to(all[at[j]], id));
        }
        if summary.last_end is Some {
            let j = choose|j: int| 0 <= j < some.len() && (#[trigger] some[j]).end == summary.last_end;
            assert(belongs_to(all[at[j]], id));
        }
    }
}

/// A bar has as many cells as it is wide. As many of them are filled as comes nearest to the share of
/// what is stored. The answer is how many.
pub proof fn lemma_bar_shows_the_share(local: usize, remote: usize, width: usize, out: String) -> (filled:
    int)
    requires
        call_ensures(render_completion_bar, (local, remote, width), out),
        0 < remote,
    ensures
        ({
            let stored = if local <= remote {
                local as int
            } else {
                remote as int
            };
            &&& 0 <= filled <= width
            &&& -(remote as int) < 2 * (filled * remote - stored * width) <= remote
            &&& out@ == "["@ + repeated('#', filled as nat) + repeated(
                '.',
                (width - filled) as nat,
            ) + "] "@ + decimal(stored as nat) + "/"@ + decimal(remote as nat)
        }),
{
    let stored = if local <= remote {
        local as int
    } else {
        remote as int
    };
    let whole = remote as int;
    let filled = filled_share(stored, whole, width as int);
    lemma_filled_share(stored, whole, width as int);
    let total = stored * width + whole / 2;
    assert(filled == total / whole);
    assert(whole * (total / whole) <= total < whole * (total / whole) + whole) by (nonlinear_arith)
        requires
            whole > 0,
    ;
    assert(filled * whole == whole * filled) by (nonlinear_arith);
    filled
}

/// The stored keys of a dataset are those of its snapshots, as many and in order.
pub proof fn lemma_keys_of_a_dataset(
    snapshots: Vec<LocalSnapshotEntry>,
    out: TextMap<Vec<String>>,
    id: Seq<char>,
    key: Seq<char>,
)
    requires
        call_ensures(group_local_snapshot_keys, (snapshots,), out),
    ensures
        out@.dom().contains(id) <==> exists|i: int|
            0 <= i < snapshots@.len() && belongs_to(#[trigger] snapshots@[i], id),
        out@.dom().contains(id) ==> {
            &&& texts(out@[id]@).contains(key) <==> exists|i: int|
                0 <= i < snapshots@.len() && belongs_to(#[trigger] snapshots@[i], id)
                    && snapshots@[i].key@ == key
            &&& out@[id]@.len() == snapshots@.filter(
                |entry: LocalSnapshotEntry| belongs_to(entry, id),
            ).len()
            &&& forall|a: int, b: int|
                0 <= a < b < out@[id]@.len() ==> !precedes(
                    (#[trigger] out@[id]@[b])@,
                    (#[trigger] out@[id]@[a])@,
                )
        },
{
    let all = snapshots@;
    let f = |entry: LocalSnapshotEntry| dataset_id(entry) == Some(id);
    let g = |entry: LocalSnapshotEntry| belongs_to(entry, id);
    assert(f =~= g);
    let some = stored_of(all, id);
    let at = lemma_filter_positions(all, f);
    let theirs = keys_of(all, id);
    assert(out@.dom().contains(id) <==> some.len() > 0);
    assert forall|i: int| 0 <= i < all.len() && belongs_to(#[trigger] all[i], id) implies exists|
        j: int,
    | 0 <= j < some.len() && #[trigger] some[j] == all[i] by {
        assert(at.contains(i));
        let j = choose|j: int| 0 <= j < at.len() && at[j] == i;
        assert(some[j] == all[i]);
    }
    assert forall|j: int| 0 <= j < some.len() implies 0 <= at[j] < all.len() && #[trigger] some[j]
        == all[at[j]] && belongs_to(all[at[j]], id) by {
        assert(at.contains(at[j]));
    }
    if some.len() > 0 {
        assert(some[0] == all[at[0]]);
        let keys = out@[id]@;
        assert(sorted_from(keys, theirs));
        if texts(keys).contains(key) {
            let i = choose|i: int| 0 <= i < texts(keys).len() && texts(keys)[i] == key;
            assert(keys.contains(keys[i]));
            lemma_sorted_members(keys, theirs, keys[i]);
            let j = choose|j: int| 0 <= j < theirs.len() && theirs[j] == keys[i];
            assert(theirs[j] == some[j].key);
            assert(belongs_to(all[at[j]], id));
        }
        if exists|i: int|
            0 <= i < all.len() && belongs_to(#[trigger] all[i], id) && all[i].key@ == key {
            let i = choose|i: int|
                0 <= i < all.len() && belongs_to(#[trigger] all[i], id) && all[i].key@ == key;
            let j = choose|j: int| 0 <= j < some.len() && #[trigger] some[j] == all[i];
            assert(theirs[j] == all[i].key);
            assert(theirs.contains(all[i].key));
            lemma_sorted_members(keys, theirs, all[i].key);
            let k = choose|k: int| 0 <= k < keys.len() && keys[k] == all[i].key;
            assert(texts(keys)[k] == key);
        }
        assert forall|a: int, b: int| 0 <= a < b < keys.len() implies !precedes(
            (#[trigger] keys[b])@,
            (#[trigger] keys[a])@,
        ) by {
            assert(!rank_before(keys[b].rank(), keys[a].rank()));
        }
    }
}

/// The selections of datasets are all, the bookmarked, and then each category that some dataset has,
/// once and in order.
pub proof fn lemma_selections(datasets: Vec<RemoteDatasetEntry>, out: Vec<BrowserCategory>, name: Seq<char>)
    requires
        call_ensures(browser_categories, (&datasets,), out),
    ensures
        out@.len() >= 2,
        out@[0] is AllDatasets,
        out@[1] is Bookmarks,
        forall|i: int| 2 <= i < out@.len() ==> (#[trigger] out@[i]) is Catalog,
        (exists|i: int| 2 <= i < out@.len() && (#[trigger] out@[i])->Catalog_0@ == name) <==> (exists|
            i: int,
        |
            0 <= i < datasets@.len() && texts(#[trigger] datasets@[i].categories@).contains(name)),
        forall|i: int, j: int|
            2 <= i < j < out@.len() ==> precedes(
                (#[trigger] out@[i])->Catalog_0@,
                (#[trigger] out@[j])->Catalog_0@,
            ),
{
    let names = choose|names: Seq<Seq<char>>|
        {
            &&& #[trigger] increasing_texts(names)
            &&& names.to_set() == all_categories(datasets@)
            &&& category_views(out@) == seq![CategoryView::AllDatasets, CategoryView::Bookmarks]
                + names.map_values(|name: Seq<char>| CategoryView::Catalog(name))
        };
    let views = category_views(out@);
    assert(views.len() == out@.len());
    assert(views[0] == out@[0]@ && views[1] == out@[1]@);
    assert forall|i: int| 2 <= i < out@.len() implies (#[trigger] out@[i]) is Catalog
        && out@[i]->Catalog_0@ == names[i - 2] by {
        assert(views[i] == out@[i]@);
    }
    assert(names.to_set().contains(name) <==> all_categories(datasets@).contains(name));
    if names.contains(name) {
        let k = choose|k: int| 0 <= k < names.len() && names[k] == name;
        assert(out@[k + 2]->Catalog_0@ == name);
    }
    if exists|i: int| 2 <= i < out@.len() && (#[trigger] out@[i])->Catalog_0@ == name {
        let i = choose|i: int| 2 <= i < out@.len() && (#[trigger] out@[i])->Catalog_0@ == name;
        assert(names[i - 2] == name);
        assert(names.contains(name));
    }
}

/// What is told of a day while it is synced adds up: what is stored and what is missing are what is on
/// the server, and what was fetched counts as stored. A day that is not synced is told of as it is.
pub proof fn lemma_totals_of_a_day(
    view: DatasetView,
    day: DayCoverage,
    sync: Option<ActiveDaySync>,
    out: (usize, usize, usize, &'static str),
)
    requires
        call_ensures(sync_adjusted_day_totals, (&view, &day, &sync), out),
    ensures
        ({
            let under_way = sync is Some && sync->0.dataset@ == view.dataset.dataset@
                && sync->0.date == day.date;
            &&& under_way ==> {
                &&& out.1 + out.2 == out.0
                &&& out.0 == sync->0.remote_total
                &&& sync->0.local_present + sync->0.downloaded <= sync->0.remote_total ==> out.1
                    == sync->0.local_present + sync->0.downloaded
            }
            &&& !under_way ==> out.0 == day.remote_keys@.len() && out.1 == day.local_keys@.len()
                && out.2 == day.missing_keys@.len()
        }),
{
}

} // verus!
