//! What is to be fetched.

use crate::api::{CatalogMarket, CatalogResponse, CatalogSource, SnapshotEntry};
use crate::calendar::Timestamp;
use crate::collections::{growing, lemma_filter_positions};
use crate::error::{failure, ErrorView, TickError};
use crate::layout::{data_path, temp_path, Layout};
use crate::text::{concat4, same_text, texts};
use vstd::prelude::*;

verus! {

// ---------------------------------------------------------------------------
// Ranges of time
// ---------------------------------------------------------------------------

/// A range of time, both ends included.
#[derive(Debug, Clone, Copy, PartialEq, Eq, Structural)]
pub struct TimeWindow {
    pub from: Timestamp,
    pub to: Timestamp,
}

impl TimeWindow {
    /// Whether both ends are instants.
    pub open spec fn valid(self) -> bool {
        self.from.valid() && self.to.valid()
    }

    /// Whether an instant lies in the range.
    pub open spec fn holds(self, t: Timestamp) -> bool {
        self.from.not_after(t) && t.not_after(self.to)
    }

    /// The later of two instants.
    pub open spec fn later(a: Timestamp, b: Timestamp) -> Timestamp {
        if a.not_after(b) {
            b
        } else {
            a
        }
    }

    /// The earlier of two instants.
    pub open spec fn earlier(a: Timestamp, b: Timestamp) -> Timestamp {
        if a.not_after(b) {
            a
        } else {
            b
        }
    }

    /// What two ranges have in common.
    pub open spec fn common(a: TimeWindow, b: TimeWindow) -> Option<TimeWindow> {
        let from = TimeWindow::later(a.from, b.from);
        let to = TimeWindow::earlier(a.to, b.to);
        if from.not_after(to) {
            Some(TimeWindow { from, to })
        } else {
            None
        }
    }
}

/// What two ranges have in common.
pub fn intersect_ranges(requested: &TimeWindow, available: &TimeWindow) -> (out: Option<TimeWindow>)
    ensures
        out == TimeWindow::common(*requested, *available),
{
    let from = if requested.from.is_not_after(&available.from) {
        available.from
    } else {
        requested.from
    };
    let to = if requested.to.is_not_after(&available.to) {
        requested.to
    } else {
        available.to
    };
    if from.is_not_after(&to) {
        Some(TimeWindow { from, to })
    } else {
        None
    }
}

/// The common range holds an instant if and only if both ranges do. Where there is no common
/// range, no instant lies in both.
pub proof fn lemma_common_range(a: TimeWindow, b: TimeWindow, t: Timestamp)
    ensures
        (TimeWindow::common(a, b) matches Some(c) && c.holds(t)) <==> a.holds(t) && b.holds(t),
        TimeWindow::common(a, b) == TimeWindow::common(b, a),
{
}

// ---------------------------------------------------------------------------
// The plan
// ---------------------------------------------------------------------------

/// How a snapshot is stored locally.
#[derive(Debug, Clone, Copy, PartialEq, Eq, Structural)]
pub enum LocalSnapshotState {
    Present,
    Missing,
    Incomplete,
}

/// A snapshot of a plan.
#[derive(Debug, PartialEq, Eq)]
pub struct SnapshotPlan {
    pub key: String,
    pub local_path: String,
    pub temp_path: String,
    pub local_size: u64,
    pub state: LocalSnapshotState,
}

impl Clone for SnapshotPlan {
    fn clone(&self) -> (out: SnapshotPlan)
        ensures
            out == *self,
    {
        SnapshotPlan {
            key: self.key.clone(),
            local_path: self.local_path.clone(),
            temp_path: self.temp_path.clone(),
            local_size: self.local_size,
            state: self.state,
        }
    }
}

/// What is to be fetched for a dataset and a range.
#[derive(Debug)]
pub struct SyncPlan {
    pub exchange: String,
    pub asset: String,
    pub requested_range: TimeWindow,
    pub effective_range: TimeWindow,
    pub root: String,
    pub total_remote_bytes: u64,
    pub snapshots: Vec<SnapshotPlan>,
}

/// Those snapshots that are stored.
pub open spec fn present(s: Seq<SnapshotPlan>) -> Seq<SnapshotPlan> {
    s.filter(|p: SnapshotPlan| p.state == LocalSnapshotState::Present)
}

/// Those snapshots that are still to be fetched.
pub open spec fn missing(s: Seq<SnapshotPlan>) -> Seq<SnapshotPlan> {
    s.filter(|p: SnapshotPlan| p.state != LocalSnapshotState::Present)
}

/// The keys of snapshots.
pub open spec fn plan_keys(s: Seq<SnapshotPlan>) -> Seq<Seq<char>> {
    s.map_values(|p: SnapshotPlan| p.key@)
}

/// The size of snapshots together.
pub open spec fn size_of_all(s: Seq<SnapshotPlan>) -> nat
    decreases s.len(),
{
    if s.len() == 0 {
        0
    } else {
        size_of_all(s.drop_last()) + s.last().local_size as nat
    }
}

proof fn lemma_filter_next(s: Seq<SnapshotPlan>, i: int)
    requires
        0 <= i < s.len(),
    ensures
        present(s.take(i + 1)) == (if s[i].state == LocalSnapshotState::Present {
            present(s.take(i)).push(s[i])
        } else {
            present(s.take(i))
        }),
        missing(s.take(i + 1)) == (if s[i].state != LocalSnapshotState::Present {
            missing(s.take(i)).push(s[i])
        } else {
            missing(s.take(i))
        }),
{
    assert(s.take(i + 1).drop_last() =~= s.take(i));
    assert(s.take(i + 1).last() == s[i]);
    reveal(Seq::filter);
}

proof fn lemma_filter_none(s: Seq<SnapshotPlan>)
    ensures
        present(s.take(0)) == Seq::<SnapshotPlan>::empty(),
        missing(s.take(0)) == Seq::<SnapshotPlan>::empty(),
{
    reveal(Seq::filter);
    assert(present(s.take(0)) =~= Seq::empty());
    assert(missing(s.take(0)) =~= Seq::empty());
}

proof fn lemma_size_grows(s: Seq<SnapshotPlan>, i: int)
    requires
        0 <= i <= s.len(),
    ensures
        size_of_all(present(s.take(i))) <= size_of_all(present(s)),
    decreases s.len() - i,
{
    if i < s.len() {
        lemma_filter_next(s, i);
        lemma_size_grows(s, i + 1);
        let before = present(s.take(i));
        assert(before.push(s[i]).drop_last() =~= before);
    } else {
        assert(s.take(i) =~= s);
    }
}

/// Each snapshot of a plan is either stored or still to be fetched.
pub proof fn lemma_present_and_missing(s: Seq<SnapshotPlan>)
    ensures
        present(s).len() + missing(s).len() == s.len(),
        forall|p: SnapshotPlan| s.contains(p) ==> #[trigger] present(s).contains(p) || missing(
            s,
        ).contains(p),
    decreases s.len(),
{
    reveal(Seq::filter);
    if s.len() > 0 {
        lemma_present_and_missing(s.drop_last());
        let a = present(s.drop_last());
        let b = missing(s.drop_last());
        assert forall|p: SnapshotPlan| s.contains(p) implies #[trigger] present(s).contains(p)
            || missing(s).contains(p) by {
            if p == s.last() {
                if p.state == LocalSnapshotState::Present {
                    assert(a.push(p)[a.len() as int] == p);
                } else {
                    assert(b.push(p)[b.len() as int] == p);
                }
            } else {
                let i = choose|i: int| 0 <= i < s.len() && s[i] == p;
                assert(s.drop_last()[i] == p);
                assert(s.drop_last().contains(p));
                assert(a.contains(p) || b.contains(p));
                if a.contains(p) {
                    let k = choose|k: int| 0 <= k < a.len() && a[k] == p;
                    assert(present(s)[k] == p);
                } else {
                    let k = choose|k: int| 0 <= k < b.len() && b[k] == p;
                    assert(missing(s)[k] == p);
                }
            }
        }
    }
}

impl SyncPlan {
    /// The number of snapshots on the server.
    pub fn remote_total(&self) -> (out: usize)
        ensures
            out == self.snapshots@.len(),
    {
        self.snapshots.len()
    }

    /// The number of snapshots that are stored.
    pub fn present_total(&self) -> (out: usize)
        ensures
            out == present(self.snapshots@).len(),
    {
        let ghost all = self.snapshots@;
        let mut out: usize = 0;
        proof {
            lemma_filter_none(all);
        }
        for i in 0..self.snapshots.len()
            invariant
                all == self.snapshots@,
                out == present(all.take(i as int)).len(),
                out <= i,
        {
            proof {
                lemma_filter_next(all, i as int);
            }
            if self.snapshots[i].state == LocalSnapshotState::Present {
                out += 1;
            }
        }
        assert(all.take(all.len() as int) =~= all);
        out
    }

    /// The number of snapshots that are still to be fetched.
    pub fn missing_total(&self) -> (out: usize)
        ensures
            out == missing(self.snapshots@).len(),
    {
        let ghost all = self.snapshots@;
        let mut out: usize = 0;
        proof {
            lemma_filter_none(all);
        }
        for i in 0..self.snapshots.len()
            invariant
                all == self.snapshots@,
                out == missing(all.take(i as int)).len(),
                out <= i,
        {
            proof {
                lemma_filter_next(all, i as int);
            }
            if self.snapshots[i].state != LocalSnapshotState::Present {
                out += 1;
            }
        }
        assert(all.take(all.len() as int) =~= all);
        out
    }

    /// The size of what is stored.
    pub fn present_bytes(&self) -> (out: u64)
        requires
            size_of_all(present(self.snapshots@)) <= u64::MAX,
        ensures
            out == size_of_all(present(self.snapshots@)),
    {
        let ghost all = self.snapshots@;
        let mut out: u64 = 0;
        proof {
            lemma_filter_none(all);
        }
        for i in 0..self.snapshots.len()
            invariant
                all == self.snapshots@,
                size_of_all(present(all)) <= u64::MAX,
                out == size_of_all(present(all.take(i as int))),
        {
            proof {
                lemma_filter_next(all, i as int);
                lemma_size_grows(all, i + 1);
                let before = present(all.take(i as int));
                assert(before.push(all[i as int]).drop_last() =~= before);
            }
            if self.snapshots[i].state == LocalSnapshotState::Present {
                out += self.snapshots[i].local_size;
            }
        }
        assert(all.take(all.len() as int) =~= all);
        out
    }

    /// The size of what is still to be fetched, as far as the server told the whole size.
    pub fn missing_bytes(&self) -> (out: u64)
        requires
            size_of_all(present(self.snapshots@)) <= u64::MAX,
        ensures
            out == (if self.total_remote_bytes >= size_of_all(present(self.snapshots@)) {
                self.total_remote_bytes - size_of_all(present(self.snapshots@))
            } else {
                0
            }),
    {
        self.total_remote_bytes.saturating_sub(self.present_bytes())
    }

    /// The snapshots that are still to be fetched.
    pub fn missing_snapshots(&self) -> (out: Vec<SnapshotPlan>)
        ensures
            out@ == missing(self.snapshots@),
    {
        let ghost all = self.snapshots@;
        let mut out: Vec<SnapshotPlan> = Vec::new();
        proof {
            lemma_filter_none(all);
        }
        for i in 0..self.snapshots.len()
            invariant
                all == self.snapshots@,
                out@ == missing(all.take(i as int)),
        {
            proof {
                lemma_filter_next(all, i as int);
            }
            if self.snapshots[i].state != LocalSnapshotState::Present {
                out.push(self.snapshots[i].clone());
            }
        }
        assert(all.take(all.len() as int) =~= all);
        out
    }

    /// The keys of the snapshots that are still to be fetched.
    pub fn missing_keys(&self) -> (out: Vec<String>)
        ensures
            texts(out@) == plan_keys(missing(self.snapshots@)),
    {
        let wanted = self.missing_snapshots();
        let mut out: Vec<String> = Vec::new();
        for i in 0..wanted.len()
            invariant
                texts(out@) =~= plan_keys(wanted@).take(i as int),
        {
            let ghost before = texts(out@);
            out.push(wanted[i].key.clone());
            assert(texts(out@) =~= before.push(plan_keys(wanted@)[i as int]));
        }
        assert(texts(out@) =~= plan_keys(wanted@));
        out
    }
}

// ---------------------------------------------------------------------------
// Making the plan
// ---------------------------------------------------------------------------

/// The first position of `x`.
pub open spec fn first_position(s: Seq<Seq<char>>, x: Seq<char>) -> Option<int>
    decreases s.len(),
{
    if s.len() == 0 {
        None
    } else {
        match first_position(s.drop_last(), x) {
            Some(i) => Some(i),
            None => if s.last() == x {
                Some(s.len() - 1)
            } else {
                None
            },
        }
    }
}

proof fn lemma_first_position(s: Seq<Seq<char>>, x: Seq<char>, i: int)
    requires
        0 <= i < s.len(),
        s[i] == x,
        first_position(s.take(i), x) is None,
    ensures
        first_position(s, x) == Some(i),
    decreases s.len(),
{
    if i == s.len() - 1 {
        assert(s.take(i) =~= s.drop_last());
    } else {
        assert(s.drop_last().take(i) =~= s.take(i));
        lemma_first_position(s.drop_last(), x, i);
    }
}

/// The names of sources.
pub open spec fn source_ids(s: Seq<CatalogSource>) -> Seq<Seq<char>> {
    s.map_values(|source: CatalogSource| source.id@)
}

/// The names of markets.
pub open spec fn market_ids(s: Seq<CatalogMarket>) -> Seq<Seq<char>> {
    s.map_values(|market: CatalogMarket| market.id@)
}

/// The first dataset `asset` of the first source `exchange`.
pub open spec fn asset_coverage(
    sources: Seq<CatalogSource>,
    exchange: Seq<char>,
    asset: Seq<char>,
) -> Option<CatalogMarket> {
    match first_position(source_ids(sources), exchange) {
        None => None,
        Some(i) => match first_position(market_ids(sources[i].markets@), asset) {
            None => None,
            Some(j) => Some(sources[i].markets@[j]),
        },
    }
}

/// The first source of this name.
fn find_source(sources: &Vec<CatalogSource>, id: &str) -> (out: Option<usize>)
    ensures
        first_position(source_ids(sources@), id@) == (match out {
            Some(i) => Some(i as int),
            None => None,
        }),
        out matches Some(i) ==> i < sources.len(),
{
    let ghost ids = source_ids(sources@);
    for i in 0..sources.len()
        invariant
            ids == source_ids(sources@),
            first_position(ids.take(i as int), id@) is None,
    {
        assert(ids[i as int] == sources@[i as int].id@);
        assert(ids.take(i + 1).drop_last() =~= ids.take(i as int));
        if same_text(sources[i].id.as_str(), id) {
            proof {
                lemma_first_position(ids, id@, i as int);
            }
            return Some(i);
        }
    }
    assert(ids.take(ids.len() as int) =~= ids);
    None
}

/// The first market of this name.
fn find_market(markets: &Vec<CatalogMarket>, id: &str) -> (out: Option<usize>)
    ensures
        first_position(market_ids(markets@), id@) == (match out {
            Some(i) => Some(i as int),
            None => None,
        }),
        out matches Some(i) ==> i < markets.len(),
{
    let ghost ids = market_ids(markets@);
    for i in 0..markets.len()
        invariant
            ids == market_ids(markets@),
            first_position(ids.take(i as int), id@) is None,
    {
        assert(ids[i as int] == markets@[i as int].id@);
        assert(ids.take(i + 1).drop_last() =~= ids.take(i as int));
        if same_text(markets[i].id.as_str(), id) {
            proof {
                lemma_first_position(ids, id@, i as int);
            }
            return Some(i);
        }
    }
    assert(ids.take(ids.len() as int) =~= ids);
    None
}

/// The first dataset `asset` of the first source `exchange`.
pub fn find_asset_coverage<'a>(
    catalog: &'a CatalogResponse,
    exchange: &str,
    asset: &str,
) -> (out: Option<&'a CatalogMarket>)
    ensures
        asset_coverage(catalog.sources@, exchange@, asset@) == (match out {
            Some(market) => Some(*market),
            None => None,
        }),
{
    match find_source(&catalog.sources, exchange) {
        None => None,
        Some(i) => match find_market(&catalog.sources[i].markets, asset) {
            None => None,
            Some(j) => Some(&catalog.sources[i].markets[j]),
        },
    }
}

/// The part of the requested range for which the server has data.
pub fn effective_range(
    catalog: &CatalogResponse,
    exchange: &str,
    asset: &str,
    requested: &TimeWindow,
) -> (out: Result<TimeWindow, TickError>)
    ensures
        match asset_coverage(catalog.sources@, exchange@, asset@) {
            None => failure(out) == Some(
                ErrorView::DatasetUnavailable(
                    "dataset "@ + exchange@ + "/"@ + asset@ + " is not available"@,
                ),
            ),
            Some(market) => match TimeWindow::common(
                *requested,
                TimeWindow { from: market.start, to: market.end },
            ) {
                None => failure(out) == Some(
                    ErrorView::DatasetUnavailable(
                        "requested range does not overlap remote coverage for "@ + exchange@ + "/"@
                            + asset@,
                    ),
                ),
                Some(window) => out matches Ok(w) && w == window,
            },
        },
{
    match find_asset_coverage(catalog, exchange, asset) {
        None => {
            let mut message = concat4("dataset ", exchange, "/", asset);
            message.append(" is not available");
            Err(TickError::DatasetUnavailable(message))
        },
        Some(market) => {
            let available = TimeWindow { from: market.start, to: market.end };
            match intersect_ranges(requested, &available) {
                Some(window) => Ok(window),
                None => Err(
                    TickError::DatasetUnavailable(
                        concat4(
                            "requested range does not overlap remote coverage for ",
                            exchange,
                            "/",
                            asset,
                        ),
                    ),
                ),
            }
        },
    }
}

/// Where a snapshot is stored, and where it is gathered while it is fetched.
#[derive(Debug)]
pub struct SnapshotPlace {
    pub key: String,
    pub local_path: String,
    pub temp_path: String,
}

/// What was found at the two places of a snapshot.
#[derive(Debug, Clone, Copy, PartialEq, Eq, Structural)]
pub struct SnapshotProbe {
    /// Whether there is something at the place where it is gathered.
    pub temp_exists: bool,
    /// The size of what is stored, where there is something.
    pub local_size: Option<u64>,
}

impl SnapshotProbe {
    /// How the snapshot is stored: a file that is still being gathered makes it incomplete, and an
    /// empty file does not count.
    pub open spec fn state(self) -> LocalSnapshotState {
        if self.temp_exists {
            LocalSnapshotState::Incomplete
        } else if self.local_size matches Some(size) && size > 0 {
            LocalSnapshotState::Present
        } else {
            LocalSnapshotState::Missing
        }
    }

    /// The size of what is stored.
    pub open spec fn size(self) -> u64 {
        if self.state() == LocalSnapshotState::Present {
            self.local_size->0
        } else {
            0
        }
    }
}

/// The places of the snapshots on the server. The first key without a place is refused.
pub fn locate_snapshots(layout: &Layout, remote: &Vec<SnapshotEntry>) -> (out: Result<
    Vec<SnapshotPlace>,
    TickError,
>)
    ensures
        match out {
            Ok(places) => {
                &&& places.len() == remote.len()
                &&& forall|i: int|
                    0 <= i < remote.len() ==> {
                        let place = #[trigger] places@[i];
                        &&& place.key@ == remote@[i].key@
                        &&& data_path(layout@, remote@[i].key@) == Ok::<Seq<char>, Seq<char>>(
                            place.local_path@,
                        )
                        &&& place.temp_path@ == temp_path(layout@, remote@[i].key@)
                    }
            },
            Err(error) => exists|i: int|
                {
                    &&& 0 <= i < remote.len()
                    &&& error@ == ErrorView::InvalidArgument(
                        (#[trigger] data_path(layout@, remote@[i].key@))->Err_0,
                    )
                    &&& data_path(layout@, remote@[i].key@) is Err
                    &&& forall|j: int|
                        0 <= j < i ==> data_path(layout@, (#[trigger] remote@[j]).key@) is Ok
                },
        },
{
    let mut places: Vec<SnapshotPlace> = Vec::new();
    for i in 0..remote.len()
        invariant
            places.len() == i,
            forall|j: int|
                0 <= j < i ==> {
                    let place = #[trigger] places@[j];
                    &&& place.key@ == remote@[j].key@
                    &&& data_path(layout@, remote@[j].key@) == Ok::<Seq<char>, Seq<char>>(
                        place.local_path@,
                    )
                    &&& place.temp_path@ == temp_path(layout@, remote@[j].key@)
                },
    {
        let key = remote[i].key.as_str();
        match layout.data_path_for_key(key) {
            Ok(local_path) => {
                let temp_path = layout.temp_path_for_key(key);
                places.push(SnapshotPlace { key: remote[i].key.clone(), local_path, temp_path });
            },
            Err(error) => {
                proof {
                    assert forall|j: int| 0 <= j < i implies data_path(
                        layout@,
                        (#[trigger] remote@[j]).key@,
                    ) is Ok by {
                        assert(places@[j].key@ == remote@[j].key@);
                    }
                    assert(data_path(layout@, remote@[i as int].key@) is Err);
                }
                return Err(error);
            },
        }
    }
    Ok(places)
}

/// The snapshots of a plan, from their places and from what was found there.
pub fn classify_snapshots(places: Vec<SnapshotPlace>, probes: &Vec<SnapshotProbe>) -> (out: Vec<
    SnapshotPlan,
>)
    requires
        places.len() == probes.len(),
    ensures
        out.len() == places.len(),
        forall|i: int|
            0 <= i < places.len() ==> #[trigger] out@[i] == (SnapshotPlan {
                key: places@[i].key,
                local_path: places@[i].local_path,
                temp_path: places@[i].temp_path,
                local_size: probes@[i].size(),
                state: probes@[i].state(),
            }),
{
    let mut out: Vec<SnapshotPlan> = Vec::new();
    let ghost all = places@;
    for place in it: places
        invariant
            it.seq() == all,
            all.len() == probes.len(),
            out.len() == it.index(),
            forall|i: int|
                0 <= i < it.index() ==> #[trigger] out@[i] == (SnapshotPlan {
                    key: all[i].key,
                    local_path: all[i].local_path,
                    temp_path: all[i].temp_path,
                    local_size: probes@[i].size(),
                    state: probes@[i].state(),
                }),
    {
        let probe = probes[out.len()];
        let (state, local_size): (LocalSnapshotState, u64) = if probe.temp_exists {
            (LocalSnapshotState::Incomplete, 0)
        } else {
            match probe.local_size {
                Some(size) => if size > 0 {
                    (LocalSnapshotState::Present, size)
                } else {
                    (LocalSnapshotState::Missing, 0)
                },
                None => (LocalSnapshotState::Missing, 0),
            }
        };
        out.push(
            SnapshotPlan {
                key: place.key,
                local_path: place.local_path,
                temp_path: place.temp_path,
                local_size,
                state,
            },
        );
    }
    out
}

/// The plan for a dataset and a range.
pub fn build_sync_plan(
    exchange: &str,
    asset: &str,
    requested_range: TimeWindow,
    effective_range: TimeWindow,
    root: &str,
    total_remote_bytes: u64,
    snapshots: Vec<SnapshotPlan>,
) -> (out: SyncPlan)
    ensures
        out.exchange@ == exchange@,
        out.asset@ == asset@,
        out.requested_range == requested_range,
        out.effective_range == effective_range,
        out.root@ == root@,
        out.total_remote_bytes == total_remote_bytes,
        out.snapshots@ == snapshots@,
{
    SyncPlan {
        exchange: exchange.to_owned(),
        asset: asset.to_owned(),
        requested_range,
        effective_range,
        root: root.to_owned(),
        total_remote_bytes,
        snapshots,
    }
}

// ---------------------------------------------------------------------------
// What a plan comes to
// ---------------------------------------------------------------------------

/// A snapshot counts as stored if and only if something is at its place, that is not empty, and
/// nothing is left of an attempt to fetch it. What is left of one makes it incomplete. Each snapshot
/// keeps its key and its places, and the order stays.
pub proof fn lemma_what_counts_as_stored(
    places: Vec<SnapshotPlace>,
    probes: Vec<SnapshotProbe>,
    out: Vec<SnapshotPlan>,
    i: int,
)
    requires
        call_ensures(classify_snapshots, (places, &probes), out),
        places@.len() == probes@.len(),
        0 <= i < places@.len(),
    ensures
        out@.len() == places@.len(),
        out@[i].key == places@[i].key,
        out@[i].local_path == places@[i].local_path,
        out@[i].temp_path == places@[i].temp_path,
        out@[i].state == LocalSnapshotState::Present <==> !probes@[i].temp_exists
            && probes@[i].local_size is Some && probes@[i].local_size->0 > 0,
        out@[i].state == LocalSnapshotState::Incomplete <==> probes@[i].temp_exists,
        out@[i].local_size == (if out@[i].state == LocalSnapshotState::Present {
            probes@[i].local_size->0
        } else {
            0
        }),
{
}

/// What is to be fetched are the snapshots of the plan that are not stored: all of them, each once, in
/// their order. The answer is where they stand.
pub proof fn lemma_what_is_fetched(
    plan: SyncPlan,
    wanted: Vec<SnapshotPlan>,
    keys: Vec<String>,
    present_count: usize,
    missing_count: usize,
) -> (at: Seq<int>)
    requires
        call_ensures(SyncPlan::missing_snapshots, (&plan,), wanted),
        call_ensures(SyncPlan::missing_keys, (&plan,), keys),
        call_ensures(SyncPlan::present_total, (&plan,), present_count),
        call_ensures(SyncPlan::missing_total, (&plan,), missing_count),
    ensures
        growing(at),
        at.len() == wanted@.len(),
        at.len() == keys@.len(),
        at.len() == missing_count,
        present_count + missing_count == plan.snapshots@.len(),
        forall|i: int|
            0 <= i < at.len() ==> {
                &&& 0 <= (#[trigger] at[i]) < plan.snapshots@.len()
                &&& wanted@[i] == plan.snapshots@[at[i]]
                &&& keys@[i]@ == plan.snapshots@[at[i]].key@
            },
        forall|k: int|
            0 <= k < plan.snapshots@.len() ==> (#[trigger] at.contains(k)
                <==> plan.snapshots@[k].state == LocalSnapshotState::Missing
                || plan.snapshots@[k].state == LocalSnapshotState::Incomplete),
{
    let all = plan.snapshots@;
    lemma_present_and_missing(all);
    let at = lemma_filter_positions(
        all,
        |p: SnapshotPlan| p.state != LocalSnapshotState::Present,
    );
    assert(texts(keys@) == plan_keys(missing(all)));
    assert(texts(keys@).len() == keys@.len());
    assert forall|i: int| 0 <= i < at.len() implies keys@[i]@ == all[#[trigger] at[i]].key@ by {
        assert(texts(keys@)[i] == keys@[i]@);
        assert(plan_keys(missing(all))[i] == missing(all)[i].key@);
    }
    at
}

/// The size of what is stored grows by the size of each stored snapshot, and by nothing else.
pub proof fn lemma_stored_size(s: Seq<SnapshotPlan>, more: SnapshotPlan)
    ensures
        size_of_all(present(Seq::empty())) == 0,
        size_of_all(present(s.push(more))) == size_of_all(present(s)) + (if more.state
            == LocalSnapshotState::Present {
            more.local_size as nat
        } else {
            0
        }),
{
    let all = s.push(more);
    lemma_filter_none(s);
    assert(s.take(0) =~= Seq::empty());
    lemma_filter_next(all, s.len() as int);
    assert(all.take(s.len() as int) =~= s);
    assert(all.take(all.len() as int) =~= all);
    assert(present(s).push(more).drop_last() =~= present(s));
}

/// What is stored and what is still to come are together what the server told, where it told enough.
pub proof fn lemma_sizes_add_up(plan: SyncPlan, stored: u64, to_come: u64)
    requires
        call_ensures(SyncPlan::present_bytes, (&plan,), stored),
        call_ensures(SyncPlan::missing_bytes, (&plan,), to_come),
    ensures
        stored == size_of_all(present(plan.snapshots@)),
        stored <= plan.total_remote_bytes ==> stored + to_come == plan.total_remote_bytes,
        stored > plan.total_remote_bytes ==> to_come == 0,
{
}

proof fn lemma_first_position_means(s: Seq<Seq<char>>, x: Seq<char>)
    ensures
        match first_position(s, x) {
            Some(i) => 0 <= i < s.len() && s[i] == x && forall|j: int|
                0 <= j < i ==> (#[trigger] s[j]) != x,
            None => forall|j: int| 0 <= j < s.len() ==> (#[trigger] s[j]) != x,
        },
    decreases s.len(),
{
    if s.len() > 0 {
        let front = s.drop_last();
        lemma_first_position_means(front, x);
        match first_position(s, x) {
            Some(i) => {
                assert forall|j: int| 0 <= j < i implies (#[trigger] s[j]) != x by {
                    assert(front[j] == s[j]);
                }
            },
            None => {
                assert forall|j: int| 0 <= j < s.len() implies (#[trigger] s[j]) != x by {
                    if j < front.len() {
                        assert(front[j] == s[j]);
                    }
                }
            },
        }
    }
}

/// The dataset that is found has the name that was asked for, in the first source of the name that was
/// asked for, and none before it has. Where none is found, there is no such source, or the first such
/// source has no such dataset.
pub proof fn lemma_dataset_is_found(
    catalog: CatalogResponse,
    exchange: &str,
    asset: &str,
    out: Option<&CatalogMarket>,
)
    requires
        call_ensures(find_asset_coverage, (&catalog, exchange, asset), out),
    ensures
        match out {
            Some(market) => exists|i: int, j: int|
                {
                    &&& 0 <= i < catalog.sources@.len()
                    &&& 0 <= j < catalog.sources@[i].markets@.len()
                    &&& catalog.sources@[i].id@ == exchange@
                    &&& forall|k: int|
                        0 <= k < i ==> (#[trigger] catalog.sources@[k]).id@ != exchange@
                    &&& *market == #[trigger] catalog.sources@[i].markets@[j]
                    &&& market.id@ == asset@
                },
            None => forall|i: int, j: int|
                {
                    &&& 0 <= i < catalog.sources@.len()
                    &&& 0 <= j < catalog.sources@[i].markets@.len()
                    &&& catalog.sources@[i].id@ == exchange@
                    &&& forall|k: int|
                        0 <= k < i ==> (#[trigger] catalog.sources@[k]).id@ != exchange@
                } ==> (#[trigger] catalog.sources@[i].markets@[j]).id@ != asset@,
        },
{
    let all = catalog.sources@;
    let ids = source_ids(all);
    lemma_first_position_means(ids, exchange@);
    match first_position(ids, exchange@) {
        None => {
            assert forall|i: int| 0 <= i < all.len() implies (#[trigger] all[i]).id@
                != exchange@ by {
                assert(ids[i] == all[i].id@);
            }
        },
        Some(i) => {
            assert forall|k: int| 0 <= k < i implies (#[trigger] all[k]).id@ != exchange@ by {
                assert(ids[k] == all[k].id@);
            }
            assert(ids[i] == all[i].id@);
            let markets = all[i].markets@;
            let names = market_ids(markets);
            lemma_first_position_means(names, asset@);
            match first_position(names, asset@) {
                Some(j) => {
                    assert(names[j] == markets[j].id@);
                    assert(*out->0 == all[i].markets@[j]);
                },
                None => {
                    assert forall|a: int, j: int|
                        {
                            &&& 0 <= a < all.len()
                            &&& 0 <= j < all[a].markets@.len()
                            &&& all[a].id@ == exchange@
                            &&& forall|k: int| 0 <= k < a ==> (#[trigger] all[k]).id@ != exchange@
                        } implies (#[trigger] all[a].markets@[j]).id@ != asset@ by {
                        if a < i {
                            assert(all[a].id@ != exchange@);
                        }
                        if i < a {
                            assert(all[i].id@ != exchange@);
                        }
                        assert(names[j] == markets[j].id@);
                    }
                },
            }
        },
    }
}

/// What is fetched of a dataset are the instants that were asked for and that the server has: an
/// instant lies in the range if and only if it lies in both. Where there is none, and where there is no
/// such dataset, the dataset is unavailable.
pub proof fn lemma_effective_range(
    catalog: CatalogResponse,
    exchange: &str,
    asset: &str,
    requested: TimeWindow,
    market: Option<&CatalogMarket>,
    out: Result<TimeWindow, TickError>,
    t: Timestamp,
)
    requires
        call_ensures(find_asset_coverage, (&catalog, exchange, asset), market),
        call_ensures(effective_range, (&catalog, exchange, asset, &requested), out),
    ensures
        out is Err ==> out->Err_0 is DatasetUnavailable,
        market is None ==> out is Err,
        market matches Some(market) ==> {
            let wanted = requested.from.not_after(t) && t.not_after(requested.to)
                && market.start.not_after(t) && t.not_after(market.end);
            &&& out matches Ok(window) ==> (window.from.not_after(t) && t.not_after(window.to)
                <==> wanted)
            &&& out is Err ==> !wanted
        },
{
}

/// Each snapshot on the server is given its own places: where its key says that it is stored, and where
/// it is gathered. One key without a place refuses them all.
pub proof fn lemma_snapshots_are_located(
    layout: Layout,
    remote: Vec<SnapshotEntry>,
    out: Result<Vec<SnapshotPlace>, TickError>,
    i: int,
    key: &str,
    stored: Result<String, TickError>,
    gathered: String,
)
    requires
        call_ensures(locate_snapshots, (&layout, &remote), out),
        0 <= i < remote@.len(),
        key@ == remote@[i].key@,
        call_ensures(Layout::data_path_for_key, (&layout, key), stored),
        call_ensures(Layout::temp_path_for_key, (&layout, key), gathered),
    ensures
        out matches Ok(places) ==> {
            &&& places@.len() == remote@.len()
            &&& places@[i].key@ == key@
            &&& stored is Ok && places@[i].local_path@ == stored->Ok_0@
            &&& places@[i].temp_path@ == gathered@
        },
        stored is Err ==> out is Err,
{
    if let Ok(places) = out {
        assert(places@[i].key@ == remote@[i].key@);
    }
}

} // verus!
