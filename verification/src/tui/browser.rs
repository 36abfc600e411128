//! The state of the browser.

use crate::collections::{increasing_texts, TextMap, TextSet};
use crate::config::{ApiKeySource, Config};
use crate::error::TickError;
use crate::layout::LocalSnapshotEntry;
use crate::text::{concat2, is_listed, lower, lowered, opt_text, same_text, without_last};
use crate::tui::coverage::{
    all_categories, browser_categories, group_local_snapshot_keys, keys_grouped, summaries_of,
    summarize_local_snapshots,
};
use crate::tui::model::{
    category_views, AccountIdentity, AccountStep, AccountView, ActiveDaySync, ApiKeyPromptState,
    BrowserCategory, CategoryView, DatasetEntryView, LocalDatasetSummary, RemoteDatasetEntry,
    RemoteTuiSeed, ViewMode,
};
use vstd::prelude::*;

verus! {

/// The state of the browser.
#[derive(Debug)]
pub struct RemoteListTui {
    pub datasets: Vec<RemoteDatasetEntry>,
    /// The positions of the datasets that are listed.
    pub filtered_indices: Vec<usize>,
    /// The position of the selected dataset in the list.
    pub selected: usize,
    pub search: String,
    pub categories: Vec<BrowserCategory>,
    pub selected_category: usize,
    pub bookmarks: TextSet,
    /// The bookmarks with which the session began. They are listed first.
    pub session_priority_bookmarks: TextSet,
    pub local_summaries: TextMap<LocalDatasetSummary>,
    pub local_keys: TextMap<Vec<String>>,
    pub root: String,
    pub concurrency: usize,
    pub status_message: Option<String>,
    pub active_sync: Option<ActiveDaySync>,
    pub spinner_tick: usize,
    pub mode: ViewMode,
    pub account_view: AccountView,
    pub api_key_prompt: Option<ApiKeyPromptState>,
}

// ---------------------------------------------------------------------------
// Models
// ---------------------------------------------------------------------------

/// The numbers below `n` that are wanted, in order.
pub open spec fn picked(wanted: spec_fn(int) -> bool, n: nat) -> Seq<int>
    decreases n,
{
    if n == 0 {
        seq![]
    } else if wanted(n - 1) {
        picked(wanted, (n - 1) as nat).push(n - 1)
    } else {
        picked(wanted, (n - 1) as nat)
    }
}

/// The numbers of a list.
pub open spec fn positions(v: Seq<usize>) -> Seq<int> {
    v.map_values(|i: usize| i as int)
}

/// Whether a dataset belongs to a category.
pub open spec fn in_category(
    entry: DatasetEntryView,
    category: CategoryView,
    bookmarks: Set<Seq<char>>,
) -> bool {
    match category {
        CategoryView::AllDatasets => true,
        CategoryView::Bookmarks => bookmarks.contains(entry.dataset),
        CategoryView::Catalog(name) => entry.categories.contains(name),
    }
}

/// The first position in `list` of a dataset of this name.
pub open spec fn position_of(
    list: Seq<usize>,
    datasets: Seq<RemoteDatasetEntry>,
    name: Seq<char>,
    from: int,
) -> Option<int>
    decreases list.len() - from,
{
    if from < 0 || from >= list.len() {
        None
    } else if datasets[list[from] as int].dataset@ == name {
        Some(from)
    } else {
        position_of(list, datasets, name, from + 1)
    }
}

/// The selected position in a new list: the dataset that was selected, where it is listed, and else the
/// old position, as far as the list goes.
pub open spec fn reselected(
    list: Seq<usize>,
    datasets: Seq<RemoteDatasetEntry>,
    name: Option<Seq<char>>,
    selected: int,
) -> int {
    if list.len() == 0 {
        0
    } else if name is Some && position_of(list, datasets, name->0, 0) is Some {
        position_of(list, datasets, name->0, 0)->0
    } else if selected >= list.len() {
        list.len() - 1
    } else {
        selected
    }
}

/// A set with a text put in, or taken out where it is there.
pub open spec fn toggled(s: Set<Seq<char>>, x: Seq<char>) -> Set<Seq<char>> {
    if s.contains(x) {
        s.remove(x)
    } else {
        s.insert(x)
    }
}

/// Toggling twice changes nothing.
pub proof fn lemma_toggle_twice(s: Set<Seq<char>>, x: Seq<char>)
    ensures
        toggled(toggled(s, x), x) == s,
{
    assert(toggled(toggled(s, x), x) =~= s);
}

impl RemoteListTui {
    /// Whether a dataset is listed.
    pub open spec fn shows(self, i: int) -> bool {
        &&& in_category(
            self.datasets@[i]@,
            self.categories@[self.selected_category as int]@,
            self.bookmarks@,
        )
        &&& self.datasets@[i]@.found_by(self.search@)
    }

    /// Whether a dataset is listed first.
    pub open spec fn leads(self, i: int) -> bool {
        self.session_priority_bookmarks@.contains(self.datasets@[i].dataset@)
    }

    /// The list: the datasets of the category that the search finds, those bookmarked when the session
    /// began before the others, each in the order of the catalog.
    pub open spec fn listing(self) -> Seq<int> {
        picked(|i: int| self.shows(i) && self.leads(i), self.datasets@.len()) + picked(
            |i: int| self.shows(i) && !self.leads(i),
            self.datasets@.len(),
        )
    }

    /// Whether everything that the state names exists.
    pub open spec fn sound(self) -> bool {
        &&& forall|i: int| 0 <= i < self.datasets@.len() ==> (#[trigger] self.datasets@[i])@.valid()
        &&& self.selected_category < self.categories@.len()
        &&& self.bookmarks.valid()
        &&& self.session_priority_bookmarks.valid()
        &&& self.local_summaries.valid()
        &&& self.local_keys.valid()
        &&& forall|i: int|
            0 <= i < self.filtered_indices@.len() ==> (#[trigger] self.filtered_indices@[i])
                < self.datasets@.len()
        &&& self.mode matches ViewMode::Dataset(view) ==> view.valid()
        &&& self.active_sync matches Some(sync) ==> sync.date.valid() && sync.local_present
            + sync.downloaded <= usize::MAX
    }

    /// Whether the state is sound, the list is up to date and the selection lies in it.
    pub open spec fn valid(self) -> bool {
        &&& self.sound()
        &&& positions(self.filtered_indices@) == self.listing()
        &&& if self.filtered_indices@.len() == 0 {
            self.selected == 0
        } else {
            self.selected < self.filtered_indices@.len()
        }
    }

    /// The selected dataset.
    pub open spec fn current(self) -> Option<RemoteDatasetEntry> {
        if self.selected < self.filtered_indices@.len()
            && self.filtered_indices@[self.selected as int] < self.datasets@.len() {
            Some(self.datasets@[self.filtered_indices@[self.selected as int] as int])
        } else {
            None
        }
    }

    /// Whether `after`, with its new list, keeps the selection: the dataset that was selected, where it
    /// is listed, and else the old position, as far as the list goes.
    pub open spec fn keeps_selection(self, after: RemoteListTui) -> bool {
        after.selected == reselected(
            after.filtered_indices@,
            self.datasets@,
            match self.current() {
                Some(entry) => Some(entry.dataset@),
                None => None,
            },
            self.selected as int,
        )
    }

    /// The name of the dataset that the screen is about.
    pub open spec fn current_name(self) -> Option<Seq<char>> {
        match self.mode {
            ViewMode::Dataset(view) => Some(view.dataset.dataset@),
            _ => match self.current() {
                Some(entry) => Some(entry.dataset@),
                None => None,
            },
        }
    }
}

proof fn lemma_picked_below(wanted: spec_fn(int) -> bool, n: nat)
    ensures
        forall|k: int|
            0 <= k < picked(wanted, n).len() ==> 0 <= #[trigger] picked(wanted, n)[k] < n && wanted(
                picked(wanted, n)[k],
            ),
        picked(wanted, n).len() <= n,
    decreases n,
{
    if n > 0 {
        lemma_picked_below(wanted, (n - 1) as nat);
    }
}

proof fn lemma_picked_has(wanted: spec_fn(int) -> bool, n: nat, i: int)
    requires
        0 <= i < n,
        wanted(i),
    ensures
        picked(wanted, n).contains(i),
    decreases n,
{
    let before = picked(wanted, (n - 1) as nat);
    if i == n - 1 {
        assert(before.push(n - 1)[before.len() as int] == i);
    } else {
        lemma_picked_has(wanted, (n - 1) as nat, i);
        let k = choose|k: int| 0 <= k < before.len() && before[k] == i;
        assert(picked(wanted, n)[k] == i);
    }
}

/// The list holds exactly the datasets of the category that the search finds.
pub proof fn lemma_listing_is_complete(app: RemoteListTui, i: int)
    requires
        0 <= i < app.datasets@.len(),
    ensures
        app.listing().contains(i) <==> app.shows(i),
{
    let n = app.datasets@.len();
    let first = |i: int| app.shows(i) && app.leads(i);
    let rest = |i: int| app.shows(i) && !app.leads(i);
    let a = picked(first, n);
    let b = picked(rest, n);
    lemma_picked_below(first, n);
    lemma_picked_below(rest, n);
    if app.shows(i) {
        if app.leads(i) {
            lemma_picked_has(first, n, i);
            let k = choose|k: int| 0 <= k < a.len() && a[k] == i;
            assert((a + b)[k] == i);
        } else {
            lemma_picked_has(rest, n, i);
            let k = choose|k: int| 0 <= k < b.len() && b[k] == i;
            assert((a + b)[a.len() + k] == i);
        }
    }
    if app.listing().contains(i) {
        let k = choose|k: int| 0 <= k < app.listing().len() && app.listing()[k] == i;
        if k < a.len() {
            assert(a[k] == i);
        } else {
            assert(b[k - a.len()] == i);
        }
    }
}

// ---------------------------------------------------------------------------
// The list
// ---------------------------------------------------------------------------

impl RemoteListTui {
    /// The selected dataset.
    pub fn selected_dataset(&self) -> (out: Option<&RemoteDatasetEntry>)
        ensures
            self.current() == (match out {
                Some(entry) => Some(*entry),
                None => None,
            }),
    {
        if self.selected < self.filtered_indices.len() {
            let i: usize = self.filtered_indices[self.selected];
            if i < self.datasets.len() {
                return Some(&self.datasets[i]);
            }
        }
        None
    }

    /// The selected category.
    pub fn selected_category(&self) -> (out: &BrowserCategory)
        requires
            self.selected_category < self.categories@.len(),
        ensures
            *out == self.categories@[self.selected_category as int],
    {
        &self.categories[self.selected_category]
    }

    /// Whether a dataset is bookmarked.
    pub fn is_bookmarked(&self, dataset: &str) -> (res: bool)
        requires
            self.bookmarks.valid(),
        ensures
            res == self.bookmarks@.contains(dataset@),
    {
        self.bookmarks.contains(dataset)
    }

    /// Whether a dataset belongs to the selected category.
    fn matches_current_category(&self, dataset: &RemoteDatasetEntry) -> (res: bool)
        requires
            self.sound(),
        ensures
            res == in_category(
                dataset@,
                self.categories@[self.selected_category as int]@,
                self.bookmarks@,
            ),
    {
        match self.selected_category() {
            BrowserCategory::AllDatasets => true,
            BrowserCategory::Bookmarks => self.is_bookmarked(dataset.dataset.as_str()),
            BrowserCategory::Catalog(category) => is_listed(&dataset.categories, category.as_str()),
        }
    }

    /// The list of the datasets that belong on it.
    fn list_datasets(&self) -> (out: Vec<usize>)
        requires
            self.sound(),
        ensures
            positions(out@) == self.listing(),
            forall|i: int| 0 <= i < out@.len() ==> (#[trigger] out@[i]) < self.datasets@.len(),
    {
        let ghost first = |i: int| self.shows(i) && self.leads(i);
        let ghost rest = |i: int| self.shows(i) && !self.leads(i);
        let mut leading: Vec<usize> = Vec::new();
        let mut others: Vec<usize> = Vec::new();
        assert(positions(leading@) =~= picked(first, 0));
        assert(positions(others@) =~= picked(rest, 0));
        for i in 0..self.datasets.len()
            invariant
                self.sound(),
                first == (|i: int| self.shows(i) && self.leads(i)),
                rest == (|i: int| self.shows(i) && !self.leads(i)),
                positions(leading@) == picked(first, i as nat),
                positions(others@) == picked(rest, i as nat),
        {
            let entry = &self.datasets[i];
            assert(self.datasets@[i as int]@.valid());
            let ghost a = positions(leading@);
            let ghost b = positions(others@);
            if self.matches_current_category(entry) && entry.matches_search(self.search.as_str()) {
                if self.session_priority_bookmarks.contains(entry.dataset.as_str()) {
                    leading.push(i);
                    assert(positions(leading@) =~= a.push(i as int));
                } else {
                    others.push(i);
                    assert(positions(others@) =~= b.push(i as int));
                }
            }
        }
        let ghost a = positions(leading@);
        let ghost b = positions(others@);
        leading.append(&mut others);
        proof {
            assert(positions(leading@) =~= a + b);
            lemma_picked_below(first, self.datasets@.len());
            lemma_picked_below(rest, self.datasets@.len());
            assert forall|i: int| 0 <= i < leading@.len() implies (#[trigger] leading@[i])
                < self.datasets@.len() by {
                assert(positions(leading@)[i] == leading@[i]);
                if i < a.len() {
                    assert(positions(leading@)[i] == a[i]);
                } else {
                    assert(positions(leading@)[i] == b[i - a.len()]);
                }
            }
        }
        leading
    }

    /// The first position in the list of a dataset of this name.
    fn find_in_list(&self, name: &str) -> (out: Option<usize>)
        requires
            self.sound(),
        ensures
            position_of(self.filtered_indices@, self.datasets@, name@, 0) == (match out {
                Some(i) => Some(i as int),
                None => None,
            }),
            out matches Some(i) ==> i < self.filtered_indices@.len(),
    {
        for i in 0..self.filtered_indices.len()
            invariant
                self.sound(),
                position_of(self.filtered_indices@, self.datasets@, name@, 0) == position_of(
                    self.filtered_indices@,
                    self.datasets@,
                    name@,
                    i as int,
                ),
        {
            let at: usize = self.filtered_indices[i];
            if same_text(self.datasets[at].dataset.as_str(), name) {
                return Some(i);
            }
        }
        None
    }

    /// Makes the list anew. The selected dataset stays selected where it is still listed.
    pub fn recompute_filter(&mut self)
        requires
            old(self).sound(),
        ensures
            final(self).valid(),
            *final(self) == (RemoteListTui {
                filtered_indices: final(self).filtered_indices,
                selected: final(self).selected,
                ..*old(self)
            }),
            old(self).keeps_selection(*final(self)),
    {
        let name = match self.selected_dataset() {
            Some(entry) => Some(entry.dataset.clone()),
            None => None,
        };
        let list = self.list_datasets();
        self.filtered_indices = list;
        proof {
            lemma_listing_frame(*self, *old(self));
        }
        if self.filtered_indices.len() == 0 {
            self.selected = 0;
            proof {
                lemma_listing_frame(*self, *old(self));
            }
            return;
        }
        let found: Option<usize> = match &name {
            Some(name) => self.find_in_list(name.as_str()),
            None => None,
        };
        match found {
            Some(position) => {
                self.selected = position;
            },
            None => {
                if self.selected >= self.filtered_indices.len() {
                    self.selected = self.filtered_indices.len() - 1;
                }
            },
        }
        proof {
            lemma_listing_frame(*self, *old(self));
        }
    }
}

proof fn lemma_same_picked(f: spec_fn(int) -> bool, g: spec_fn(int) -> bool, n: nat)
    requires
        forall|i: int| 0 <= i < n ==> #[trigger] f(i) == g(i),
    ensures
        picked(f, n) == picked(g, n),
    decreases n,
{
    if n > 0 {
        lemma_same_picked(f, g, (n - 1) as nat);
        assert(f(n - 1) == g(n - 1));
    }
}

/// The list depends on the datasets, the search, the category and the bookmarks alone.
pub proof fn lemma_listing_frame(a: RemoteListTui, b: RemoteListTui)
    requires
        a.datasets == b.datasets,
        a.search == b.search,
        a.categories == b.categories,
        a.selected_category == b.selected_category,
        a.bookmarks == b.bookmarks,
        a.session_priority_bookmarks == b.session_priority_bookmarks,
    ensures
        a.listing() == b.listing(),
{
    let n = a.datasets@.len();
    lemma_same_picked(
        |i: int| a.shows(i) && a.leads(i),
        |i: int| b.shows(i) && b.leads(i),
        n,
    );
    lemma_same_picked(
        |i: int| a.shows(i) && !a.leads(i),
        |i: int| b.shows(i) && !b.leads(i),
        n,
    );
}

// ---------------------------------------------------------------------------
// The beginning
// ---------------------------------------------------------------------------

/// Where the API key comes from, in words.
pub open spec fn key_source_words(source: Option<ApiKeySource>) -> Seq<char> {
    match source {
        Some(ApiKeySource::Environment) => "POLARIS_API_KEY environment variable"@,
        Some(ApiKeySource::CredentialStore) => "stored credential"@,
        None => "not configured"@,
    }
}

/// Where the API key comes from, in words.
fn runtime_api_key_source_label(source: Option<ApiKeySource>) -> (out: &'static str)
    ensures
        out@ == key_source_words(source),
{
    match source {
        Some(ApiKeySource::Environment) => "POLARIS_API_KEY environment variable",
        Some(ApiKeySource::CredentialStore) => "stored credential",
        None => "not configured",
    }
}

impl RemoteListTui {
    /// The browser as it starts. Bookmarks that could not be read count as none, and the status line
    /// tells it.
    pub fn new(
        datasets: Vec<RemoteDatasetEntry>,
        local_snapshots: Vec<LocalSnapshotEntry>,
        root: String,
        concurrency: usize,
        seed: RemoteTuiSeed,
        bookmarks: Result<TextSet, TickError>,
    ) -> (out: RemoteListTui)
        requires
            forall|i: int| 0 <= i < datasets@.len() ==> (#[trigger] datasets@[i])@.valid(),
            bookmarks matches Ok(set) ==> set.valid(),
        ensures
            out.valid(),
            out.datasets@ == datasets@,
            out.search@ == seed.first_search(),
            out.selected == 0,
            out.selected_category == 0,
            exists|names: Seq<Seq<char>>|
                {
                    &&& #[trigger] increasing_texts(names)
                    &&& names.to_set() == all_categories(datasets@)
                    &&& category_views(out.categories@) == seq![
                        CategoryView::AllDatasets,
                        CategoryView::Bookmarks,
                    ] + names.map_values(|name: Seq<char>| CategoryView::Catalog(name))
                },
            out.bookmarks@ == (match bookmarks {
                Ok(set) => set@,
                Err(_) => Set::empty(),
            }),
            out.session_priority_bookmarks@ == out.bookmarks@,
            summaries_of(out.local_summaries@, local_snapshots@),
            keys_grouped(out.local_keys@, local_snapshots@),
            out.root@ == root@,
            out.concurrency == concurrency,
            opt_text(out.status_message) == (match bookmarks {
                Ok(_) => None,
                Err(error) => Some("warning: failed to load bookmarks: "@ + error@.text()),
            }),
            out.active_sync is None,
            out.spinner_tick == 0,
            out.mode is Splash,
            !out.account_view.api_key_present,
            out.account_view.api_key_source_label@ == key_source_words(None),
            out.account_view.base_url@ == "https://api.polaris.supply"@,
            out.account_view.root@ == root@,
            out.account_view.active_login is None,
            out.account_view.identity is None,
            out.api_key_prompt is None,
    {
        let search = seed.into_search();
        let (bookmarks, status_message) = match bookmarks {
            Ok(set) => (set, None),
            Err(error) => {
                let text = error.text();
                (
                    TextSet::new(),
                    Some(concat2("warning: failed to load bookmarks: ", text.as_str())),
                )
            },
        };
        let local_summaries = summarize_local_snapshots(&local_snapshots);
        let local_keys = group_local_snapshot_keys(local_snapshots);
        let categories = browser_categories(&datasets);
        let account_view = AccountView {
            api_key_present: false,
            api_key_source_label: runtime_api_key_source_label(None).to_owned(),
            base_url: "https://api.polaris.supply".to_owned(),
            root: root.clone(),
            active_login: None,
            identity: None,
        };
        let session = bookmarks.clone();
        let mut app = RemoteListTui {
            datasets,
            filtered_indices: Vec::new(),
            selected: 0,
            search,
            categories,
            selected_category: 0,
            bookmarks,
            session_priority_bookmarks: session,
            local_summaries,
            local_keys,
            root,
            concurrency,
            status_message,
            active_sync: None,
            spinner_tick: 0,
            mode: ViewMode::Splash,
            account_view,
            api_key_prompt: None,
        };
        assert(category_views(app.categories@).len() == app.categories@.len());
        app.recompute_filter();
        app
    }

    /// Shows the settings on the account page. A known identity counts only with an API key.
    pub fn apply_runtime_config(&mut self, config: &Config, identity: Option<AccountIdentity>)
        requires
            old(self).valid(),
        ensures
            final(self).valid(),
            *final(self) == (RemoteListTui {
                account_view: final(self).account_view,
                ..*old(self)
            }),
            final(self).account_view.api_key_present == (config.api_key is Some),
            final(self).account_view.api_key_source_label@ == key_source_words(
                config.api_key_source,
            ),
            final(self).account_view.base_url@ == config.base_url@,
            final(self).account_view.root@ == config.root@,
            final(self).account_view.active_login is None,
            final(self).account_view.identity == (if config.api_key is Some {
                identity
            } else {
                None
            }),
    {
        self.account_view = AccountView {
            api_key_present: config.api_key.is_some(),
            api_key_source_label: runtime_api_key_source_label(config.api_key_source).to_owned(),
            base_url: config.base_url.clone(),
            root: config.root.clone(),
            active_login: None,
            identity: if config.api_key.is_some() {
                identity
            } else {
                None
            },
        };
        proof {
            lemma_listing_frame(*self, *old(self));
        }
    }

    // -----------------------------------------------------------------------
    // Moving about
    // -----------------------------------------------------------------------

    /// Selects the dataset above.
    pub fn move_up(&mut self)
        requires
            old(self).valid(),
        ensures
            final(self).valid(),
            *final(self) == (RemoteListTui {
                selected: if old(self).selected > 0 {
                    (old(self).selected - 1) as usize
                } else {
                    0
                },
                ..*old(self)
            }),
    {
        if self.selected > 0 {
            self.selected -= 1;
        }
        proof {
            lemma_listing_frame(*self, *old(self));
        }
    }

    /// Selects the dataset below.
    pub fn move_down(&mut self)
        requires
            old(self).valid(),
        ensures
            final(self).valid(),
            *final(self) == (RemoteListTui {
                selected: if old(self).selected + 1 < old(self).filtered_indices@.len() {
                    (old(self).selected + 1) as usize
                } else {
                    old(self).selected
                },
                ..*old(self)
            }),
    {
        let count: usize = self.filtered_indices.len();
        if count > 0 && self.selected < count - 1 {
            self.selected += 1;
        }
        proof {
            lemma_listing_frame(*self, *old(self));
        }
    }

    /// Selects the category so many places on, round and round.
    pub fn cycle_category(&mut self, delta: isize)
        requires
            old(self).valid(),
        ensures
            final(self).valid(),
            *final(self) == (RemoteListTui {
                filtered_indices: final(self).filtered_indices,
                selected: final(self).selected,
                selected_category: final(self).selected_category,
                ..*old(self)
            }),
            final(self).selected_category == (old(self).selected_category + delta) % (old(
                self,
            ).categories@.len() as int),
            if final(self).selected_category == old(self).selected_category {
                final(self).selected == old(self).selected
            } else {
                old(self).keeps_selection(*final(self))
            },
    {
        let count: i128 = self.categories.len() as i128;
        let sum: i128 = self.selected_category as i128 + delta as i128;
        let next: usize = match sum.checked_rem_euclid(count) {
            Some(next) => next as usize,
            None => self.selected_category,
        };
        if next != self.selected_category {
            self.selected_category = next;
            self.recompute_filter();
        } else {
            proof {
                lemma_listing_frame(*self, *old(self));
            }
        }
    }

    /// The names of the categories in lower case, from the selected one on, round and round.
    pub fn category_display_labels(&self) -> (out: Vec<String>)
        requires
            self.selected_category < self.categories@.len(),
        ensures
            out@.len() == self.categories@.len(),
            forall|i: int|
                0 <= i < out@.len() ==> (#[trigger] out@[i])@ == lower(
                    self.categories@[(self.selected_category + i) % (out@.len() as int)]@.label(),
                ),
    {
        let count: usize = self.categories.len();
        let mut out: Vec<String> = Vec::new();
        let mut at: usize = self.selected_category;
        proof {
            vstd::arithmetic::div_mod::lemma_small_mod(
                self.selected_category as nat,
                count as nat,
            );
        }
        for i in 0..count
            invariant
                count == self.categories@.len(),
                self.selected_category < count,
                at == (self.selected_category + i) % (count as int),
                at < count,
                out@.len() == i,
                forall|j: int|
                    0 <= j < i ==> (#[trigger] out@[j])@ == lower(
                        self.categories@[(self.selected_category + j) % (count as int)]@.label(),
                    ),
        {
            out.push(lowered(self.categories[at].label()));
            proof {
                let a = self.selected_category + i;
                let n = count as int;
                assert((a + 1) % n == if a % n == n - 1 { 0 } else { a % n + 1 }) by (nonlinear_arith)
                    requires
                        n > 0,
                        a >= 0,
                ;
            }
            at = if at == count - 1 { 0 } else { at + 1 };
        }
        out
    }

    /// What the key for the account does: elsewhere it shows the account page. There it goes on in
    /// the user's browser, with the account, with the login that is under way, or with a new one.
    pub fn account_step(&self) -> (out: AccountStep)
        ensures
            match self.mode {
                ViewMode::Account => if self.account_view.api_key_present {
                    out matches AccountStep::OpenUrl(url) && url@
                        == "https://polaris.supply/account"@
                } else {
                    match self.account_view.active_login {
                        Some(login) => out matches AccountStep::OpenUrl(url) && url@
                            == login.login_url@,
                        None => out is StartLogin,
                    }
                },
                _ => out is ShowAccount,
            },
    {
        match &self.mode {
            ViewMode::Account => {},
            _ => {
                return AccountStep::ShowAccount;
            },
        }
        if self.account_view.api_key_present {
            return AccountStep::OpenUrl("https://polaris.supply/account".to_owned());
        }
        match &self.account_view.active_login {
            Some(login) => AccountStep::OpenUrl(login.login_url.clone()),
            None => AccountStep::StartLogin,
        }
    }

    /// Shows the account page.
    pub fn open_account_view(&mut self)
        requires
            old(self).valid(),
        ensures
            final(self).valid(),
            *final(self) == (RemoteListTui { mode: ViewMode::Account, ..*old(self) }),
    {
        self.mode = ViewMode::Account;
        proof {
            lemma_listing_frame(*self, *old(self));
        }
    }

    /// Shows the list.
    pub fn open_browser_view(&mut self)
        requires
            old(self).valid(),
        ensures
            final(self).valid(),
            *final(self) == (RemoteListTui { mode: ViewMode::Browser, ..*old(self) }),
    {
        self.mode = ViewMode::Browser;
        proof {
            lemma_listing_frame(*self, *old(self));
        }
    }

    /// Shows a message in the status line.
    pub fn set_status(&mut self, message: Option<String>)
        requires
            old(self).valid(),
        ensures
            final(self).valid(),
            *final(self) == (RemoteListTui { status_message: message, ..*old(self) }),
    {
        self.status_message = message;
        proof {
            lemma_listing_frame(*self, *old(self));
        }
    }

    /// Puts a character at the end of the search.
    pub fn push_search_char(&mut self, c: char)
        requires
            old(self).valid(),
        ensures
            final(self).valid(),
            final(self).search@ == old(self).search@.push(c),
            *final(self) == (RemoteListTui {
                search: final(self).search,
                filtered_indices: final(self).filtered_indices,
                selected: final(self).selected,
                ..*old(self)
            }),
            old(self).keeps_selection(*final(self)),
    {
        self.search.push(c);
        self.recompute_filter();
    }

    /// Takes the last character of the search away.
    pub fn pop_search_char(&mut self)
        requires
            old(self).valid(),
        ensures
            final(self).valid(),
            final(self).search@ == (if old(self).search@.len() > 0 {
                old(self).search@.drop_last()
            } else {
                old(self).search@
            }),
            *final(self) == (RemoteListTui {
                search: final(self).search,
                filtered_indices: final(self).filtered_indices,
                selected: final(self).selected,
                ..*old(self)
            }),
            old(self).keeps_selection(*final(self)),
    {
        self.search = without_last(self.search.as_str());
        self.recompute_filter();
    }

    // -----------------------------------------------------------------------
    // Bookmarks
    // -----------------------------------------------------------------------

    /// The name of the dataset that the screen is about.
    pub fn current_dataset_id(&self) -> (out: Option<String>)
        ensures
            opt_text(out) == self.current_name(),
    {
        match &self.mode {
            ViewMode::Dataset(view) => Some(view.dataset.dataset.clone()),
            _ => match self.selected_dataset() {
                Some(entry) => Some(entry.dataset.clone()),
                None => None,
            },
        }
    }

    /// The bookmarks as they are once the current dataset was bookmarked, or was so no more, and what
    /// is then said. They are to be saved before they are shown.
    pub fn bookmark_toggle(&self) -> (out: Option<BookmarkToggle>)
        requires
            self.valid(),
        ensures
            out is Some <==> self.current_name() is Some,
            out matches Some(toggle) ==> {
                let name = self.current_name()->0;
                &&& toggle.bookmarks.valid()
                &&& toggle.bookmarks@ == toggled(self.bookmarks@, name)
                &&& toggle.message@ == (if self.bookmarks@.contains(name) {
                    "removed bookmark for "@ + name
                } else {
                    "bookmarked "@ + name
                })
            },
    {
        match self.current_dataset_id() {
            None => None,
            Some(dataset) => {
                let mut next = self.bookmarks.clone();
                let message = if next.insert(dataset.clone()) {
                    concat2("bookmarked ", dataset.as_str())
                } else {
                    next.remove(dataset.as_str());
                    assert(next@ =~= self.bookmarks@.remove(dataset@));
                    concat2("removed bookmark for ", dataset.as_str())
                };
                Some(BookmarkToggle { bookmarks: next, message })
            },
        }
    }

    /// Shows bookmarks that were saved. The list keeps its order for this session.
    pub fn toggle_current_bookmark(&mut self, toggle: BookmarkToggle)
        requires
            old(self).valid(),
            toggle.bookmarks.valid(),
        ensures
            final(self).valid(),
            *final(self) == (RemoteListTui {
                bookmarks: toggle.bookmarks,
                status_message: Some(toggle.message),
                filtered_indices: final(self).filtered_indices,
                selected: final(self).selected,
                ..*old(self)
            }),
            old(self).keeps_selection(*final(self)),
    {
        self.bookmarks = toggle.bookmarks;
        self.status_message = Some(toggle.message);
        self.recompute_filter();
    }
}

/// A bookmark that is set or removed leaves the list as it is, but for the list of the bookmarks itself.
pub proof fn lemma_bookmarks_keep_the_order(a: RemoteListTui, b: RemoteListTui)
    requires
        a.datasets == b.datasets,
        a.search == b.search,
        a.categories == b.categories,
        a.selected_category == b.selected_category,
        a.session_priority_bookmarks == b.session_priority_bookmarks,
        !(a.categories@[a.selected_category as int]@ is Bookmarks),
    ensures
        a.listing() == b.listing(),
{
    let n = a.datasets@.len();
    lemma_same_picked(
        |i: int| a.shows(i) && a.leads(i),
        |i: int| b.shows(i) && b.leads(i),
        n,
    );
    lemma_same_picked(
        |i: int| a.shows(i) && !a.leads(i),
        |i: int| b.shows(i) && !b.leads(i),
        n,
    );
}

/// Bookmarks that are to be saved and then shown, with what is then said.
#[derive(Debug)]
pub struct BookmarkToggle {
    pub bookmarks: TextSet,
    pub message: String,
}

/// Going on by some categories and back by as many comes to the category where it began.
pub proof fn lemma_cycle_back(selected: int, delta: int, count: int)
    requires
        0 <= selected < count,
    ensures
        ((selected + delta) % count - delta) % count == selected,
{
    vstd::arithmetic::div_mod::lemma_add_mod_noop_right(-delta, selected + delta, count);
    vstd::arithmetic::div_mod::lemma_small_mod(selected as nat, count as nat);
}

// ---------------------------------------------------------------------------
// What is listed and selected
// ---------------------------------------------------------------------------

/// A dataset is listed if and only if it belongs to the selected category and the search finds it. To
/// all datasets belongs every one, to the bookmarks each that is bookmarked, and to a category of the
/// catalog each that has it.
pub proof fn lemma_what_is_listed(app: RemoteListTui, i: int, search: &str, found: bool)
    requires
        app.valid(),
        0 <= i < app.datasets@.len(),
        search@ == app.search@,
        call_ensures(
            RemoteDatasetEntry::matches_search,
            (&app.datasets@[i], search),
            found,
        ),
    ensures
        (exists|k: int|
            0 <= k < app.filtered_indices@.len() && #[trigger] app.filtered_indices@[k] == i) <==> {
            &&& found
            &&& match app.categories@[app.selected_category as int] {
                BrowserCategory::AllDatasets => true,
                BrowserCategory::Bookmarks => app.bookmarks@.contains(app.datasets@[i].dataset@),
                BrowserCategory::Catalog(name) => exists|j: int|
                    0 <= j < app.datasets@[i].categories@.len()
                        && (#[trigger] app.datasets@[i].categories@[j])@ == name@,
            }
        },
{
    lemma_listing_is_complete(app, i);
    let all = positions(app.filtered_indices@);
    assert(all == app.listing());
    if all.contains(i) {
        let k = choose|k: int| 0 <= k < all.len() && all[k] == i;
        assert(app.filtered_indices@[k] == i);
    }
    if exists|k: int| 0 <= k < app.filtered_indices@.len() && #[trigger] app.filtered_indices@[k] == i {
        let k = choose|k: int|
            0 <= k < app.filtered_indices@.len() && #[trigger] app.filtered_indices@[k] == i;
        assert(all[k] == i);
    }
    if let BrowserCategory::Catalog(name) = app.categories@[app.selected_category as int] {
        let theirs = app.datasets@[i].categories@;
        let names = app.datasets@[i]@.categories;
        if names.contains(name@) {
            let j = choose|j: int| 0 <= j < names.len() && names[j] == name@;
            assert(theirs[j]@ == name@);
        }
        if exists|j: int| 0 <= j < theirs.len() && (#[trigger] theirs[j])@ == name@ {
            let j = choose|j: int| 0 <= j < theirs.len() && (#[trigger] theirs[j])@ == name@;
            assert(names[j] == name@);
        }
    }
}

proof fn lemma_picked_grows(wanted: spec_fn(int) -> bool, n: nat)
    ensures
        forall|i: int, j: int|
            0 <= i < j < picked(wanted, n).len() ==> #[trigger] picked(wanted, n)[i]
                < #[trigger] picked(wanted, n)[j],
    decreases n,
{
    if n > 0 {
        lemma_picked_grows(wanted, (n - 1) as nat);
        lemma_picked_below(wanted, (n - 1) as nat);
    }
}

/// The list keeps the order of the catalog, but for the datasets that were bookmarked when the session
/// began: these stand before all others. Nothing is listed twice.
pub proof fn lemma_order_of_the_list(app: RemoteListTui, i: int, j: int)
    requires
        app.valid(),
        0 <= i < j < app.filtered_indices@.len(),
    ensures
        ({
            let a = app.filtered_indices@[i];
            let b = app.filtered_indices@[j];
            let first_a = app.session_priority_bookmarks@.contains(
                app.datasets@[a as int].dataset@,
            );
            let first_b = app.session_priority_bookmarks@.contains(
                app.datasets@[b as int].dataset@,
            );
            &&& first_b ==> first_a
            &&& first_a == first_b ==> a < b
            &&& a != b
        }),
{
    let n = app.datasets@.len();
    let f = |i: int| app.shows(i) && app.leads(i);
    let g = |i: int| app.shows(i) && !app.leads(i);
    let first = picked(f, n);
    let rest = picked(g, n);
    lemma_picked_below(f, n);
    lemma_picked_below(g, n);
    lemma_picked_grows(f, n);
    lemma_picked_grows(g, n);
    let all = positions(app.filtered_indices@);
    assert(all == first + rest);
    assert(all[i] == app.filtered_indices@[i] && all[j] == app.filtered_indices@[j]);
    if j < first.len() {
        assert(all[i] == first[i] && all[j] == first[j]);
    } else if i >= first.len() {
        assert(all[i] == rest[i - first.len()] && all[j] == rest[j - first.len()]);
    } else {
        assert(all[i] == first[i] && all[j] == rest[j - first.len()]);
    }
}

proof fn lemma_position_of(
    list: Seq<usize>,
    datasets: Seq<RemoteDatasetEntry>,
    name: Seq<char>,
    from: int,
)
    requires
        0 <= from,
    ensures
        match position_of(list, datasets, name, from) {
            Some(i) => from <= i < list.len() && datasets[list[i] as int].dataset@ == name,
            None => forall|i: int|
                from <= i < list.len() ==> datasets[(#[trigger] list[i]) as int].dataset@ != name,
        },
    decreases list.len() - from,
{
    if from < list.len() && datasets[list[from] as int].dataset@ != name {
        lemma_position_of(list, datasets, name, from + 1);
    }
}

/// When the list changes, the dataset that was selected stays selected where it is still listed. Where
/// it is not, the selection stays at its place, as far as the list goes.
pub proof fn lemma_selection_stays(before: RemoteListTui, after: RemoteListTui)
    requires
        before.keeps_selection(after),
        after.datasets@ == before.datasets@,
        after.sound(),
        after.filtered_indices@.len() > 0,
        before.current() is Some,
    ensures
        ({
            let name = before.current()->0.dataset@;
            let listed = exists|i: int|
                0 <= i < after.filtered_indices@.len()
                    && after.datasets@[(#[trigger] after.filtered_indices@[i]) as int].dataset@
                    == name;
            &&& after.current() is Some
            &&& listed ==> after.current()->0.dataset@ == name
            &&& !listed && before.selected < after.filtered_indices@.len() ==> after.selected
                == before.selected
            &&& !listed && before.selected >= after.filtered_indices@.len() ==> after.selected
                == after.filtered_indices@.len() - 1
        }),
{
    let name = before.current()->0.dataset@;
    lemma_position_of(after.filtered_indices@, after.datasets@, name, 0);
    assert(after.filtered_indices@[after.selected as int] < after.datasets@.len());
}

/// Setting or removing a bookmark changes it for the dataset that the screen is about and for no other.
pub proof fn lemma_bookmark_of_one_dataset(app: RemoteListTui, out: Option<BookmarkToggle>, name: Seq<char>)
    requires
        app.valid(),
        call_ensures(RemoteListTui::bookmark_toggle, (&app,), out),
    ensures
        out matches Some(toggle) ==> {
            let current = match app.mode {
                ViewMode::Dataset(view) => view.dataset.dataset@,
                _ => app.datasets@[app.filtered_indices@[app.selected as int] as int].dataset@,
            };
            &&& name == current ==> toggle.bookmarks@.contains(name) != app.bookmarks@.contains(name)
            &&& name != current ==> toggle.bookmarks@.contains(name) == app.bookmarks@.contains(name)
        },
        out is None ==> !(app.mode is Dataset) && app.filtered_indices@.len() == 0,
{
    if app.filtered_indices@.len() > 0 {
        assert(app.filtered_indices@[app.selected as int] < app.datasets@.len());
    }
}

/// What is typed into the search is searched for at once: the list is that of the new search, and the
/// selected dataset stays selected where it is still listed.
pub proof fn lemma_typing_narrows_the_list(app: &mut RemoteListTui, c: char)
    requires
        old(app).valid(),
        call_ensures(RemoteListTui::push_search_char, (app, c), ()),
    ensures
        final(app).valid(),
        final(app).search@ == old(app).search@.push(c),
        final(app).datasets == old(app).datasets && final(app).bookmarks == old(app).bookmarks,
        old(app).keeps_selection(*final(app)),
{
}

/// Bookmarks that were saved are shown, and the list is that of the new bookmarks.
pub proof fn lemma_bookmarks_are_shown(app: &mut RemoteListTui, toggle: BookmarkToggle)
    requires
        old(app).valid(),
        call_ensures(RemoteListTui::toggle_current_bookmark, (app, toggle), ()),
        toggle.bookmarks.valid(),
    ensures
        final(app).valid(),
        final(app).bookmarks@ == toggle.bookmarks@,
        final(app).session_priority_bookmarks == old(app).session_priority_bookmarks,
        final(app).status_message is Some && final(app).status_message->0@ == toggle.message@,
        final(app).search == old(app).search && final(app).mode == old(app).mode,
{
}

/// The account page shows the settings: whether there is an API key, and where it comes from. Who is
/// signed in is shown only with a key.
pub proof fn lemma_settings_are_shown(
    app: &mut RemoteListTui,
    config: Config,
    identity: Option<AccountIdentity>,
)
    requires
        old(app).valid(),
        call_ensures(RemoteListTui::apply_runtime_config, (app, &config, identity), ()),
    ensures
        final(app).account_view.api_key_present <==> config.api_key is Some,
        final(app).account_view.identity is Some ==> config.api_key is Some && final(
            app
        ).account_view.identity == identity,
        config.api_key is Some ==> final(app).account_view.identity == identity,
        final(app).account_view.root@ == config.root@,
        final(app).account_view.base_url@ == config.base_url@,
        config.api_key_source is None ==> final(app).account_view.api_key_source_label@
            == "not configured"@,
        config.api_key_source == Some(ApiKeySource::CredentialStore) ==> final(
            app
        ).account_view.api_key_source_label@ == "stored credential"@,
{
}

} // verus!
