//! The things that the browser shows.

use crate::api::{AccountResponse, DatasetAccess, DatasetAccessStatus};
use crate::calendar::{date_text, Date, Timestamp};
use crate::collections::TextSet;
use crate::order::Ranked;
use crate::syncer::SyncProgressEvent;
use crate::text::{
    after_prefix, concat3, contains, copy_texts, has_text, is_before, join_texts, joined,
    lemma_lower_char, lemma_lower_contains, lemma_one_word, lemma_reads_around_blank,
    lemma_reads_joined, lemma_words_apart, lower, lower_char, lowered, occurs_at, opt_text, reads, reads_at,
    same_letter, same_text, starts_with, texts, white, words, words_of,
};
use vstd::prelude::*;

verus! {

// ---------------------------------------------------------------------------
// Datasets
// ---------------------------------------------------------------------------

/// A dataset on the server.
#[derive(Debug, PartialEq, Eq)]
pub struct RemoteDatasetEntry {
    pub source: String,
    pub market: String,
    pub start: Timestamp,
    pub end: Timestamp,
    pub catalog_source: Option<String>,
    pub access: Option<DatasetAccess>,
    pub categories: Vec<String>,
    pub dataset: String,
}

/// What is known of a dataset on the server.
pub struct DatasetEntryView {
    pub source: Seq<char>,
    pub market: Seq<char>,
    pub start: Timestamp,
    pub end: Timestamp,
    pub catalog_source: Option<Seq<char>>,
    pub access: Option<DatasetAccess>,
    pub categories: Seq<Seq<char>>,
    pub dataset: Seq<char>,
}

impl View for RemoteDatasetEntry {
    type V = DatasetEntryView;

    open spec fn view(&self) -> DatasetEntryView {
        DatasetEntryView {
            source: self.source@,
            market: self.market@,
            start: self.start,
            end: self.end,
            catalog_source: opt_text(self.catalog_source),
            access: self.access,
            categories: texts(self.categories@),
            dataset: self.dataset@,
        }
    }
}

impl Clone for RemoteDatasetEntry {
    fn clone(&self) -> (out: RemoteDatasetEntry)
        ensures
            out@ == self@,
    {
        RemoteDatasetEntry {
            source: self.source.clone(),
            market: self.market.clone(),
            start: self.start,
            end: self.end,
            catalog_source: self.catalog_source.clone(),
            access: self.access,
            categories: copy_texts(&self.categories),
            dataset: self.dataset.clone(),
        }
    }
}

impl DatasetEntryView {
    /// Whether the instants and days of the dataset exist.
    pub open spec fn valid(self) -> bool {
        &&& self.start.valid()
        &&& self.end.valid()
        &&& self.access matches Some(access) ==> access.valid()
    }

    /// One word for who may fetch the dataset.
    pub open spec fn status_label(self) -> Seq<char> {
        match self.access {
            Some(access) => match access.status {
                DatasetAccessStatus::Open => "public"@,
                DatasetAccessStatus::Preview => "preview"@,
                DatasetAccessStatus::Restricted => "restricted"@,
            },
            None => "unknown"@,
        }
    }

    /// Who may fetch the dataset, with `lead` before a cutoff date.
    pub open spec fn access_label(self, lead: Seq<char>) -> Seq<char> {
        match self.access {
            Some(access) => access.label(lead),
            None => "unknown"@,
        }
    }

    /// The place in lists: open, preview, restricted, unknown.
    pub open spec fn access_order(self) -> int {
        match self.access {
            Some(access) => match access.status {
                DatasetAccessStatus::Open => 0,
                DatasetAccessStatus::Preview => 1,
                DatasetAccessStatus::Restricted => 2,
            },
            None => 255,
        }
    }

    /// Who may fetch which part of the dataset.
    pub open spec fn access_explained(self) -> Seq<char> {
        match self.access {
            None => "unknown"@,
            Some(access) => match access.status {
                DatasetAccessStatus::Open => "public: all history publicly available"@,
                DatasetAccessStatus::Restricted => "restricted: API key required for all history"@,
                DatasetAccessStatus::Preview => match access.public_cutoff_date {
                    Some(date) => "preview: public from "@ + date_text(date.days as int)
                        + " onward, API key required before that"@,
                    None =>
                        "preview: only recent history is public, older data requires an API key"@,
                },
            },
        }
    }

    /// The text that a search looks through.
    pub open spec fn haystack(self) -> Seq<char> {
        lower(
            self.dataset + " "@ + (match self.catalog_source {
                Some(source) => source,
                None => seq![],
            }) + " "@ + joined(self.categories, " "@) + " "@ + self.access_label("preview "@),
        )
    }

    /// Whether one word of a search fits: `access:` asks for one kind of access, any other word for
    /// its being somewhere in the text.
    pub open spec fn word_fits(self, word: Seq<char>) -> bool {
        if starts_with(word, "access:"@) {
            self.access is Some && self.status_label() == word.skip("access:"@.len() as int)
        } else {
            contains(self.haystack(), word)
        }
    }

    /// Whether every word of a search fits. Case does not matter.
    pub open spec fn found_by(self, search: Seq<char>) -> bool {
        let wanted = words(lower(search));
        forall|i: int| 0 <= i < wanted.len() ==> self.word_fits(#[trigger] wanted[i])
    }
}

impl Ranked for RemoteDatasetEntry {
    open spec fn rank(&self) -> (int, Seq<char>) {
        (self@.access_order(), self.dataset@)
    }

    fn ranks_before(&self, other: &RemoteDatasetEntry) -> (res: bool) {
        let a: u8 = self.access_sort_order();
        let b: u8 = other.access_sort_order();
        a < b || (a == b && is_before(self.dataset.as_str(), other.dataset.as_str()))
    }
}

impl RemoteDatasetEntry {
    /// One word in brackets for who may fetch the dataset.
    pub fn access_badge(&self) -> (out: String)
        ensures
            out@ == "["@ + self@.status_label() + "]"@,
    {
        let label = match &self.access {
            Some(access) => access.status_label(),
            None => "unknown",
        };
        concat3("[", label, "]")
    }

    /// Who may fetch the dataset.
    pub fn access_summary(&self) -> (out: String)
        requires
            self@.valid(),
        ensures
            out@ == self@.access_label("preview from "@),
    {
        match &self.access {
            Some(access) => access.summary_label(),
            None => "unknown".to_owned(),
        }
    }

    /// Who may fetch which part of the dataset.
    pub fn access_details(&self) -> (out: String)
        requires
            self@.valid(),
        ensures
            out@ == self@.access_explained(),
    {
        match &self.access {
            None => "unknown".to_owned(),
            Some(access) => match access.status {
                DatasetAccessStatus::Open => "public: all history publicly available".to_owned(),
                DatasetAccessStatus::Restricted =>
                    "restricted: API key required for all history".to_owned(),
                DatasetAccessStatus::Preview => match access.public_cutoff_date {
                    Some(date) => {
                        let day = date.text();
                        concat3(
                            "preview: public from ",
                            day.as_str(),
                            " onward, API key required before that",
                        )
                    },
                    None =>
                        "preview: only recent history is public, older data requires an API key".to_owned(),
                },
            },
        }
    }

    /// The place in lists.
    pub fn access_sort_order(&self) -> (out: u8)
        ensures
            out == self@.access_order(),
    {
        match &self.access {
            Some(access) => access.sort_order(),
            None => 255,
        }
    }

    /// The text that a search looks through.
    fn search_haystack(&self) -> (out: String)
        requires
            self@.valid(),
        ensures
            out@ == self@.haystack(),
    {
        let mut text = self.dataset.clone();
        text.append(" ");
        match &self.catalog_source {
            Some(source) => {
                text.append(source.as_str());
            },
            None => {
                assert(text@ + seq![] =~= text@);
            },
        }
        text.append(" ");
        let categories = join_texts(&self.categories, " ");
        text.append(categories.as_str());
        text.append(" ");
        let access = match &self.access {
            Some(access) => access.search_text(),
            None => "unknown".to_owned(),
        };
        text.append(access.as_str());
        lowered(text.as_str())
    }

    /// Whether every word of a search fits.
    pub fn matches_search(&self, search: &str) -> (res: bool)
        requires
            self@.valid(),
        ensures
            res == self@.found_by(search@),
    {
        let normalized = lowered(search);
        let wanted = words_of(normalized.as_str());
        let ghost all = words(lower(search@));
        let haystack = self.search_haystack();
        for i in 0..wanted.len()
            invariant
                self@.valid(),
                all == texts(wanted@),
                all == words(lower(search@)),
                haystack@ == self@.haystack(),
                forall|j: int| 0 <= j < i ==> self@.word_fits(#[trigger] all[j]),
        {
            let word = wanted[i].as_str();
            assert(word@ == all[i as int]);
            let fits = match after_prefix(word, "access:") {
                Some(status) => match &self.access {
                    Some(access) => same_text(access.status_label(), status.as_str()),
                    None => false,
                },
                None => has_text(haystack.as_str(), word),
            };
            if !fits {
                assert(!self@.word_fits(all[i as int]));
                return false;
            }
        }
        true
    }
}

/// A search for nothing finds every dataset.
pub proof fn lemma_empty_search_finds_all(entry: DatasetEntryView, search: Seq<char>)
    requires
        words(lower(search)).len() == 0,
    ensures
        entry.found_by(search),
{
}

/// The words in which a search finds the access of a dataset.
pub open spec fn access_words(access: Option<DatasetAccess>) -> Seq<char> {
    match access {
        None => "unknown"@,
        Some(access) => if access.status == DatasetAccessStatus::Open {
            "public"@
        } else if access.status == DatasetAccessStatus::Restricted {
            "restricted"@
        } else if access.public_cutoff_date is Some {
            "preview "@ + date_text(access.public_cutoff_date->0.days as int)
        } else {
            "preview"@
        },
    }
}

/// A search for one word finds a dataset if and only if the word can be read, whatever the case, in
/// its name, in its catalog source, in one of its categories or in the words for its access. A word
/// that begins with `access:` asks for something else.
pub proof fn lemma_search_for_a_word(entry: RemoteDatasetEntry, search: &str, found: bool)
    requires
        call_ensures(RemoteDatasetEntry::matches_search, (&entry, search), found),
        search@.len() > 0,
        forall|i: int| 0 <= i < search@.len() ==> !white(#[trigger] search@[i]),
        !reads_at(search@, "access:"@, 0),
    ensures
        found <==> {
            ||| reads(entry.dataset@, search@)
            ||| entry.catalog_source is Some && reads(entry.catalog_source->0@, search@)
            ||| exists|i: int|
                0 <= i < entry.categories@.len() && reads(
                    #[trigger] texts(entry.categories@)[i],
                    search@,
                )
            ||| reads(access_words(entry.access), search@)
        },
{
    let word = search@;
    lemma_lowered_word(word);
    lemma_asks_for_access(word);
    assert(words(lower(word))[0] == lower(word));
    assert(found <==> entry@.word_fits(lower(word)));
    assert(!word.contains(' ')) by {
        if word.contains(' ') {
            let i = choose|i: int| 0 <= i < word.len() && word[i] == ' ';
            assert(!white(word[i]));
        }
    }
    let a = entry@.dataset;
    let b = match entry@.catalog_source {
        Some(source) => source,
        None => seq![],
    };
    let c = joined(entry@.categories, " "@);
    let d = entry@.access_label("preview "@);
    reveal_strlit(" ");
    assert(" "@ =~= seq![' ']);
    lemma_lower_contains(a + " "@ + b + " "@ + c + " "@ + d, word);
    lemma_reads_around_blank(a, b, word);
    lemma_reads_around_blank(a + " "@ + b, c, word);
    lemma_reads_around_blank(a + " "@ + b + " "@ + c, d, word);
    lemma_reads_joined(entry@.categories, word);
    assert(d == access_words(entry.access));
    if entry.catalog_source is None {
        assert forall|i: int| !reads_at(b, word, i) by {}
    }
}

/// A search for one word that begins with `access:` finds the datasets whose kind of access has the
/// name that follows: `public`, `preview` or `restricted`.
pub proof fn lemma_search_for_access(entry: RemoteDatasetEntry, search: &str, found: bool)
    requires
        call_ensures(RemoteDatasetEntry::matches_search, (&entry, search), found),
        forall|i: int| 0 <= i < search@.len() ==> !white(#[trigger] search@[i]),
        reads_at(search@, "access:"@, 0),
    ensures
        found <==> entry.access is Some && lower(search@.skip(7)) == (
        if entry.access->0.status == DatasetAccessStatus::Open {
            "public"@
        } else if entry.access->0.status == DatasetAccessStatus::Preview {
            "preview"@
        } else {
            "restricted"@
        }),
{
    let word = search@;
    reveal_strlit("access:");
    lemma_lowered_word(word);
    lemma_asks_for_access(word);
    assert(words(lower(word))[0] == lower(word));
    assert(found <==> entry@.word_fits(lower(word)));
    assert(lower(word).skip(7) =~= lower(word.skip(7)));
}

/// A search for several words finds what each of them finds.
pub proof fn lemma_search_for_words(
    entry: RemoteDatasetEntry,
    one: &str,
    other: &str,
    both: &str,
    found_one: bool,
    found_other: bool,
    found_both: bool,
)
    requires
        call_ensures(RemoteDatasetEntry::matches_search, (&entry, one), found_one),
        call_ensures(RemoteDatasetEntry::matches_search, (&entry, other), found_other),
        call_ensures(RemoteDatasetEntry::matches_search, (&entry, both), found_both),
        both@ == one@ + seq![' '] + other@,
    ensures
        found_both <==> found_one && found_other,
{
    let a = words(lower(one@));
    let b = words(lower(other@));
    assert(lower(both@) =~= lower(one@) + seq![' '] + lower(other@));
    lemma_words_apart(lower(one@), ' ', lower(other@));
    let all = a + b;
    if found_both {
        assert forall|i: int| 0 <= i < a.len() implies entry@.word_fits(#[trigger] a[i]) by {
            assert(all[i] == a[i]);
        }
        assert forall|i: int| 0 <= i < b.len() implies entry@.word_fits(#[trigger] b[i]) by {
            assert(all[a.len() + i] == b[i]);
        }
    }
    if found_one && found_other {
        assert forall|i: int| 0 <= i < all.len() implies entry@.word_fits(#[trigger] all[i]) by {
            if i < a.len() {
                assert(all[i] == a[i]);
            } else {
                assert(all[i] == b[i - a.len()]);
            }
        }
    }
}

/// The case of a search does not matter.
pub proof fn lemma_search_ignores_case(
    entry: RemoteDatasetEntry,
    one: &str,
    other: &str,
    found_one: bool,
    found_other: bool,
)
    requires
        call_ensures(RemoteDatasetEntry::matches_search, (&entry, one), found_one),
        call_ensures(RemoteDatasetEntry::matches_search, (&entry, other), found_other),
        one@.len() == other@.len(),
        forall|i: int| 0 <= i < one@.len() ==> same_letter(#[trigger] one@[i], other@[i]),
    ensures
        found_one == found_other,
{
    assert forall|i: int| 0 <= i < one@.len() implies lower(one@)[i] == lower(other@)[i] by {
        assert(same_letter(one@[i], other@[i]));
        lemma_lower_char(one@[i], other@[i]);
    }
    assert(lower(one@) =~= lower(other@));
}

proof fn lemma_lowered_word(word: Seq<char>)
    requires
        forall|i: int| 0 <= i < word.len() ==> !white(#[trigger] word[i]),
    ensures
        word.len() > 0 ==> words(lower(word)) == seq![lower(word)],
{
    let low = lower(word);
    assert forall|i: int| 0 <= i < low.len() implies !white(#[trigger] low[i]) by {
        assert(!white(word[i]));
        lemma_lower_char(word[i], word[i]);
    }
    if word.len() > 0 {
        lemma_one_word(low);
    }
}

proof fn lemma_asks_for_access(word: Seq<char>)
    ensures
        starts_with(lower(word), "access:"@) <==> reads_at(word, "access:"@, 0),
{
    let prefix = "access:"@;
    reveal_strlit("access:");
    let low = lower(word);
    assert forall|k: int| 0 <= k < prefix.len() implies lower_char(prefix[k]) == prefix[k] by {}
    if reads_at(word, prefix, 0) {
        assert forall|k: int| 0 <= k < prefix.len() implies low[k] == prefix[k] by {
            assert(same_letter(word[0 + k], prefix[k]));
            lemma_lower_char(word[k], prefix[k]);
        }
        assert(low.take(prefix.len() as int) =~= prefix);
    }
    if starts_with(low, prefix) {
        assert forall|k: int| 0 <= k < prefix.len() implies same_letter(
            word[0 + k],
            #[trigger] prefix[k],
        ) by {
            assert(low.take(prefix.len() as int)[k] == prefix[k]);
            lemma_lower_char(word[k], prefix[k]);
        }
    }
}

/// What the browser starts with.
#[derive(Debug)]
pub struct RemoteTuiSeed {
    pub source: Option<String>,
    pub market: Option<String>,
    pub search: Option<String>,
}

impl RemoteTuiSeed {
    /// The search that the browser starts with: the one that was asked for, or the source, with its
    /// market.
    pub open spec fn first_search(self) -> Seq<char> {
        if self.search is Some && self.search->0@.len() > 0 {
            self.search->0@
        } else {
            match self.source {
                Some(source) => match self.market {
                    Some(market) => source@ + ":"@ + market@,
                    None => source@,
                },
                None => seq![],
            }
        }
    }

    /// The search that the browser starts with.
    pub fn into_search(self) -> (out: String)
        ensures
            out@ == self.first_search(),
    {
        if let Some(search) = self.search {
            if search.as_str().unicode_len() > 0 {
                return search;
            }
        }
        match self.source {
            Some(source) => match self.market {
                Some(market) => concat3(source.as_str(), ":", market.as_str()),
                None => source,
            },
            None => {
                let empty = String::new();
                assert(empty@ =~= seq![]);
                empty
            },
        }
    }
}

impl Default for RemoteTuiSeed {
    fn default() -> (out: RemoteTuiSeed)
        ensures
            out.source is None,
            out.market is None,
            out.search is None,
    {
        RemoteTuiSeed { source: None, market: None, search: None }
    }
}

/// What is stored of a dataset.
#[derive(Debug, Clone, Copy, PartialEq, Eq, Structural)]
pub struct LocalDatasetSummary {
    pub snapshot_count: usize,
    pub first_start: Option<Timestamp>,
    pub last_end: Option<Timestamp>,
}

// ---------------------------------------------------------------------------
// Days
// ---------------------------------------------------------------------------

/// How much of a day is stored.
#[derive(Debug, Clone, Copy, PartialEq, Eq, Structural)]
pub enum DayState {
    Full,
    Partial,
    Empty,
    NoRemote,
}

/// The snapshots of a day.
#[derive(Debug, PartialEq, Eq)]
pub struct DayCoverage {
    pub date: Date,
    pub remote_keys: Vec<String>,
    pub local_keys: Vec<String>,
    pub missing_keys: Vec<String>,
}

/// The snapshots of a day.
pub struct DayView {
    pub day: int,
    pub remote: Seq<Seq<char>>,
    pub local: Seq<Seq<char>>,
    pub missing: Seq<Seq<char>>,
}

impl View for DayCoverage {
    type V = DayView;

    open spec fn view(&self) -> DayView {
        DayView {
            day: self.date.days as int,
            remote: texts(self.remote_keys@),
            local: texts(self.local_keys@),
            missing: texts(self.missing_keys@),
        }
    }
}

impl Clone for DayCoverage {
    fn clone(&self) -> (out: DayCoverage)
        ensures
            out@ == self@,
            out.date == self.date,
    {
        DayCoverage {
            date: self.date,
            remote_keys: copy_texts(&self.remote_keys),
            local_keys: copy_texts(&self.local_keys),
            missing_keys: copy_texts(&self.missing_keys),
        }
    }
}

impl DayView {
    /// How much of the day is stored.
    pub open spec fn state(self) -> DayState {
        if self.remote.len() == 0 {
            DayState::NoRemote
        } else if self.missing.len() == 0 {
            DayState::Full
        } else if self.local.len() == 0 {
            DayState::Empty
        } else {
            DayState::Partial
        }
    }
}

impl DayCoverage {
    /// How much of the day is stored.
    pub fn state(&self) -> (out: DayState)
        ensures
            out == self@.state(),
    {
        if self.remote_keys.len() == 0 {
            DayState::NoRemote
        } else if self.missing_keys.len() == 0 {
            DayState::Full
        } else if self.local_keys.len() == 0 {
            DayState::Empty
        } else {
            DayState::Partial
        }
    }
}

/// What the file manager is to show.
#[derive(Debug, PartialEq, Eq)]
pub enum FileManagerTarget {
    File(String),
    Directory(String),
}

/// A dataset, day by day.
#[derive(Debug)]
pub struct DatasetView {
    pub dataset: RemoteDatasetEntry,
    pub days: Vec<DayCoverage>,
    pub selected_day: usize,
}

/// The number nearest to `n` in the range from 0 to `max`.
pub open spec fn clamp(n: int, max: int) -> int {
    if n < 0 {
        0
    } else if n > max {
        max
    } else {
        n
    }
}

/// A number in the range stays as it is, and any other becomes the end of the range that is nearer.
pub proof fn lemma_clamp(n: int, max: int)
    requires
        0 <= max,
    ensures
        0 <= clamp(n, max) <= max,
        0 <= n <= max ==> clamp(n, max) == n,
        n < 0 ==> clamp(n, max) == 0,
        n > max ==> clamp(n, max) == max,
{
}

impl DatasetView {
    /// Whether a day is selected, where there are days, and everything shown exists.
    pub open spec fn valid(self) -> bool {
        &&& self.dataset@.valid()
        &&& self.days@.len() > 0 ==> self.selected_day < self.days@.len()
        &&& forall|i: int| 0 <= i < self.days@.len() ==> (#[trigger] self.days@[i]).date.valid()
    }

    /// Whether there is a selected day.
    pub open spec fn has_day(self) -> bool {
        self.selected_day < self.days@.len()
    }

    /// The selected day.
    pub fn selected_coverage(&self) -> (out: &DayCoverage)
        requires
            self.has_day(),
        ensures
            *out == self.days@[self.selected_day as int],
    {
        &self.days[self.selected_day]
    }

    /// Moves the selection by some days, as far as there are days.
    pub fn move_selection(&mut self, delta_days: i64)
        requires
            old(self).valid(),
        ensures
            final(self).valid(),
            final(self).dataset == old(self).dataset,
            final(self).days == old(self).days,
            final(self).selected_day == (if old(self).days@.len() == 0 {
                old(self).selected_day as int
            } else {
                clamp(old(self).selected_day + delta_days, old(self).days@.len() - 1)
            }),
    {
        if self.days.len() == 0 {
            return;
        }
        let next: i128 = self.selected_day as i128 + delta_days as i128;
        let max: i128 = (self.days.len() - 1) as i128;
        self.selected_day = if next < 0 {
            0
        } else if next > max {
            self.days.len() - 1
        } else {
            next as usize
        };
    }
}

// ---------------------------------------------------------------------------
// The account
// ---------------------------------------------------------------------------

/// Who is signed in.
#[derive(Debug, PartialEq, Eq)]
pub struct AccountIdentity {
    pub user_id: String,
    pub display_name: Option<String>,
    pub email: Option<String>,
    pub plan: Option<String>,
    pub wallet_address: Option<String>,
    pub avatar_url: Option<String>,
}

impl AccountIdentity {
    /// Who is signed in, from what the server tells of the account.
    pub fn from_account(account: &AccountResponse) -> (out: AccountIdentity)
        ensures
            out.user_id@ == account.user_id@,
            opt_text(out.display_name) == opt_text(account.identity.display_name),
            opt_text(out.email) == opt_text(account.identity.email),
            opt_text(out.plan) == Some(account.subscription.tier@),
            opt_text(out.wallet_address) == opt_text(account.identity.wallet_address),
            opt_text(out.avatar_url) == opt_text(account.identity.avatar_url),
    {
        AccountIdentity {
            user_id: account.user_id.clone(),
            display_name: account.identity.display_name.clone(),
            email: account.identity.email.clone(),
            plan: Some(account.subscription.tier.clone()),
            wallet_address: account.identity.wallet_address.clone(),
            avatar_url: account.identity.avatar_url.clone(),
        }
    }
}

impl Clone for AccountIdentity {
    fn clone(&self) -> (out: AccountIdentity)
        ensures
            out == *self,
    {
        AccountIdentity {
            user_id: self.user_id.clone(),
            display_name: self.display_name.clone(),
            email: self.email.clone(),
            plan: self.plan.clone(),
            wallet_address: self.wallet_address.clone(),
            avatar_url: self.avatar_url.clone(),
        }
    }
}

/// A login that waits for the user.
#[derive(Debug, PartialEq, Eq)]
pub struct AccountLoginSession {
    pub user_code: String,
    pub login_url: String,
    pub expires_at: Timestamp,
}

/// The account page.
#[derive(Debug)]
pub struct AccountView {
    pub api_key_present: bool,
    pub api_key_source_label: String,
    pub base_url: String,
    pub root: String,
    pub active_login: Option<AccountLoginSession>,
    pub identity: Option<AccountIdentity>,
}

/// What the key for the account asks for.
#[derive(Debug, PartialEq, Eq)]
pub enum AccountStep {
    /// The account page.
    ShowAccount,
    /// A page in the user's browser.
    OpenUrl(String),
    /// A login in the user's browser.
    StartLogin,
}

/// The question for an API key.
#[derive(Debug)]
pub struct ApiKeyPromptState {
    pub input: String,
    pub error_message: Option<String>,
    pub access_message: String,
}

/// Why an API key is needed.
#[derive(Debug, Clone, Copy, PartialEq, Eq, Structural)]
pub enum ApiKeyRequirement {
    Restricted,
    Preview { public_cutoff_date: Option<Date> },
    LegacyPreviewWindow,
}

impl ApiKeyRequirement {
    /// Whether the cutoff date, if there is one, is a day of the calendar.
    pub open spec fn valid(self) -> bool {
        self matches ApiKeyRequirement::Preview { public_cutoff_date: Some(date) } ==> date.valid()
    }

    /// Why an API key is needed, in words.
    pub open spec fn words(self) -> Seq<char> {
        match self {
            ApiKeyRequirement::Restricted =>
                "This dataset is restricted. A Polaris API key is required for all snapshot downloads."@,
            ApiKeyRequirement::Preview { public_cutoff_date: Some(date) } =>
                "This dataset is preview-only before "@ + date_text(date.days as int)
                    + ". Older snapshot downloads require a Polaris API key."@,
            ApiKeyRequirement::Preview { public_cutoff_date: None } =>
                "This dataset is preview-only. Older snapshot downloads require a Polaris API key."@,
            ApiKeyRequirement::LegacyPreviewWindow =>
                "Older than 7 days requires a Polaris API key."@,
        }
    }

    /// Why an API key is needed, in words.
    pub fn message(&self) -> (out: String)
        requires
            self.valid(),
        ensures
            out@ == self.words(),
    {
        match self {
            ApiKeyRequirement::Restricted =>
                "This dataset is restricted. A Polaris API key is required for all snapshot downloads.".to_owned(),
            ApiKeyRequirement::Preview { public_cutoff_date } => match public_cutoff_date {
                Some(date) => {
                    let day = date.text();
                    concat3(
                        "This dataset is preview-only before ",
                        day.as_str(),
                        ". Older snapshot downloads require a Polaris API key.",
                    )
                },
                None =>
                    "This dataset is preview-only. Older snapshot downloads require a Polaris API key.".to_owned(),
            },
            ApiKeyRequirement::LegacyPreviewWindow =>
                "Older than 7 days requires a Polaris API key.".to_owned(),
        }
    }
}

/// The bookmarked datasets.
#[derive(Debug)]
pub struct BookmarkStore {
    pub bookmarks: TextSet,
}

// ---------------------------------------------------------------------------
// A sync of one day
// ---------------------------------------------------------------------------

/// A sync of one day that is under way.
#[derive(Debug)]
pub struct ActiveDaySync {
    pub dataset: String,
    pub date: Date,
    pub remote_total: usize,
    pub local_present: usize,
    pub downloaded: usize,
    pub failed: usize,
    pub download_bytes: u64,
    pub download_total_bytes: Option<u64>,
    pub deferred_update: Option<DaySyncUpdate>,
}

/// News of a sync of one day.
#[derive(Debug, PartialEq, Eq)]
pub enum DaySyncUpdate {
    Started { total_bytes: Option<u64> },
    Progress { downloaded_bytes: u64, total_bytes: Option<u64> },
    Downloaded { total_bytes: u64 },
    Failed,
    Finished { downloaded: usize, failed: usize },
    Error(String),
}

impl DaySyncUpdate {
    /// What the progress of one snapshot means for the day.
    pub fn from_progress(event: SyncProgressEvent) -> (out: DaySyncUpdate)
        ensures
            out == (match event {
                SyncProgressEvent::Started { key, total_bytes } => DaySyncUpdate::Started {
                    total_bytes,
                },
                SyncProgressEvent::Progress { key, downloaded_bytes, total_bytes } =>
                    DaySyncUpdate::Progress { downloaded_bytes, total_bytes },
                SyncProgressEvent::Downloaded { key, total_bytes } => DaySyncUpdate::Downloaded {
                    total_bytes,
                },
                SyncProgressEvent::Failed { key, error } => DaySyncUpdate::Failed,
            }),
    {
        match event {
            SyncProgressEvent::Started { key, total_bytes } => DaySyncUpdate::Started {
                total_bytes,
            },
            SyncProgressEvent::Progress { key, downloaded_bytes, total_bytes } =>
                DaySyncUpdate::Progress { downloaded_bytes, total_bytes },
            SyncProgressEvent::Downloaded { key, total_bytes } => DaySyncUpdate::Downloaded {
                total_bytes,
            },
            SyncProgressEvent::Failed { key, error } => DaySyncUpdate::Failed,
        }
    }
}

// ---------------------------------------------------------------------------
// Pages
// ---------------------------------------------------------------------------

/// What the screen shows.
#[derive(Debug)]
pub enum ViewMode {
    Splash,
    Browser,
    Account,
    Dataset(DatasetView),
}

/// A selection of the datasets.
#[derive(Debug, PartialEq, Eq)]
pub enum BrowserCategory {
    AllDatasets,
    Bookmarks,
    Catalog(String),
}

/// A selection of the datasets.
pub enum CategoryView {
    AllDatasets,
    Bookmarks,
    Catalog(Seq<char>),
}

impl View for BrowserCategory {
    type V = CategoryView;

    open spec fn view(&self) -> CategoryView {
        match *self {
            BrowserCategory::AllDatasets => CategoryView::AllDatasets,
            BrowserCategory::Bookmarks => CategoryView::Bookmarks,
            BrowserCategory::Catalog(name) => CategoryView::Catalog(name@),
        }
    }
}

impl CategoryView {
    /// The name of the selection.
    pub open spec fn label(self) -> Seq<char> {
        match self {
            CategoryView::AllDatasets => "All"@,
            CategoryView::Bookmarks => "Bookmarks"@,
            CategoryView::Catalog(name) => name,
        }
    }
}

/// The views of categories.
pub open spec fn category_views(s: Seq<BrowserCategory>) -> Seq<CategoryView> {
    s.map_values(|category: BrowserCategory| category@)
}

impl BrowserCategory {
    /// The name of the selection.
    pub fn label(&self) -> (out: &str)
        ensures
            out@ == self@.label(),
    {
        match self {
            BrowserCategory::AllDatasets => "All",
            BrowserCategory::Bookmarks => "Bookmarks",
            BrowserCategory::Catalog(name) => name.as_str(),
        }
    }
}

/// The selection among the days moves by as many days as it is told, as far as there are days. The
/// days stay as they are.
pub proof fn lemma_selection_moves(view: &mut DatasetView, delta: i64)
    requires
        old(view).valid(),
        call_ensures(DatasetView::move_selection, (view, delta), ()),
    ensures
        final(view).days == old(view).days,
        final(view).dataset == old(view).dataset,
        old(view).days@.len() > 0 ==> {
            let wanted = old(view).selected_day + delta;
            &&& 0 <= wanted < old(view).days@.len() ==> final(view).selected_day == wanted
            &&& wanted < 0 ==> final(view).selected_day == 0
            &&& wanted >= old(view).days@.len() ==> final(view).selected_day + 1 == old(view).days@.len()
        },
{
}

/// News of a snapshot are news of its day, with the same numbers.
pub proof fn lemma_news_of_a_day(event: SyncProgressEvent, out: DaySyncUpdate)
    requires
        call_ensures(DaySyncUpdate::from_progress, (event,), out),
    ensures
        event matches SyncProgressEvent::Started { total_bytes: n, .. } ==> (
        out matches DaySyncUpdate::Started { total_bytes } && total_bytes == n),
        event matches SyncProgressEvent::Progress { downloaded_bytes: a, total_bytes: b, .. } ==> (
        out matches DaySyncUpdate::Progress { downloaded_bytes, total_bytes } && downloaded_bytes
            == a && total_bytes == b),
        event matches SyncProgressEvent::Downloaded { total_bytes: n, .. } ==> (
        out matches DaySyncUpdate::Downloaded { total_bytes } && total_bytes == n),
        event is Failed <==> out is Failed,
{
}

/// The browser starts with the search that was asked for, where there is one, and else with the
/// source, and its market, that were asked for.
pub proof fn lemma_first_search(seed: RemoteTuiSeed, out: String)
    requires
        call_ensures(RemoteTuiSeed::into_search, (seed,), out),
    ensures
        seed.search is Some && seed.search->0@.len() > 0 ==> out@ == seed.search->0@,
        !(seed.search is Some && seed.search->0@.len() > 0) ==> {
            &&& seed.source is None ==> out@.len() == 0
            &&& seed.source is Some && seed.market is None ==> out@ == seed.source->0@
            &&& seed.source is Some && seed.market is Some ==> out@ == seed.source->0@ + ":"@
                + seed.market->0@
        },
{
}

/// Who is signed in is who the server says, with the plan of the subscription.
pub proof fn lemma_who_is_signed_in(account: AccountResponse, out: AccountIdentity)
    requires
        call_ensures(AccountIdentity::from_account, (&account,), out),
    ensures
        out.user_id@ == account.user_id@,
        out.plan is Some && out.plan->0@ == account.subscription.tier@,
        out.display_name is Some <==> account.identity.display_name is Some,
        out.display_name is Some ==> out.display_name->0@ == account.identity.display_name->0@,
        out.email is Some <==> account.identity.email is Some,
        out.email is Some ==> out.email->0@ == account.identity.email->0@,
{
}

/// Why an API key is needed is told with the day before which it is, where there is one.
pub proof fn lemma_reason_tells_the_cutoff(requirement: ApiKeyRequirement, out: String, day: Date, text: String)
    requires
        call_ensures(ApiKeyRequirement::message, (&requirement,), out),
        call_ensures(Date::text, (&day,), text),
        requirement == (ApiKeyRequirement::Preview { public_cutoff_date: Some(day) }),
    ensures
        contains(out@, text@),
{
    let lead = "This dataset is preview-only before "@;
    assert(out@.subrange(lead.len() as int, (lead.len() + text@.len()) as int) =~= text@);
    assert(occurs_at(out@, text@, lead.len() as int));
}

} // verus!
