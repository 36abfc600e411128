//! Where things lie under the data root.

use crate::calendar::{dashed_date, dashed_parts, day_number, valid_ymd, Date, Timestamp};
use crate::digest::{digest_text, hex_digit, sha256_hex};
use crate::error::{failure, ErrorView, TickError};
use crate::order::{rank_before, sort, sorted_from, Ranked};
use crate::path::{
    components, file_name, file_name_of, is_name, is_under, join_path, lemma_join_adds_component,
    lemma_join_adds_steps, lemma_join_joined, lemma_relative_text, lemma_split_apart,
    lemma_split_front, lemma_split_joined, lemma_split_joins_back, lemma_split_nonempty,
    lemma_split_whole, one_component, path_join,
    relative_components, relative_text, relative_text_of, split, split_at_char,
};
use crate::text::{
    chars_of, concat2, digit, ends_with, has_suffix, is_before, join_texts, joined,
    lemma_nothing_to_trim, opt_text, precedes, same_text, text_between, texts, trim, trim_end,
    trim_start, trimmed, white,
};
use vstd::prelude::*;
use vstd::utf8::encode_utf8;

verus! {

// ---------------------------------------------------------------------------
// Dates inside texts
// ---------------------------------------------------------------------------

/// Whether a day of the calendar is written as `YYYY-MM-DD` at position `i`.
pub open spec fn date_at(s: Seq<char>, i: int) -> bool {
    &&& 0 <= i
    &&& i + 10 <= s.len()
    &&& dashed_date(s.subrange(i, i + 10))
    &&& valid_ymd(
        dashed_parts(s.subrange(i, i + 10)).0,
        dashed_parts(s.subrange(i, i + 10)).1,
        dashed_parts(s.subrange(i, i + 10)).2,
    )
}

/// The first position, from `i` on, at which a day is written.
pub open spec fn date_position_from(s: Seq<char>, i: int) -> Option<int>
    decreases s.len() - i,
{
    if i + 10 > s.len() {
        None
    } else if date_at(s, i) {
        Some(i)
    } else {
        date_position_from(s, i + 1)
    }
}

/// The first position at which a day is written.
pub open spec fn date_position(s: Seq<char>) -> Option<int> {
    date_position_from(s, 0)
}

/// The number of the day that is written at position `i`.
pub open spec fn day_at(s: Seq<char>, i: int) -> int {
    let parts = dashed_parts(s.subrange(i, i + 10));
    day_number(parts.0, parts.1, parts.2)
}

/// The number of the first day that is written in a text.
pub open spec fn date_in(s: Seq<char>) -> Option<int> {
    match date_position(s) {
        Some(i) => Some(day_at(s, i)),
        None => None,
    }
}

/// The position of the first day is that of a day, and no day is written before it. Where there is
/// no position, no day is written at all.
pub proof fn lemma_first_date(s: Seq<char>)
    ensures
        match date_position(s) {
            Some(i) => date_at(s, i) && forall|j: int| j < i ==> !date_at(s, j),
            None => forall|j: int| !date_at(s, j),
        },
{
    lemma_first_date_from(s, 0);
}

proof fn lemma_first_date_from(s: Seq<char>, i: int)
    ensures
        match date_position_from(s, i) {
            Some(k) => i <= k && date_at(s, k) && forall|j: int| i <= j < k ==> !date_at(s, j),
            None => forall|j: int| i <= j ==> !date_at(s, j),
        },
    decreases s.len() - i,
{
    if i + 10 <= s.len() && !date_at(s, i) {
        lemma_first_date_from(s, i + 1);
    }
}

/// Whether a character is a digit.
fn is_digit(c: char) -> (res: bool)
    ensures
        res == digit(c),
{
    '0' <= c && c <= '9'
}

/// The day that is written at position `i`, where there is one.
fn read_date_at(chars: &Vec<char>, i: usize) -> (out: Option<Date>)
    requires
        i + 10 <= chars.len(),
    ensures
        out is Some <==> date_at(chars@, i as int),
        out matches Some(date) ==> date.valid() && date.days == day_at(chars@, i as int),
{
    let ghost window = chars@.subrange(i as int, i + 10);
    if is_digit(chars[i]) && is_digit(chars[i + 1]) && is_digit(chars[i + 2]) && is_digit(
        chars[i + 3],
    ) && chars[i + 4] == '-' && is_digit(chars[i + 5]) && is_digit(chars[i + 6]) && chars[i + 7]
        == '-' && is_digit(chars[i + 8]) && is_digit(chars[i + 9]) {
        assert(forall|k: int| 0 <= k < 10 ==> window[k] == chars@[i + k]);
        assert(dashed_date(window));
        let text = text_between(chars, i, i + 10);
        Date::parse(text.as_str())
    } else {
        proof {
            if dashed_date(window) {
                assert(window[0] == chars@[i as int] && window[1] == chars@[i + 1] && window[2]
                    == chars@[i + 2] && window[3] == chars@[i + 3] && window[4] == chars@[i + 4]
                    && window[5] == chars@[i + 5] && window[6] == chars@[i + 6] && window[7]
                    == chars@[i + 7] && window[8] == chars@[i + 8] && window[9] == chars@[i + 9]);
                assert(digit(window[0]) && digit(window[1]) && digit(window[2]) && digit(
                    window[3],
                ) && digit(window[5]) && digit(window[6]) && digit(window[8]) && digit(window[9]));
            }
        }
        None
    }
}

/// The first position at which a day is written.
fn find_date_pattern(chars: &Vec<char>) -> (out: Option<usize>)
    ensures
        date_position(chars@) == (match out {
            Some(i) => Some(i as int),
            None => None,
        }),
        match out {
            Some(i) => date_at(chars@, i as int) && forall|j: int| j < i ==> !date_at(chars@, j),
            None => forall|j: int| !date_at(chars@, j),
        },
{
    let mut i: usize = 0;
    while i < chars.len() && 10 <= chars.len() - i
        invariant
            i <= chars.len(),
            date_position(chars@) == date_position_from(chars@, i as int),
        decreases chars.len() - i,
    {
        if read_date_at(chars, i).is_some() {
            proof {
                lemma_first_date(chars@);
            }
            return Some(i);
        }
        i += 1;
    }
    proof {
        lemma_first_date(chars@);
    }
    None
}

/// The first day that is written in a text as `YYYY-MM-DD`.
pub fn infer_date_from_text(text: &str) -> (out: Option<Date>)
    ensures
        date_in(text@) == (match out {
            Some(date) => Some(date.days as int),
            None => None,
        }),
        match out {
            Some(date) => date.valid() && exists|i: int| #[trigger]
                date_at(text@, i) && date.days == day_at(text@, i) && forall|j: int|
                    j < i ==> !date_at(text@, j),
            None => forall|j: int| !date_at(text@, j),
        },
{
    let chars = chars_of(text);
    match find_date_pattern(&chars) {
        Some(i) => read_date_at(&chars, i),
        None => None,
    }
}

// ---------------------------------------------------------------------------
// Snapshot keys
// ---------------------------------------------------------------------------

/// The parts of a snapshot key of the form `tier-source-market-YYYY-MM-DD...`.
pub struct KeyParts {
    pub tier: Seq<char>,
    pub source: Seq<char>,
    pub market: Seq<char>,
    pub date: Seq<char>,
}

/// The parts of a snapshot key, or what is wrong with it. The date is the first that is written
/// in the key. What stands before it is cut at its dashes: the tier is the first part, the market
/// the last, the source what stands between them, dashes and all.
pub open spec fn opaque_key(key: Seq<char>) -> Result<KeyParts, Seq<char>> {
    let t = trim(key);
    if t.len() == 0 {
        Err("snapshot key must not be empty"@)
    } else {
        match date_position(t) {
            None => Err("opaque key does not contain a date: "@ + key),
            Some(i) => if i == 0 || t[i - 1] != '-' {
                Err("opaque key has unexpected format: "@ + key)
            } else {
                let parts = split(t.take(i - 1), '-');
                if parts.len() < 3 {
                    Err("invalid opaque key prefix: "@ + key)
                } else {
                    Ok(
                        KeyParts {
                            tier: parts[0],
                            source: joined(parts.subrange(1, parts.len() - 1), "-"@),
                            market: parts.last(),
                            date: t.subrange(i, i + 10),
                        },
                    )
                }
            },
        }
    }
}

/// Whether a part of a key can be one step of a path: not empty, not `.`, not `..`.
pub open spec fn plain_step(part: Seq<char>) -> bool {
    part.len() > 0 && part != "."@ && part != ".."@
}

/// Whether a key is itself a path below the data directory: two or more plain steps, with a day
/// written in it.
pub open spec fn path_key(key: Seq<char>) -> bool {
    let steps = split(key, '/');
    &&& date_position(key) is Some
    &&& steps.len() >= 2
    &&& forall|i: int| 0 <= i < steps.len() ==> plain_step(#[trigger] steps[i])
}

/// The ending of a snapshot file.
pub open spec fn snapshot_ending() -> Seq<char> {
    ".jsonl.zst"@
}

/// The path of the snapshot with these parts under the data directory.
pub open spec fn opaque_path(data: Seq<char>, parts: KeyParts, key: Seq<char>) -> Seq<char> {
    path_join(
        path_join(
            path_join(path_join(path_join(data, parts.tier), parts.source), parts.market),
            parts.date,
        ),
        key + snapshot_ending(),
    )
}

/// The path at which a snapshot is stored, or what is wrong with its key.
pub open spec fn data_path(root: Seq<char>, key: Seq<char>) -> Result<Seq<char>, Seq<char>> {
    let data = path_join(root, "data"@);
    match opaque_key(key) {
        Ok(parts) => Ok(opaque_path(data, parts, key)),
        Err(message) => if path_key(trim(key)) {
            Ok(path_join(data, trim(key)))
        } else {
            Err(message)
        },
    }
}

/// The path at which something is gathered, by the digest of its key.
pub open spec fn part_path(root: Seq<char>, digest: Seq<char>) -> Seq<char> {
    path_join(path_join(root, "tmp"@), digest + ".part"@)
}

/// The path at which a snapshot is gathered while it is fetched.
pub open spec fn temp_path(root: Seq<char>, key: Seq<char>) -> Seq<char> {
    part_path(root, sha256_hex(encode_utf8(key)))
}

/// The parts of a key, as strings.
struct OwnedParts {
    tier: String,
    source: String,
    market: String,
    date: String,
}

impl OwnedParts {
    spec fn model(self) -> KeyParts {
        KeyParts {
            tier: self.tier@,
            source: self.source@,
            market: self.market@,
            date: self.date@,
        }
    }
}

/// The parts of a snapshot key.
fn parse_opaque_key(key: &str) -> (out: Result<OwnedParts, TickError>)
    ensures
        match opaque_key(key@) {
            Ok(parts) => out matches Ok(owned) && owned.model() == parts,
            Err(message) => failure(out) == Some(ErrorView::InvalidArgument(message)),
        },
{
    let t = trimmed(key);
    let chars = chars_of(t.as_str());
    if chars.len() == 0 {
        return Err(TickError::InvalidArgument("snapshot key must not be empty".to_owned()));
    }
    let start: usize = match find_date_pattern(&chars) {
        Some(i) => i,
        None => {
            return Err(TickError::invalid("opaque key does not contain a date: ", key));
        },
    };
    if start == 0 || chars[start - 1] != '-' {
        return Err(TickError::invalid("opaque key has unexpected format: ", key));
    }
    let date = text_between(&chars, start, start + 10);
    let prefix = text_between(&chars, 0, start - 1);
    assert(prefix@ =~= trim(key@).take(start - 1));
    let parts = split_at_char(prefix.as_str(), '-');
    let ghost all = split(prefix@, '-');
    if parts.len() < 3 {
        return Err(TickError::invalid("invalid opaque key prefix: ", key));
    }
    let mut middle: Vec<String> = Vec::new();
    let last: usize = parts.len() - 1;
    let mut i: usize = 1;
    while i < last
        invariant
            1 <= i <= last,
            last == parts.len() - 1,
            all == texts(parts@),
            texts(middle@) =~= all.subrange(1, i as int),
        decreases last - i,
    {
        let ghost before = texts(middle@);
        middle.push(parts[i].clone());
        assert(texts(middle@) =~= before.push(all[i as int]));
        i += 1;
    }
    let source = join_texts(&middle, "-");
    assert(all[0] == parts@[0]@ && all.last() == parts@[last as int]@);
    Ok(OwnedParts { tier: parts[0].clone(), source, market: parts[last].clone(), date })
}

/// Whether a key is itself a path below the data directory.
fn is_path_key(key: &str) -> (res: bool)
    ensures
        res == path_key(key@),
{
    if infer_date_from_text(key).is_none() {
        return false;
    }
    let steps = split_at_char(key, '/');
    let ghost all = split(key@, '/');
    if steps.len() < 2 {
        return false;
    }
    for i in 0..steps.len()
        invariant
            date_position(key@) is Some,
            steps@.len() >= 2,
            all == texts(steps@),
            all == split(key@, '/'),
            forall|j: int| 0 <= j < i ==> plain_step(#[trigger] all[j]),
    {
        let step = steps[i].as_str();
        assert(step@ == all[i as int]);
        if step.unicode_len() == 0 || same_text(step, ".") || same_text(step, "..") {
            assert(!plain_step(all[i as int]));
            return false;
        }
    }
    true
}

// ---------------------------------------------------------------------------
// The layout
// ---------------------------------------------------------------------------

/// The directories and files under one root.
#[derive(Debug)]
pub struct Layout {
    root: String,
}

impl View for Layout {
    type V = Seq<char>;

    closed spec fn view(&self) -> Seq<char> {
        self.root@
    }
}

impl Layout {
    /// The layout under `root`.
    pub fn new(root: String) -> (out: Layout)
        ensures
            out@ == root@,
    {
        Layout { root }
    }

    /// The root.
    pub fn root(&self) -> (out: &str)
        ensures
            out@ == self@,
    {
        self.root.as_str()
    }

    /// The directory of the snapshots.
    pub fn data_root(&self) -> (out: String)
        ensures
            out@ == path_join(self@, "data"@),
    {
        join_path(self.root.as_str(), "data")
    }

    /// The directory of files that are not complete.
    pub fn tmp_root(&self) -> (out: String)
        ensures
            out@ == path_join(self@, "tmp"@),
    {
        join_path(self.root.as_str(), "tmp")
    }

    /// The directory of what can be fetched or made again.
    pub fn cache_root(&self) -> (out: String)
        ensures
            out@ == path_join(self@, "cache"@),
    {
        join_path(self.root.as_str(), "cache")
    }

    /// The file whose lock a sync holds.
    pub fn lock_path(&self) -> (out: String)
        ensures
            out@ == path_join(path_join(self@, "locks"@), "sync.lock"@),
    {
        let locks = join_path(self.root.as_str(), "locks");
        join_path(locks.as_str(), "sync.lock")
    }

    /// The file of the cached catalog entry of a market.
    pub fn catalog_cache_path(&self, source: &str, market: &str) -> (out: String)
        ensures
            out@ == path_join(
                path_join(path_join(path_join(self@, "cache"@), "catalog"@), source@),
                market@ + ".json"@,
            ),
    {
        let cache = self.cache_root();
        let catalog = join_path(cache.as_str(), "catalog");
        let of_source = join_path(catalog.as_str(), source);
        let file = concat2(market, ".json");
        join_path(of_source.as_str(), file.as_str())
    }

    /// The file in which a snapshot is stored.
    pub fn data_path_for_key(&self, key: &str) -> (out: Result<String, TickError>)
        ensures
            match data_path(self@, key@) {
                Ok(path) => out matches Ok(text) && text@ == path,
                Err(message) => failure(out) == Some(ErrorView::InvalidArgument(message)),
            },
    {
        let data = self.data_root();
        match parse_opaque_key(key) {
            Ok(parts) => {
                let path = join_path(data.as_str(), parts.tier.as_str());
                let path = join_path(path.as_str(), parts.source.as_str());
                let path = join_path(path.as_str(), parts.market.as_str());
                let path = join_path(path.as_str(), parts.date.as_str());
                let file = concat2(key, ".jsonl.zst");
                Ok(join_path(path.as_str(), file.as_str()))
            },
            Err(error) => {
                let t = trimmed(key);
                if is_path_key(t.as_str()) {
                    Ok(join_path(data.as_str(), t.as_str()))
                } else {
                    Err(error)
                }
            },
        }
    }

    /// The file in which something is gathered, by the digest of its key.
    pub fn part_path_for_digest(&self, digest: &str) -> (out: String)
        ensures
            out@ == part_path(self@, digest@),
    {
        let file = concat2(digest, ".part");
        let tmp = self.tmp_root();
        join_path(tmp.as_str(), file.as_str())
    }

    /// The file in which a snapshot is gathered while it is fetched.
    pub fn temp_path_for_key(&self, key: &str) -> (out: String)
        ensures
            out@ == temp_path(self@, key@),
    {
        let digest = digest_text(key.as_bytes());
        self.part_path_for_digest(digest.as_str())
    }
}

// ---------------------------------------------------------------------------
// Stored snapshots
// ---------------------------------------------------------------------------

/// A snapshot that is stored locally.
#[derive(Debug, PartialEq, Eq)]
pub struct LocalSnapshotEntry {
    pub key: String,
    pub path: String,
    pub filename: String,
    pub source: Option<String>,
    pub market: Option<String>,
    pub date: Option<String>,
    pub start: Option<Timestamp>,
    pub end: Option<Timestamp>,
}

/// What is known of a stored snapshot.
pub struct LocalSnapshotView {
    pub key: Seq<char>,
    pub path: Seq<char>,
    pub filename: Seq<char>,
    pub source: Option<Seq<char>>,
    pub market: Option<Seq<char>>,
    pub date: Option<Seq<char>>,
    pub start: Option<Timestamp>,
    pub end: Option<Timestamp>,
}

impl View for LocalSnapshotEntry {
    type V = LocalSnapshotView;

    open spec fn view(&self) -> LocalSnapshotView {
        LocalSnapshotView {
            key: self.key@,
            path: self.path@,
            filename: self.filename@,
            source: opt_text(self.source),
            market: opt_text(self.market),
            date: opt_text(self.date),
            start: self.start,
            end: self.end,
        }
    }
}

impl Clone for LocalSnapshotEntry {
    fn clone(&self) -> (out: LocalSnapshotEntry)
        ensures
            out@ == self@,
    {
        LocalSnapshotEntry {
            key: self.key.clone(),
            path: self.path.clone(),
            filename: self.filename.clone(),
            source: self.source.clone(),
            market: self.market.clone(),
            date: self.date.clone(),
            start: self.start,
            end: self.end,
        }
    }
}

impl Ranked for LocalSnapshotEntry {
    open spec fn rank(&self) -> (int, Seq<char>) {
        (0, self.key@)
    }

    fn ranks_before(&self, other: &LocalSnapshotEntry) -> (res: bool) {
        is_before(self.key.as_str(), other.key.as_str())
    }
}

/// The views of a list of stored snapshots.
pub open spec fn snapshot_views(v: Seq<LocalSnapshotEntry>) -> Seq<LocalSnapshotView> {
    v.map_values(|entry: LocalSnapshotEntry| entry@)
}

/// The text with each `\\` turned into `/`.
pub open spec fn forward_slashes(s: Seq<char>) -> Seq<char> {
    s.map_values(|c: char| if c == '\\' { '/' } else { c })
}

/// The text without the ending of a snapshot file.
pub open spec fn without_ending(name: Seq<char>) -> Seq<char> {
    if ends_with(name, snapshot_ending()) {
        name.take(name.len() - snapshot_ending().len())
    } else {
        name
    }
}

/// Source, market and date of a file, from its path below the data directory: the second, third
/// and fourth step, where there are five.
pub open spec fn local_metadata(relative: Seq<char>) -> Option<(Seq<char>, Seq<char>, Seq<char>)> {
    let steps = split(relative, '/');
    if steps.len() >= 5 {
        Some((steps[1], steps[2], steps[3]))
    } else {
        None
    }
}

/// What is known of the snapshot in the file `path` under the data directory `data`. A file that
/// does not lie there is none.
pub open spec fn stored_snapshot(data: Seq<char>, path: Seq<char>) -> Option<LocalSnapshotView> {
    if !is_under(path, data) {
        None
    } else {
        let name = match file_name(path) {
            Some(name) => name,
            None => seq![],
        };
        let metadata = local_metadata(forward_slashes(relative_text(path, data)));
        Some(
            LocalSnapshotView {
                key: without_ending(name),
                path,
                filename: name,
                source: match metadata {
                    Some(m) => Some(m.0),
                    None => None,
                },
                market: match metadata {
                    Some(m) => Some(m.1),
                    None => None,
                },
                date: match metadata {
                    Some(m) => Some(m.2),
                    None => None,
                },
                start: None,
                end: None,
            },
        )
    }
}

/// What is known of the snapshots in these files, in their order.
pub open spec fn stored_snapshots(data: Seq<char>, paths: Seq<Seq<char>>) -> Seq<
    LocalSnapshotView,
>
    decreases paths.len(),
{
    if paths.len() == 0 {
        seq![]
    } else {
        let before = stored_snapshots(data, paths.drop_last());
        match stored_snapshot(data, paths.last()) {
            Some(view) => before.push(view),
            None => before,
        }
    }
}

/// The text with each `\\` turned into `/`.
pub fn to_forward_slashes(s: &str) -> (out: String)
    ensures
        out@ == forward_slashes(s@),
{
    let chars = chars_of(s);
    let mut out = String::new();
    assert(out@ =~= forward_slashes(s@).take(0));
    for i in 0..chars.len()
        invariant
            chars@ == s@,
            out@ == forward_slashes(s@).take(i as int),
    {
        out.push(if chars[i] == '\\' { '/' } else { chars[i] });
        assert(out@ =~= forward_slashes(s@).take(i + 1));
    }
    assert(forward_slashes(s@).take(s@.len() as int) =~= forward_slashes(s@));
    out
}

/// The text without the ending of a snapshot file.
fn strip_ending(name: &str) -> (out: String)
    ensures
        out@ == without_ending(name@),
{
    let ending = ".jsonl.zst";
    if has_suffix(name, ending) {
        let chars = chars_of(name);
        let n: usize = ending.unicode_len();
        let out = text_between(&chars, 0, chars.len() - n);
        assert(out@ =~= name@.take(name@.len() - ending@.len()));
        out
    } else {
        name.to_owned()
    }
}

/// Source, market and date of a file, from its path below the data directory.
fn infer_local_metadata(relative: &str) -> (out: (Option<String>, Option<String>, Option<String>))
    ensures
        match local_metadata(relative@) {
            Some(m) => {
                &&& opt_text(out.0) == Some(m.0)
                &&& opt_text(out.1) == Some(m.1)
                &&& opt_text(out.2) == Some(m.2)
            },
            None => out.0 is None && out.1 is None && out.2 is None,
        },
        out.0 is Some <==> split(relative@, '/').len() >= 5,
{
    let steps = split_at_char(relative, '/');
    assert(texts(steps@) == split(relative@, '/'));
    if steps.len() >= 5 {
        (Some(steps[1].clone()), Some(steps[2].clone()), Some(steps[3].clone()))
    } else {
        (None, None, None)
    }
}

/// What is known of the snapshot in the file `path` under the data directory `data`.
pub fn stored_snapshot_of(data: &str, path: &str) -> (out: Option<LocalSnapshotEntry>)
    ensures
        stored_snapshot(data@, path@) == (match out {
            Some(entry) => Some(entry@),
            None => None,
        }),
{
    let relative = match relative_text_of(path, data) {
        Some(relative) => relative,
        None => {
            return None;
        },
    };
    let relative = to_forward_slashes(relative.as_str());
    let filename = match file_name_of(path) {
        Some(name) => name,
        None => {
            let empty = String::new();
            assert(empty@ =~= seq![]);
            empty
        },
    };
    let key = strip_ending(filename.as_str());
    let (source, market, date) = infer_local_metadata(relative.as_str());
    Some(
        LocalSnapshotEntry {
            key,
            path: path.to_owned(),
            filename,
            source,
            market,
            date,
            start: None,
            end: None,
        },
    )
}

impl Layout {
    /// The stored snapshots, ordered by key, among the files that were found under the data
    /// directory.
    pub fn list_local_snapshots(&self, files: &Vec<String>) -> (out: Vec<LocalSnapshotEntry>)
        ensures
            exists|found: Seq<LocalSnapshotEntry>|
                #![trigger snapshot_views(found)]
                snapshot_views(found) == stored_snapshots(
                    path_join(self@, "data"@),
                    texts(files@),
                ) && sorted_from(out@, found),
    {
        let data = self.data_root();
        let mut found: Vec<LocalSnapshotEntry> = Vec::new();
        let ghost paths = texts(files@);
        assert(snapshot_views(found@) =~= stored_snapshots(data@, paths.take(0)));
        for i in 0..files.len()
            invariant
                paths == texts(files@),
                snapshot_views(found@) == stored_snapshots(data@, paths.take(i as int)),
        {
            let ghost before = snapshot_views(found@);
            assert(paths.take(i + 1).drop_last() =~= paths.take(i as int));
            assert(paths.take(i + 1).last() == files@[i as int]@);
            match stored_snapshot_of(data.as_str(), files[i].as_str()) {
                Some(entry) => {
                    let ghost view = entry@;
                    found.push(entry);
                    assert(snapshot_views(found@) =~= before.push(view));
                },
                None => {},
            }
        }
        assert(paths.take(paths.len() as int) =~= paths);
        let ghost all = found@;
        let out = sort(found);
        assert(snapshot_views(all) == stored_snapshots(path_join(self@, "data"@), texts(files@)));
        out
    }
}

// ---------------------------------------------------------------------------
// What is stored is listed again
// ---------------------------------------------------------------------------

proof fn lemma_part_avoids(s: Seq<char>, c: char, d: char, i: int)
    requires
        !s.contains(d),
        0 <= i < split(s, c).len(),
    ensures
        !split(s, c)[i].contains(d),
    decreases s.len(),
{
    let part = split(s, c)[i];
    if s.len() > 0 {
        let front = s.drop_last();
        let before = split(front, c);
        assert forall|k: int| 0 <= k < front.len() implies front[k] != d by {
            assert(s.contains(s[k]));
        }
        assert(s.contains(s[s.len() - 1]));
        lemma_split_nonempty(front, c);
        if i < before.len() {
            lemma_part_avoids(front, c, d, i);
            assert forall|k: int| 0 <= k < part.len() implies part[k] != d by {
                if k < before[i].len() {
                    assert(part[k] == before[i][k]);
                    assert(before[i].contains(before[i][k]));
                }
            }
        }
    }
}

/// A character that is not in a key is not in its parts, the dash aside.
proof fn lemma_key_parts_avoid(key: Seq<char>, d: char)
    requires
        opaque_key(key) is Ok,
        !key.contains(d),
        d != '-',
    ensures
        !opaque_key(key)->Ok_0.tier.contains(d),
        !opaque_key(key)->Ok_0.source.contains(d),
        !opaque_key(key)->Ok_0.market.contains(d),
{
    let t = trim(key);
    lemma_trim_avoids(key, d);
    lemma_first_date(t);
    let at = date_position(t)->0;
    let prefix = t.take(at - 1);
    assert forall|k: int| 0 <= k < prefix.len() implies prefix[k] != d by {
        assert(t.contains(t[k]));
    }
    let parts = split(prefix, '-');
    let middle = parts.subrange(1, parts.len() - 1);
    lemma_part_avoids(prefix, '-', d, 0);
    lemma_part_avoids(prefix, '-', d, parts.len() - 1);
    assert forall|i: int| 0 <= i < middle.len() implies !(#[trigger] middle[i]).contains(d) by {
        lemma_part_avoids(prefix, '-', d, i + 1);
    }
    reveal_strlit("-");
    let source = opaque_key(key)->Ok_0.source;
    assert forall|k: int| 0 <= k < source.len() implies source[k] != d by {
        lemma_joined_avoids(middle, "-"@, d, k);
    }
}

proof fn lemma_trim_avoids(s: Seq<char>, d: char)
    requires
        !s.contains(d),
    ensures
        !trim(s).contains(d),
{
    lemma_trim_start_avoids(s, d);
    lemma_trim_end_avoids(trim_start(s), d);
}

proof fn lemma_trim_start_avoids(s: Seq<char>, d: char)
    requires
        !s.contains(d),
    ensures
        !trim_start(s).contains(d),
    decreases s.len(),
{
    if s.len() > 0 {
        let rest = s.drop_first();
        assert forall|k: int| 0 <= k < rest.len() implies rest[k] != d by {
            assert(s.contains(s[k + 1]));
        }
        lemma_trim_start_avoids(rest, d);
    }
}

proof fn lemma_trim_end_avoids(s: Seq<char>, d: char)
    requires
        !s.contains(d),
    ensures
        !trim_end(s).contains(d),
    decreases s.len(),
{
    if s.len() > 0 {
        let front = s.drop_last();
        assert forall|k: int| 0 <= k < front.len() implies front[k] != d by {
            assert(s.contains(s[k]));
        }
        lemma_trim_end_avoids(front, d);
    }
}

proof fn lemma_date_of_key(key: Seq<char>)
    requires
        opaque_key(key) is Ok,
    ensures
        dashed_date(opaque_key(key)->Ok_0.date),
        one_component(opaque_key(key)->Ok_0.date),
        !opaque_key(key)->Ok_0.date.contains('\\'),
{
    let date = opaque_key(key)->Ok_0.date;
    lemma_first_date(trim(key));
    assert(dashed_date(date));
    reveal_strlit(".");
    assert(digit(date[0]));
    assert forall|k: int| 0 <= k < date.len() implies date[k] != '/' && date[k] != '\\' by {
        if k != 4 && k != 7 {
            assert(digit(date[k]));
        }
    }
}

proof fn lemma_file_of_key(key: Seq<char>)
    requires
        !key.contains('/'),
    ensures
        one_component(key + snapshot_ending()),
        is_name(key + snapshot_ending()),
{
    let file = key + snapshot_ending();
    reveal_strlit(".jsonl.zst");
    reveal_strlit(".");
    reveal_strlit("..");
    reveal_strlit("/");
    assert(snapshot_ending().len() == 10);
    assert(file.len() >= 10);
    assert forall|k: int| 0 <= k < file.len() implies file[k] != '/' by {
        if k < key.len() {
            assert(key.contains(key[k]));
        } else {
            assert(file[k] == snapshot_ending()[k - key.len()]);
        }
    }
}

/// What a path below the data directory tells is read back from it: source, market and date are
/// those with which it was written, whatever stands behind them.
pub proof fn lemma_metadata_is_read_back(
    tier: Seq<char>,
    source: Seq<char>,
    market: Seq<char>,
    date: Seq<char>,
    rest: Seq<char>,
)
    requires
        !tier.contains('/'),
        !source.contains('/'),
        !market.contains('/'),
        !date.contains('/'),
    ensures
        local_metadata(joined(seq![tier, source, market, date, rest], "/"@)) == Some(
            (source, market, date),
        ),
{
    let steps = seq![tier, source, market, date];
    let all = steps.push(rest);
    let head = joined(steps, "/"@);
    assert(all =~= seq![tier, source, market, date, rest]);
    assert(all.drop_last() =~= steps);
    reveal_strlit("/");
    assert("/"@ =~= seq!['/']);
    assert(joined(all, "/"@) == head + "/"@ + rest);
    lemma_split_joined(steps, '/', "/"@);
    lemma_split_front(head, rest, '/');
    let found = split(head + seq!['/'] + rest, '/');
    assert(found.take(4)[1] == steps[1]);
    assert(found.take(4)[2] == steps[2]);
    assert(found.take(4)[3] == steps[3]);
}

/// Of a snapshot whose key has no slash, the path that is made of the parts of the key tells its
/// source, market and date.
pub proof fn lemma_metadata_of_key_is_read_back(key: Seq<char>)
    requires
        opaque_key(key) is Ok,
        !key.contains('/'),
    ensures
        ({
            let parts = opaque_key(key)->Ok_0;
            local_metadata(
                joined(
                    seq![parts.tier, parts.source, parts.market, parts.date, key
                        + snapshot_ending()],
                    "/"@,
                ),
            ) == Some((parts.source, parts.market, parts.date))
        }),
{
    let parts = opaque_key(key)->Ok_0;
    lemma_key_parts_avoid(key, '/');
    lemma_date_of_key(key);
    lemma_metadata_is_read_back(
        parts.tier,
        parts.source,
        parts.market,
        parts.date,
        key + snapshot_ending(),
    );
}

/// A path of fewer than five steps tells neither source nor market nor date.
pub proof fn lemma_short_path_tells_nothing(relative: Seq<char>)
    requires
        split(relative, '/').len() < 5,
    ensures
        local_metadata(relative) is None,
{
}

/// Whether a part of a key is kept in a path, and is one step of it on any system: it is not empty,
/// not `.`, and no backslash is in it.
pub open spec fn kept_step(part: Seq<char>) -> bool {
    part.len() > 0 && part != "."@ && !part.contains('\\')
}

/// What is stored is listed again: a snapshot stored under an opaque key without a slash, whose tier,
/// source and market are steps of a path, lies in the data directory, and the listing gives back its
/// key, source, market and date.
pub proof fn lemma_stored_snapshot_is_listed(root: Seq<char>, key: Seq<char>)
    requires
        opaque_key(key) is Ok,
        kept_step(opaque_key(key)->Ok_0.tier),
        kept_step(opaque_key(key)->Ok_0.source),
        kept_step(opaque_key(key)->Ok_0.market),
        !key.contains('/'),
    ensures
        data_path(root, key) is Ok,
        is_under(data_path(root, key)->Ok_0, path_join(root, "data"@)),
        stored_snapshot(path_join(root, "data"@), data_path(root, key)->Ok_0) == Some(
            (LocalSnapshotView {
                key,
                path: data_path(root, key)->Ok_0,
                filename: key + snapshot_ending(),
                source: Some(opaque_key(key)->Ok_0.source),
                market: Some(opaque_key(key)->Ok_0.market),
                date: Some(opaque_key(key)->Ok_0.date),
                start: None,
                end: None,
            }),
        ),
{
    let data = path_join(root, "data"@);
    let parts = opaque_key(key)->Ok_0;
    let file = key + snapshot_ending();
    lemma_key_parts_avoid(key, '/');
    lemma_date_of_key(key);
    lemma_file_of_key(key);
    reveal_strlit("data");
    reveal_strlit(".");
    reveal_strlit("/");
    assert("/"@ =~= seq!['/']);
    lemma_join_adds_component(root, "data"@);

    let s1 = seq![parts.tier];
    let s2 = s1.push(parts.source);
    let s3 = s2.push(parts.market);
    let s4 = s3.push(parts.date);
    let steps = s4.push(file);
    lemma_join_joined(data, s1, parts.source);
    lemma_join_joined(data, s2, parts.market);
    lemma_join_joined(data, s3, parts.date);
    lemma_join_joined(data, s4, file);
    let path = opaque_path(data, parts, key);
    assert(path == path_join(data, joined(steps, "/"@)));

    lemma_join_adds_steps(data, steps);
    let base = components(data);
    assert(components(path).take(base.len() as int) =~= base);
    assert(components(path).last() == file);
    assert(file_name(path) == Some(file));

    lemma_relative_text(data, steps);
    let relative = joined(steps, "/"@);
    let head = joined(s4, "/"@);
    assert(steps.drop_last() =~= s4);
    assert(relative == head + "/"@ + file);
    assert forall|i: int| 0 <= i < s4.len() implies !(#[trigger] s4[i]).contains('\\') by {}
    assert forall|k: int| 0 <= k < head.len() implies head[k] != '\\' by {
        lemma_joined_avoids(s4, "/"@, '\\', k);
    }
    let rest = forward_slashes(file);
    assert(forward_slashes(relative) =~= head + "/"@ + rest);
    let shown = seq![parts.tier, parts.source, parts.market, parts.date, rest];
    assert(shown.drop_last() =~= s4);
    assert(joined(shown, "/"@) == head + "/"@ + rest);
    lemma_metadata_is_read_back(parts.tier, parts.source, parts.market, parts.date, rest);
    reveal_strlit(".jsonl.zst");
    assert(file.skip(key.len() as int) =~= snapshot_ending());
    assert(file.take(key.len() as int) =~= key);
}

proof fn lemma_joined_avoids(parts: Seq<Seq<char>>, separator: Seq<char>, c: char, k: int)
    requires
        forall|i: int| 0 <= i < parts.len() ==> !(#[trigger] parts[i]).contains(c),
        !separator.contains(c),
        0 <= k < joined(parts, separator).len(),
    ensures
        joined(parts, separator)[k] != c,
    decreases parts.len(),
{
    let all = joined(parts, separator);
    if parts.len() == 1 {
        assert(all == parts[0]);
        assert(parts[0].contains(all[k]));
    } else {
        let front = parts.drop_last();
        let text = joined(front, separator);
        assert(!parts[parts.len() - 1].contains(c));
        if k < text.len() {
            assert forall|i: int| 0 <= i < front.len() implies !(#[trigger] front[i]).contains(
                c,
            ) by {
                assert(front[i] == parts[i]);
            }
            lemma_joined_avoids(front, separator, c, k);
            assert(all[k] == text[k]);
        } else if k < text.len() + separator.len() {
            assert(all[k] == separator[k - text.len()]);
        } else {
            assert(all[k] == parts.last()[k - text.len() - separator.len()]);
        }
    }
}

/// A snapshot whose key is a path is stored below the data directory, where its steps lead.
pub proof fn lemma_path_key_stays_below(root: Seq<char>, key: Seq<char>)
    requires
        opaque_key(key) is Err,
        path_key(trim(key)),
    ensures
        data_path(root, key) is Ok,
        is_under(data_path(root, key)->Ok_0, path_join(root, "data"@)),
        relative_components(data_path(root, key)->Ok_0, path_join(root, "data"@)) == split(
            trim(key),
            '/',
        ),
{
    let steps = split(trim(key), '/');
    let data = path_join(root, "data"@);
    lemma_split_joins_back(trim(key), '/');
    reveal_strlit("/");
    assert("/"@ =~= seq!['/']);
    assert forall|i: int| 0 <= i < steps.len() implies one_component(#[trigger] steps[i]) by {
        assert(plain_step(steps[i]));
    }
    lemma_join_adds_steps(data, steps);
    let path = path_join(data, trim(key));
    assert(components(path).take(components(data).len() as int) =~= components(data));
    assert(components(path).skip(components(data).len() as int) =~= steps);
}

/// A snapshot whose key is a path is listed under its last step, without the ending of a snapshot
/// file, and not under its whole key. Its source, market and date are what the second, third and
/// fourth step say, where there are five, whatever they mean in the key.
pub proof fn lemma_path_key_is_listed_by_its_steps(root: Seq<char>, key: Seq<char>)
    requires
        opaque_key(key) is Err,
        path_key(trim(key)),
    ensures
        ({
            let steps = split(trim(key), '/');
            let metadata = local_metadata(forward_slashes(trim(key)));
            &&& stored_snapshot(path_join(root, "data"@), data_path(root, key)->Ok_0) == Some(
                (LocalSnapshotView {
                    key: without_ending(steps.last()),
                    path: data_path(root, key)->Ok_0,
                    filename: steps.last(),
                    source: match metadata {
                        Some(m) => Some(m.0),
                        None => None,
                    },
                    market: match metadata {
                        Some(m) => Some(m.1),
                        None => None,
                    },
                    date: match metadata {
                        Some(m) => Some(m.2),
                        None => None,
                    },
                    start: None,
                    end: None,
                }),
            )
            &&& !key.contains('\\') ==> metadata == (if steps.len() >= 5 {
                Some((steps[1], steps[2], steps[3]))
            } else {
                None
            })
            &&& without_ending(steps.last()) != key
        }),
{
    let t = trim(key);
    let steps = split(t, '/');
    let data = path_join(root, "data"@);
    let path = path_join(data, t);
    lemma_path_key_stays_below(root, key);
    lemma_split_joins_back(t, '/');
    reveal_strlit("/");
    reveal_strlit("data");
    reveal_strlit(".");
    assert("/"@ =~= seq!['/']);
    assert forall|i: int| 0 <= i < steps.len() implies one_component(#[trigger] steps[i]) by {
        assert(plain_step(steps[i]));
    }
    lemma_join_adds_component(root, "data"@);
    lemma_join_adds_steps(data, steps);
    lemma_relative_text(data, steps);
    assert(relative_text(path, data) == t);
    let last = steps[steps.len() - 1];
    assert(plain_step(last));
    assert("/"@.contains('/')) by {
        assert("/"@[0] == '/');
    }
    assert(components(path).last() == last);
    assert(file_name(path) == Some(last));
    if !key.contains('\\') {
        lemma_trim_avoids(key, '\\');
        assert forall|k: int| 0 <= k < t.len() implies t[k] != '\\' by {
            assert(t.contains(t[k]));
        }
        assert(forward_slashes(t) =~= t);
    }
    if !key.contains('/') {
        lemma_trim_avoids(key, '/');
        lemma_split_joined(seq![t], '/', "/"@);
        assert(joined(seq![t], "/"@) == t);
    }
    let shown = without_ending(last);
    assert forall|k: int| 0 <= k < shown.len() implies shown[k] != '/' by {
        assert(shown[k] == last[k]);
        assert(last.contains(last[k]));
    }
}

/// Snapshots with different keys, without a slash, are stored in different files.
pub proof fn lemma_data_paths_differ(root: Seq<char>, a: Seq<char>, b: Seq<char>)
    requires
        opaque_key(a) is Ok,
        !a.contains('/'),
        opaque_key(b) is Ok,
        !b.contains('/'),
        a != b,
    ensures
        data_path(root, a) is Ok,
        data_path(root, b) is Ok,
        components(data_path(root, a)->Ok_0) != components(data_path(root, b)->Ok_0),
        data_path(root, a)->Ok_0 != data_path(root, b)->Ok_0,
{
    lemma_file_is_last(root, a);
    lemma_file_is_last(root, b);
    let file_a = a + snapshot_ending();
    let file_b = b + snapshot_ending();
    if file_a == file_b {
        assert(a =~= file_a.take(file_a.len() - snapshot_ending().len()));
        assert(b =~= file_b.take(file_b.len() - snapshot_ending().len()));
    }
}

proof fn lemma_file_is_last(root: Seq<char>, key: Seq<char>)
    requires
        opaque_key(key) is Ok,
        !key.contains('/'),
    ensures
        components(data_path(root, key)->Ok_0).last() == key + snapshot_ending(),
{
    let data = path_join(root, "data"@);
    let parts = opaque_key(key)->Ok_0;
    lemma_file_of_key(key);
    lemma_join_adds_component(
        path_join(
            path_join(path_join(path_join(data, parts.tier), parts.source), parts.market),
            parts.date,
        ),
        key + snapshot_ending(),
    );
}

/// A key of the form `tier-source-market-YYYY-MM-DD...` says where its snapshot is stored: in the data
/// directory, below its tier, its source, its market and its date, under the whole key. Dashes in the
/// source do not matter, and neither does what follows the date.
pub proof fn lemma_key_says_its_place(
    layout: Layout,
    key: &str,
    tier: Seq<char>,
    source: Seq<char>,
    market: Seq<char>,
    out: Result<String, TickError>,
)
    requires
        call_ensures(Layout::data_path_for_key, (&layout, key), out),
        !tier.contains('-'),
        !market.contains('-'),
        key@.len() > 0 && !white(key@[0]) && !white(key@.last()),
        ({
            let front = tier + seq!['-'] + source + seq!['-'] + market + seq!['-'];
            let n = front.len() as int;
            &&& n <= key@.len()
            &&& key@.take(n) == front
            &&& date_at(key@, n)
            &&& forall|j: int| j < n ==> !date_at(key@, j)
        }),
    ensures
        ({
            let n = (tier.len() + source.len() + market.len() + 3) as int;
            let date = key@.subrange(n, n + 10);
            let data = path_join(layout@, "data"@);
            let of_market = path_join(path_join(path_join(data, tier), source), market);
            out matches Ok(path) && path@ == path_join(
                path_join(of_market, date),
                key@ + ".jsonl.zst"@,
            )
        }),
{
    let front = tier + seq!['-'] + source + seq!['-'] + market + seq!['-'];
    let n = front.len() as int;
    let prefix = tier + seq!['-'] + source + seq!['-'] + market;
    lemma_nothing_to_trim(key@);
    lemma_first_date(key@);
    let at = date_position(key@)->0;
    assert(date_position(key@) is Some);
    if at < n {
        assert(!date_at(key@, at));
    }
    if n < at {
        assert(!date_at(key@, n));
    }
    assert(key@[n - 1] == key@.take(n)[n - 1]);
    assert(key@.take(n - 1) =~= key@.take(n).take(n - 1));
    assert(front.take(n - 1) =~= prefix);
    lemma_split_apart(tier + seq!['-'] + source, market, '-');
    lemma_split_apart(tier, source, '-');
    lemma_split_whole(tier, '-');
    lemma_split_whole(market, '-');
    lemma_split_nonempty(source, '-');
    lemma_split_joins_back(source, '-');
    let parts = split(prefix, '-');
    assert(parts =~= seq![tier] + split(source, '-') + seq![market]);
    assert(parts.subrange(1, parts.len() - 1) =~= split(source, '-'));
    reveal_strlit("-");
    assert("-"@ =~= seq!['-']);
    assert(opaque_key(key@) == Ok::<KeyParts, Seq<char>>(
        KeyParts { tier, source, market, date: key@.subrange(n, n + 10) },
    ));
}

/// A key in which no day is written has no place, and neither has an empty one.
pub proof fn lemma_key_needs_a_date(layout: Layout, key: &str, out: Result<String, TickError>)
    requires
        call_ensures(Layout::data_path_for_key, (&layout, key), out),
        forall|j: int| !date_at(trim(key@), j),
    ensures
        out is Err,
        out->Err_0 is InvalidArgument,
{
    lemma_first_date(trim(key@));
}

/// The files of a layout lie below its root: what is gathered in one directory, what can be made again
/// in another, the snapshots in a third, and the lock in a fourth.
pub proof fn lemma_directories(
    layout: Layout,
    data: String,
    tmp: String,
    cache: String,
    lock: String,
    digest: &str,
    part: String,
)
    requires
        call_ensures(Layout::data_root, (&layout,), data),
        call_ensures(Layout::tmp_root, (&layout,), tmp),
        call_ensures(Layout::cache_root, (&layout,), cache),
        call_ensures(Layout::lock_path, (&layout,), lock),
        call_ensures(Layout::part_path_for_digest, (&layout, digest), part),
        digest@.len() > 0,
        !digest@.contains('/'),
    ensures
        components(data@) == components(layout@).push("data"@),
        components(tmp@) == components(layout@).push("tmp"@),
        components(cache@) == components(layout@).push("cache"@),
        components(lock@) == components(layout@).push("locks"@).push("sync.lock"@),
        components(part@) == components(tmp@).push(digest@ + ".part"@),
{
    reveal_strlit("data");
    reveal_strlit("tmp");
    reveal_strlit("cache");
    reveal_strlit("locks");
    reveal_strlit("sync.lock");
    reveal_strlit(".");
    reveal_strlit(".part");
    assert("data"@.len() == 4 && "tmp"@.len() == 3 && "cache"@.len() == 5 && "locks"@.len() == 5
        && "sync.lock"@.len() == 9 && "."@.len() == 1 && ".part"@.len() == 5);
    lemma_join_adds_component(layout@, "data"@);
    lemma_join_adds_component(layout@, "tmp"@);
    lemma_join_adds_component(layout@, "cache"@);
    lemma_join_adds_component(layout@, "locks"@);
    lemma_join_adds_component(path_join(layout@, "locks"@), "sync.lock"@);
    let name = digest@ + ".part"@;
    assert forall|i: int| 0 <= i < name.len() implies name[i] != '/' by {
        if i < digest@.len() {
            assert(digest@.contains(digest@[i]));
        } else {
            assert(name[i] == ".part"@[i - digest@.len()]);
        }
    }
    lemma_join_adds_component(tmp@, name);
}

/// The stored snapshots are listed in the order of their keys, and as many as lie in the data
/// directory.
pub proof fn lemma_listing_is_in_order(
    layout: Layout,
    files: Vec<String>,
    out: Vec<LocalSnapshotEntry>,
    i: int,
    j: int,
)
    requires
        call_ensures(Layout::list_local_snapshots, (&layout, &files), out),
        0 <= i < j < out@.len(),
    ensures
        !precedes(out@[j].key@, out@[i].key@),
        out@.len() == texts(files@).filter(
            |path: Seq<char>| is_under(path, path_join(layout@, "data"@)),
        ).len(),
{
    assert(!rank_before(out@[j].rank(), out@[i].rank()));
    lemma_stored_count(path_join(layout@, "data"@), texts(files@));
}

proof fn lemma_stored_count(data: Seq<char>, paths: Seq<Seq<char>>)
    ensures
        stored_snapshots(data, paths).len() == paths.filter(
            |path: Seq<char>| is_under(path, data),
        ).len(),
    decreases paths.len(),
{
    reveal(Seq::filter);
    if paths.len() > 0 {
        lemma_stored_count(data, paths.drop_last());
    }
}

/// A snapshot is gathered in the directory for what is not complete, under the digest of its key.
pub proof fn lemma_where_a_snapshot_is_gathered(
    layout: Layout,
    key: &str,
    out: String,
    bytes: &[u8],
    digest: String,
)
    requires
        call_ensures(Layout::temp_path_for_key, (&layout, key), out),
        bytes@ == encode_utf8(key@),
        call_ensures(digest_text, (bytes,), digest),
    ensures
        out@ == path_join(path_join(layout@, "tmp"@), digest@ + ".part"@),
        components(out@).len() == components(layout@).len() + 2,
        is_under(out@, layout@),
        !is_under(out@, path_join(layout@, "data"@)),
{
    reveal_strlit("tmp");
    reveal_strlit("data");
    reveal_strlit(".");
    reveal_strlit(".part");
    assert("tmp"@.len() == 3 && "data"@.len() == 4 && "."@.len() == 1 && ".part"@.len() == 5);
    let name = digest@ + ".part"@;
    assert forall|i: int| 0 <= i < name.len() implies name[i] != '/' by {
        if i < digest@.len() {
            assert(hex_digit(digest@[i]));
        } else {
            assert(name[i] == ".part"@[i - digest@.len()]);
        }
    }
    let tmp = path_join(layout@, "tmp"@);
    lemma_join_adds_component(layout@, "tmp"@);
    lemma_join_adds_component(layout@, "data"@);
    lemma_join_adds_component(tmp, name);
    let n = components(layout@).len() as int;
    let all = components(out@);
    let data = components(path_join(layout@, "data"@));
    assert(all.take(n) =~= components(layout@));
    assert(all.take(n + 1)[n] == "tmp"@);
    assert(data[n] == "data"@);
}

/// A path that starts at the root stands for itself, wherever it is joined. Any other is put behind,
/// with one slash between.
pub proof fn lemma_joined_path(base: &str, part: &str, out: String)
    requires
        call_ensures(join_path, (base, part), out),
    ensures
        part@.len() > 0 && part@[0] == '/' ==> out@ == part@,
        part@.len() > 0 && part@[0] != '/' && base@.len() > 0 ==> {
            &&& out@.take(base@.len() as int) == base@
            &&& out@.skip(out@.len() - part@.len()) == part@
            &&& out@.len() == base@.len() + part@.len() + (if base@.last() == '/' {
                0int
            } else {
                1int
            })
            &&& base@.last() != '/' ==> out@[base@.len() as int] == '/'
        },
        base@.len() == 0 ==> out@ == part@,
{
    if !(part@.len() > 0 && part@[0] == '/') {
        if base@.len() == 0 {
            assert(base@ + part@ =~= part@);
        } else {
            assert(out@.take(base@.len() as int) =~= base@);
            assert(out@.skip(out@.len() - part@.len()) =~= part@);
        }
    }
}

} // verus!
