//! Files of the browser, and showing files.

use crate::error::{ErrorView, TickError};
use crate::layout::{data_path, Layout};
use crate::path::{
    components, is_under, join_path, lemma_parent, parent, parent_of, path_join, same_path,
};
use crate::text::{concat2, no_lines, push_line, texts};
use crate::tui::browser::RemoteListTui;
use crate::tui::model::{DayCoverage, FileManagerTarget, ViewMode};
use vstd::prelude::*;

verus! {

/// The file of the bookmarks.
pub fn bookmarks_path(root: &str) -> (out: String)
    ensures
        out@ == path_join(root@, "bookmarks.json"@),
{
    join_path(root, "bookmarks.json")
}

/// The file that tells who was signed in last.
pub fn account_identity_path(root: &str) -> (out: String)
    ensures
        out@ == path_join(path_join(root@, "account"@), "identity.json"@),
{
    let account = join_path(root, "account");
    join_path(account.as_str(), "identity.json")
}

// ---------------------------------------------------------------------------
// What the file manager is to show
// ---------------------------------------------------------------------------

/// What is at a path.
#[derive(Debug, Clone, Copy, PartialEq, Eq, Structural)]
pub enum PathKind {
    File,
    Directory,
    Nothing,
}

/// A path that may be shown.
#[derive(Debug)]
pub struct RevealCandidate {
    pub path: String,
    /// Whether a file may be shown, and not only a directory.
    pub exact: bool,
}

/// The candidates as paths that may be shown, each with whether it may be a file.
pub open spec fn candidate_views(v: Seq<RevealCandidate>) -> Seq<(Seq<char>, bool)> {
    v.map_values(|c: RevealCandidate| (c.path@, c.exact))
}

/// The directories above a path, up to `root` where it is one of them.
pub open spec fn dirs_above(path: Seq<char>, root: Seq<char>) -> Seq<(Seq<char>, bool)>
    decreases path.len(),
    via dirs_above_are_shorter
{
    match parent(path) {
        None => seq![],
        Some(dir) => if components(dir) == components(root) {
            seq![(dir, false)]
        } else {
            seq![(dir, false)] + dirs_above(dir, root)
        },
    }
}

#[via_fn]
proof fn dirs_above_are_shorter(path: Seq<char>, root: Seq<char>) {
    lemma_parent(path);
}

/// What may be shown for these paths: each path itself, then the directories above it.
pub open spec fn candidates_for(paths: Seq<Seq<char>>, root: Seq<char>) -> Seq<(Seq<char>, bool)>
    decreases paths.len(),
{
    if paths.len() == 0 {
        seq![]
    } else {
        candidates_for(paths.drop_last(), root) + seq![(paths.last(), true)] + dirs_above(
            paths.last(),
            root,
        )
    }
}

/// Puts the directories above a path behind the candidates.
fn push_dirs_above(out: &mut Vec<RevealCandidate>, path: &str, root: &str)
    ensures
        candidate_views(final(out)@) == candidate_views(old(out)@) + dirs_above(path@, root@),
{
    let ghost goal = candidate_views(out@) + dirs_above(path@, root@);
    let mut below: String = path.to_owned();
    loop
        invariant_except_break
            goal == candidate_views(out@) + dirs_above(below@, root@),
        ensures
            candidate_views(out@) == goal,
        decreases below@.len(),
    {
        let ghost seen = candidate_views(out@);
        let ghost rest = dirs_above(below@, root@);
        proof {
            lemma_parent(below@);
        }
        match parent_of(below.as_str()) {
            None => {
                assert(seen + rest =~= seen);
                break;
            },
            Some(dir) => {
                out.push(RevealCandidate { path: dir.clone(), exact: false });
                assert(candidate_views(out@) =~= seen + seq![(dir@, false)]);
                if same_path(dir.as_str(), root) {
                    break;
                }
                assert(candidate_views(out@) + dirs_above(dir@, root@) =~= seen + rest);
                below = dir;
            },
        }
    }
}

/// What may be shown for snapshots: the files, then the directories above them, then the data
/// directory.
pub fn reveal_candidates(data_root: &str, paths: &Vec<String>) -> (out: Vec<RevealCandidate>)
    ensures
        candidate_views(out@) == candidates_for(texts(paths@), data_root@) + seq![
            (data_root@, false),
        ],
{
    let ghost all = texts(paths@);
    let mut out: Vec<RevealCandidate> = Vec::new();
    assert(candidate_views(out@) =~= candidates_for(all.take(0), data_root@));
    for i in 0..paths.len()
        invariant
            all == texts(paths@),
            candidate_views(out@) == candidates_for(all.take(i as int), data_root@),
    {
        let ghost before = candidate_views(out@);
        assert(all.take(i + 1).drop_last() =~= all.take(i as int));
        assert(all.take(i + 1).last() == paths@[i as int]@);
        out.push(RevealCandidate { path: paths[i].clone(), exact: true });
        assert(candidate_views(out@) =~= before + seq![(paths@[i as int]@, true)]);
        push_dirs_above(&mut out, paths[i].as_str(), data_root);
    }
    assert(all.take(all.len() as int) =~= all);
    let ghost before = candidate_views(out@);
    out.push(RevealCandidate { path: data_root.to_owned(), exact: false });
    assert(candidate_views(out@) =~= before + seq![(data_root@, false)]);
    out
}

/// Whether a candidate can be shown.
pub open spec fn can_show(candidate: RevealCandidate, kind: PathKind) -> bool {
    kind == PathKind::Directory || (kind == PathKind::File && candidate.exact)
}

/// What is shown: the first candidate that is there, a directory, or a file where it may be one.
pub fn snapshot_reveal_target(candidates: &Vec<RevealCandidate>, kinds: &Vec<PathKind>) -> (out: Option<
    FileManagerTarget,
>)
    requires
        candidates@.len() == kinds@.len(),
    ensures
        out is None <==> forall|i: int|
            0 <= i < kinds@.len() ==> !can_show(#[trigger] candidates@[i], kinds@[i]),
        out matches Some(target) ==> exists|i: int|
            {
                &&& 0 <= i < kinds@.len()
                &&& can_show(#[trigger] candidates@[i], kinds@[i])
                &&& forall|j: int| 0 <= j < i ==> !can_show(#[trigger] candidates@[j], kinds@[j])
                &&& match target {
                    FileManagerTarget::File(path) => kinds@[i] == PathKind::File && path@
                        == candidates@[i].path@,
                    FileManagerTarget::Directory(path) => kinds@[i] == PathKind::Directory && path@
                        == candidates@[i].path@,
                }
            },
{
    for i in 0..candidates.len()
        invariant
            candidates@.len() == kinds@.len(),
            forall|j: int| 0 <= j < i ==> !can_show(#[trigger] candidates@[j], kinds@[j]),
    {
        let candidate = &candidates[i];
        match kinds[i] {
            PathKind::File => {
                if candidate.exact {
                    assert(can_show(candidates@[i as int], kinds@[i as int]));
                    return Some(FileManagerTarget::File(candidate.path.clone()));
                }
            },
            PathKind::Directory => {
                assert(can_show(candidates@[i as int], kinds@[i as int]));
                return Some(FileManagerTarget::Directory(candidate.path.clone()));
            },
            PathKind::Nothing => {},
        }
    }
    None
}

/// The keys of a day that may be shown: those stored, or where there are none, those on the server.
pub open spec fn keys_to_show(day: DayCoverage) -> Seq<Seq<char>> {
    if day.local_keys@.len() == 0 {
        texts(day.remote_keys@)
    } else {
        texts(day.local_keys@)
    }
}

/// The snapshots of a day that may be shown, and what is said where none is there.
#[derive(Debug)]
pub struct RevealRequest {
    pub data_root: String,
    pub paths: Vec<String>,
    /// What is said where neither a snapshot nor a directory is there.
    pub fallback: String,
}

/// The paths of snapshots. The first key without a path is refused.
fn paths_of(layout: &Layout, keys: &Vec<String>) -> (out: Result<Vec<String>, TickError>)
    ensures
        match out {
            Ok(paths) => {
                &&& paths@.len() == keys@.len()
                &&& forall|i: int|
                    0 <= i < keys@.len() ==> data_path(layout@, keys@[i]@) == Ok::<
                        Seq<char>,
                        Seq<char>,
                    >((#[trigger] paths@[i])@)
            },
            Err(error) => exists|i: int|
                {
                    &&& 0 <= i < keys@.len()
                    &&& data_path(layout@, (#[trigger] keys@[i])@) is Err
                    &&& error@ == ErrorView::InvalidArgument(data_path(layout@, keys@[i]@)->Err_0)
                    &&& forall|j: int|
                        0 <= j < i ==> data_path(layout@, (#[trigger] keys@[j])@) is Ok
                },
        },
{
    let mut paths: Vec<String> = Vec::new();
    for i in 0..keys.len()
        invariant
            paths@.len() == i,
            forall|j: int|
                0 <= j < i ==> data_path(layout@, keys@[j]@) == Ok::<Seq<char>, Seq<char>>(
                    (#[trigger] paths@[j])@,
                ),
    {
        match layout.data_path_for_key(keys[i].as_str()) {
            Ok(path) => {
                paths.push(path);
            },
            Err(error) => {
                proof {
                    assert forall|j: int| 0 <= j < i implies data_path(
                        layout@,
                        (#[trigger] keys@[j])@,
                    ) is Ok by {
                        let path = paths@[j];
                    }
                    assert(data_path(layout@, keys@[i as int]@) is Err);
                }
                return Err(error);
            },
        }
    }
    Ok(paths)
}

impl RemoteListTui {
    /// The snapshots of the selected day that may be shown, where there is such a day.
    pub fn reveal_selected_day_snapshot(&self) -> (out: Result<Option<RevealRequest>, TickError>)
        requires
            self.valid(),
        ensures
            match self.mode {
                ViewMode::Dataset(view) => if !view.has_day() {
                    out matches Ok(None)
                } else {
                    let keys = keys_to_show(view.days@[view.selected_day as int]);
                    match out {
                        Ok(Some(request)) => {
                            &&& request.data_root@ == path_join(self.root@, "data"@)
                            &&& request.paths@.len() == keys.len()
                            &&& forall|i: int|
                                0 <= i < keys.len() ==> data_path(self.root@, keys[i]) == Ok::<
                                    Seq<char>,
                                    Seq<char>,
                                >((#[trigger] request.paths@[i])@)
                            &&& request.fallback@ == "snapshot folder not created yet: "@ + (
                            if keys.len() > 0 {
                                request.paths@[0]@
                            } else {
                                request.data_root@
                            })
                        },
                        Ok(None) => false,
                        Err(error) => exists|i: int|
                            {
                                &&& 0 <= i < keys.len()
                                &&& data_path(self.root@, #[trigger] keys[i]) is Err
                                &&& error@ == ErrorView::InvalidArgument(
                                    data_path(self.root@, keys[i])->Err_0,
                                )
                                &&& forall|j: int|
                                    0 <= j < i ==> data_path(self.root@, #[trigger] keys[j]) is Ok
                            },
                    }
                },
                _ => out matches Ok(None),
            },
    {
        let view = match &self.mode {
            ViewMode::Dataset(view) => view,
            _ => {
                return Ok(None);
            },
        };
        if view.days.len() == 0 {
            return Ok(None);
        }
        let layout = Layout::new(self.root.clone());
        let day = view.selected_coverage();
        let keys = if day.local_keys.len() == 0 {
            &day.remote_keys
        } else {
            &day.local_keys
        };
        let ghost all = keys_to_show(*day);
        assert(all =~= texts(keys@));
        assert(forall|i: int| 0 <= i < all.len() ==> #[trigger] all[i] == keys@[i]@);
        match paths_of(&layout, keys) {
            Ok(paths) => {
                let data_root = layout.data_root();
                let shown = if paths.len() > 0 {
                    paths[0].clone()
                } else {
                    data_root.clone()
                };
                let fallback = concat2("snapshot folder not created yet: ", shown.as_str());
                Ok(Some(RevealRequest { data_root, paths, fallback }))
            },
            Err(error) => {
                proof {
                    let i = choose|i: int|
                        {
                            &&& 0 <= i < keys@.len()
                            &&& data_path(layout@, (#[trigger] keys@[i])@) is Err
                            &&& error@ == ErrorView::InvalidArgument(
                                data_path(layout@, keys@[i]@)->Err_0,
                            )
                            &&& forall|j: int|
                                0 <= j < i ==> data_path(layout@, (#[trigger] keys@[j])@) is Ok
                        };
                    assert(all[i] == keys@[i]@);
                    assert forall|j: int| 0 <= j < i implies data_path(
                        self.root@,
                        #[trigger] all[j],
                    ) is Ok by {
                        assert(all[j] == keys@[j]@);
                    }
                }
                Err(error)
            },
        }
    }
}

// ---------------------------------------------------------------------------
// Programs of the system
// ---------------------------------------------------------------------------

/// The kinds of systems that show files and pages differently.
#[derive(Debug, Clone, Copy, PartialEq, Eq, Structural)]
pub enum Platform {
    MacOs,
    Windows,
    Other,
}

/// The program, and its words, that shows a page in the user's browser.
pub fn open_url_command(url: &str, platform: Platform) -> (out: Vec<String>)
    ensures
        texts(out@) == seq![
            match platform {
                Platform::MacOs => "open"@,
                Platform::Windows => "explorer"@,
                Platform::Other => "xdg-open"@,
            },
            url@,
        ],
{
    let program = match platform {
        Platform::MacOs => "open",
        Platform::Windows => "explorer",
        Platform::Other => "xdg-open",
    };
    let mut out = no_lines();
    push_line(&mut out, program.to_owned());
    push_line(&mut out, url.to_owned());
    assert(texts(out@) =~= seq![program@, url@]);
    out
}

/// The words that show a file or a directory in the file manager.
pub open spec fn file_manager_words(target: FileManagerTarget, platform: Platform) -> Seq<Seq<char>> {
    match (platform, target) {
        (Platform::MacOs, FileManagerTarget::File(path)) => seq!["open"@, "-R"@, path@],
        (Platform::MacOs, FileManagerTarget::Directory(path)) => seq!["open"@, path@],
        (Platform::Windows, FileManagerTarget::File(path)) => seq![
            "explorer"@,
            "/select,"@ + path@,
        ],
        (Platform::Windows, FileManagerTarget::Directory(path)) => seq!["explorer"@, path@],
        (Platform::Other, FileManagerTarget::File(path)) => seq![
            "xdg-open"@,
            match parent(path@) {
                Some(dir) => dir,
                None => path@,
            },
        ],
        (Platform::Other, FileManagerTarget::Directory(path)) => seq!["xdg-open"@, path@],
    }
}

/// The program, and its words, that shows a file or a directory in the file manager.
pub fn file_manager_command(target: &FileManagerTarget, platform: Platform) -> (out: Vec<String>)
    ensures
        texts(out@) == file_manager_words(*target, platform),
{
    let mut out = no_lines();
    match platform {
        Platform::MacOs => {
            push_line(&mut out, "open".to_owned());
            match target {
                FileManagerTarget::File(path) => {
                    push_line(&mut out, "-R".to_owned());
                    push_line(&mut out, path.clone());
                },
                FileManagerTarget::Directory(path) => {
                    push_line(&mut out, path.clone());
                },
            }
        },
        Platform::Windows => {
            push_line(&mut out, "explorer".to_owned());
            match target {
                FileManagerTarget::File(path) => {
                    push_line(&mut out, concat2("/select,", path.as_str()));
                },
                FileManagerTarget::Directory(path) => {
                    push_line(&mut out, path.clone());
                },
            }
        },
        Platform::Other => {
            push_line(&mut out, "xdg-open".to_owned());
            match target {
                FileManagerTarget::File(path) => {
                    let shown = match parent_of(path.as_str()) {
                        Some(dir) => dir,
                        None => path.clone(),
                    };
                    push_line(&mut out, shown);
                },
                FileManagerTarget::Directory(path) => {
                    push_line(&mut out, path.clone());
                },
            }
        },
    }
    assert(texts(out@) =~= file_manager_words(*target, platform));
    out
}

// ---------------------------------------------------------------------------
// What may be shown
// ---------------------------------------------------------------------------

proof fn lemma_dirs_above(path: Seq<char>, root: Seq<char>, i: int)
    requires
        0 <= i < dirs_above(path, root).len(),
    ensures
        !dirs_above(path, root)[i].1,
        is_under(path, dirs_above(path, root)[i].0),
    decreases path.len(),
{
    lemma_parent(path);
    let dir = parent(path)->0;
    let all = components(path);
    assert(all.take(all.len() - 1) =~= all.drop_last());
    if i > 0 {
        lemma_dirs_above(dir, root, i - 1);
        let up = dirs_above(dir, root)[i - 1].0;
        let n = components(up).len() as int;
        assert(dirs_above(path, root)[i] == dirs_above(dir, root)[i - 1]);
        assert(all.take(n) =~= components(dir).take(n));
    }
}

proof fn lemma_candidates(paths: Seq<Seq<char>>, root: Seq<char>, i: int)
    requires
        0 <= i < candidates_for(paths, root).len(),
    ensures
        ({
            let (path, exact) = candidates_for(paths, root)[i];
            &&& exact ==> paths.contains(path)
            &&& !exact ==> exists|k: int| 0 <= k < paths.len() && is_under(#[trigger] paths[k], path)
        }),
        paths.len() > 0 ==> candidates_for(paths, root)[0] == (paths[0], true),
    decreases paths.len(),
{
    if paths.len() > 0 {
        let front = paths.drop_last();
        let before = candidates_for(front, root);
        let above = dirs_above(paths.last(), root);
        let all = candidates_for(paths, root);
        assert(all == before + seq![(paths.last(), true)] + above);
        if front.len() > 0 {
            lemma_some_candidate(front, root);
            lemma_candidates(front, root, 0);
            assert(all[0] == before[0]);
        }
        if i < before.len() {
            lemma_candidates(front, root, i);
            assert(all[i] == before[i]);
            let (path, exact) = before[i];
            if exact {
                let k = choose|k: int| 0 <= k < front.len() && front[k] == path;
                assert(paths[k] == path);
            } else {
                let k = choose|k: int| 0 <= k < front.len() && is_under(#[trigger] front[k], path);
                assert(is_under(paths[k], path));
            }
        } else if i == before.len() {
            assert(paths[paths.len() - 1] == paths.last());
        } else {
            lemma_dirs_above(paths.last(), root, i - before.len() - 1);
            assert(all[i] == above[i - before.len() - 1]);
            assert(is_under(paths[paths.len() - 1], all[i].0));
        }
    }
}

proof fn lemma_some_candidate(paths: Seq<Seq<char>>, root: Seq<char>)
    requires
        paths.len() > 0,
    ensures
        candidates_for(paths, root).len() > 0,
{
}

/// What may be shown for snapshots are the files themselves, the first of them first, directories in
/// which one of them lies, and at last the data directory.
pub proof fn lemma_what_may_be_shown(
    data_root: &str,
    paths: Vec<String>,
    out: Vec<RevealCandidate>,
    i: int,
)
    requires
        call_ensures(reveal_candidates, (data_root, &paths), out),
        0 <= i < out@.len() - 1,
    ensures
        out@[i].exact ==> texts(paths@).contains(out@[i].path@),
        !out@[i].exact ==> exists|k: int|
            0 <= k < paths@.len() && is_under((#[trigger] paths@[k])@, out@[i].path@),
        out@.last().path@ == data_root@ && !out@.last().exact,
        paths@.len() > 0 ==> out@[0].path@ == paths@[0]@ && out@[0].exact,
{
    let views = candidate_views(out@);
    let all = candidates_for(texts(paths@), data_root@);
    assert(views.len() == out@.len());
    assert(views[i] == (out@[i].path@, out@[i].exact));
    assert(views[0] == (out@[0].path@, out@[0].exact));
    assert(views[out@.len() - 1] == (out@.last().path@, out@.last().exact));
    lemma_candidates(texts(paths@), data_root@, i);
    assert(views[i] == all[i] && views[0] == all[0]);
    if !out@[i].exact {
        let k = choose|k: int|
            0 <= k < texts(paths@).len() && is_under(#[trigger] texts(paths@)[k], out@[i].path@);
        assert(is_under(paths@[k]@, out@[i].path@));
    }
}

/// A directory can be shown, whatever was wanted, and a file only where a file may be shown. What is
/// not there cannot be shown.
pub proof fn lemma_what_can_be_shown(candidate: RevealCandidate)
    ensures
        can_show(candidate, PathKind::Directory),
        can_show(candidate, PathKind::File) <==> candidate.exact,
        !can_show(candidate, PathKind::Nothing),
{
}

} // verus!
