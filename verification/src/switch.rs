//! Switching a working copy from one view to another.

use crate::collections;
use crate::collections::TextSet;
use crate::content;
use crate::content::{EntryError, EntryModel};
use crate::deferred_tree;
use crate::deferred_tree::{ProjectionModel, TreeItem, TreeProjection};
use crate::error;
use crate::error::RepositoryError;
use crate::materialize;
use crate::materialize::{FileModel, RenderBatch};
use crate::paths;
use crate::pristine::Visibility;
use crate::repository::Repository;
use crate::snapshot;
use crate::text;
use crate::types::WorkingCopyId;
use vstd::prelude::*;

verus! {

/// Where the workspace of a view lies.
pub fn workspace_path(dot_dir: &str, view_name: &str) -> (path: String)
    ensures
        path@ == text::joined(text::joined(dot_dir@, "workspaces"@), view_name@),
{
    text::join(text::join(dot_dir, "workspaces").as_str(), view_name)
}

/// Where a working copy's workspace of a view lies.
pub fn working_copy_workspace_path(dot_dir: &str, working_copy: &WorkingCopyId, view_name: &str) -> (path:
    String)
    ensures
        path@ == text::joined(
            text::joined(
                text::joined(text::joined(dot_dir@, "working-copies"@), working_copy@),
                "workspaces"@,
            ),
            view_name@,
        ),
{
    let own: String = text::join(
        text::join(dot_dir, "working-copies").as_str(),
        working_copy.text.as_str(),
    );
    text::join(text::join(own.as_str(), "workspaces").as_str(), view_name)
}

/// Whether a tree shows a file at a path.
pub open spec fn shows_file(tree: ProjectionModel, path: Seq<char>) -> bool {
    tree.present.dom().contains(path) && !tree.present[path].is_directory
}

/// The file paths of a tree.
pub open spec fn shown_files(tree: ProjectionModel) -> Set<Seq<char>> {
    Set::new(|path: Seq<char>| shows_file(tree, path))
}

/// The file paths of a tree.
fn files_of(tree: &TreeProjection) -> (files: TextSet)
    requires
        tree.wf(),
    ensures
        files.wf(),
        files@ == shown_files(tree@),
{
    let ghost model = tree@;
    let entries: &Vec<(String, TreeItem)> = &tree.present.entries;
    let ghost ks = collections::keys(entries@);
    let mut files: TextSet = TextSet::new();
    let mut i: usize = 0;
    while i < entries.len()
        invariant
            i <= entries.len(),
            tree.wf(),
            entries@ == tree.present.entries@,
            model == tree@,
            ks == collections::keys(entries@),
            files.wf(),
            forall|path: Seq<char>| #[trigger]
                files@.contains(path) <==> ks.take(i as int).contains(path) && shows_file(
                    model,
                    path,
                ),
        decreases entries.len() - i,
    {
        let ghost before = files@;
        proof {
            collections::held_entry(entries@, i as int);
            assert(ks[i as int] == entries@[i as int].0@);
            assert(ks.take(i + 1) =~= ks.take(i as int).push(ks[i as int]));
        }
        let ghost name = entries@[i as int].0@;
        assert(ks.take(i + 1)[i as int] == name);
        if !entries[i].1.is_directory {
            files.insert(entries[i].0.as_str());
        }
        assert forall|path: Seq<char>| #[trigger]
            files@.contains(path) <==> ks.take(i + 1).contains(path) && shows_file(model, path) by {
            let grown = ks.take(i + 1);
            let shorter = ks.take(i as int);
            if shorter.contains(path) {
                let at = shorter.index_of(path);
                assert(grown[at] == path);
            }
            if grown.contains(path) && path != name {
                let at = grown.index_of(path);
                assert(shorter[at] == path);
            }
        }
        i = i + 1;
    }
    proof {
        assert(ks.take(i as int) =~= ks);
        assert(files@ =~= shown_files(model));
    }
    files
}

/// The members of a set, in order.
fn sorted_members(set: &TextSet) -> (list: Vec<String>)
    requires
        set.wf(),
    ensures
        text::increasing(text::texts(list@)),
        text::texts(list@).to_set() == set@,
{
    let list: Vec<String> = collections::sorted_distinct(&set.items);
    assert(text::texts(list@).to_set() =~= set@);
    list
}

/// The members of a set that another does not have.
fn difference(a: &TextSet, b: &TextSet) -> (rest: TextSet)
    requires
        a.wf(),
        b.wf(),
    ensures
        rest.wf(),
        rest@ == a@.difference(b@),
{
    let ghost all = text::texts(a.items@);
    let mut rest: TextSet = TextSet::new();
    let mut i: usize = 0;
    while i < a.items.len()
        invariant
            i <= a.items.len(),
            a.wf(),
            b.wf(),
            all == text::texts(a.items@),
            rest.wf(),
            forall|path: Seq<char>| #[trigger]
                rest@.contains(path) <==> all.take(i as int).contains(path) && !b@.contains(path),
        decreases a.items.len() - i,
    {
        let ghost name = all[i as int];
        assert(name == a.items@[i as int]@);
        assert(all.take(i + 1) =~= all.take(i as int).push(name));
        assert(all.take(i + 1)[i as int] == name);
        if !b.contains(a.items[i].as_str()) {
            rest.insert(a.items[i].as_str());
        }
        assert forall|path: Seq<char>| #[trigger]
            rest@.contains(path) <==> all.take(i + 1).contains(path) && !b@.contains(path) by {
            let grown = all.take(i + 1);
            let shorter = all.take(i as int);
            if shorter.contains(path) {
                let at = shorter.index_of(path);
                assert(grown[at] == path);
            }
            if grown.contains(path) && path != name {
                let at = grown.index_of(path);
                assert(shorter[at] == path);
            }
        }
        i = i + 1;
    }
    proof {
        assert(all.take(i as int) =~= all);
        assert(rest@ =~= a@.difference(b@));
    }
    rest
}

/// What a switch does to tracked files, settled before anything is touched.
#[derive(Debug)]
pub struct SwitchPlan {
    /// The view that the working copy leaves.
    pub old_view: String,
    /// Files of the old view only, which leave the disk, in path order.
    pub removed: Vec<String>,
    /// Files of either view, in path order.
    pub tracked_paths: Vec<String>,
    /// The whole target, rendered.
    pub target: RenderBatch,
}

/// The tree that a view shows, or whether `error` says why there is none.
pub open spec fn view_tree(repo: Repository, visibility: Visibility) -> Result<
    ProjectionModel,
    deferred_tree::TreeRefusal,
> {
    deferred_tree::projected_tree(
        repo.pristine@,
        deferred_tree::op_models(repo.journal@),
        visibility,
    )
}

/// Whether a plan moves from what one tree shows to what another shows.
pub open spec fn is_plan(
    plan: SwitchPlan,
    old_view: Seq<char>,
    old_tree: ProjectionModel,
    new_tree: ProjectionModel,
) -> bool {
    &&& plan.old_view@ == old_view
    &&& text::increasing(text::texts(plan.removed@))
    &&& text::texts(plan.removed@).to_set() == shown_files(old_tree).difference(
        shown_files(new_tree),
    )
    &&& text::increasing(text::texts(plan.tracked_paths@))
    &&& text::texts(plan.tracked_paths@).to_set() == shown_files(old_tree).union(
        shown_files(new_tree),
    )
}

/// Whether an answer to a switch request is the right one: both views must be
/// known, their trees must project, and the whole target must render.
pub open spec fn switch_told(
    repo: Repository,
    id: Seq<char>,
    view: Seq<char>,
    found: Result<SwitchPlan, RepositoryError>,
) -> bool {
    match snapshot::baseline(repo, id) {
        Err(fault) => found matches Err(error) && snapshot::reports(error, fault),
        Ok(old_view) => match (repo.view_at(old_view), repo.view_at(view)) {
            (None, _) => found matches Err(RepositoryError::ViewNotFound { name }) && name@
                == old_view,
            (_, None) => found matches Err(RepositoryError::ViewNotFound { name }) && name@ == view,
            (Some(old), Some(new)) => match (
                repo.views@[old].visibility,
                repo.views@[new].visibility,
            ) {
                (Err(cause), _) => found matches Err(RepositoryError::Database(message))
                    && message@ == cause@,
                (_, Err(cause)) => found matches Err(RepositoryError::Database(message))
                    && message@ == cause@,
                (Ok(old_visibility), Ok(new_visibility)) => match (
                    view_tree(repo, old_visibility),
                    view_tree(repo, new_visibility),
                ) {
                    (Err(refusal), _) => found matches Err(error) && error::reports(error, refusal),
                    (_, Err(refusal)) => found matches Err(error) && error::reports(error, refusal),
                    (Ok(old_tree), Ok(new_tree)) => match found {
                        Ok(plan) => is_plan(plan, old_view, old_tree, new_tree)
                            && materialize::batch_told(
                            Ok(plan.target),
                            repo,
                            new_visibility,
                            None,
                        ),
                        Err(error) => materialize::batch_told(
                            Err(error),
                            repo,
                            new_visibility,
                            None,
                        ),
                    },
                },
            },
        },
    }
}

impl Repository {
    /// Plans a switch of a working copy to another view. Whatever could refuse
    /// the switch does so here, before its first effect.
    pub fn switch_view(&self, working_copy: &WorkingCopyId, view: &str) -> (found: Result<
        SwitchPlan,
        RepositoryError,
    >)
        requires
            self.wf(),
        ensures
            switch_told(*self, working_copy@, view@, found),
    {
        if let Err(error) = self.validate_working_copy(working_copy) {
            return Err(error);
        }
        let old_view: String = match self.desired_view_name(working_copy) {
            Ok(name) => name,
            Err(error) => return Err(error),
        };
        let old: usize = match self.find_view(old_view.as_str()) {
            Some(i) => i,
            None => return Err(RepositoryError::ViewNotFound { name: old_view }),
        };
        let new: usize = match self.find_view(view) {
            Some(i) => i,
            None => return Err(RepositoryError::ViewNotFound { name: view.to_owned() }),
        };
        let old_visibility: &Visibility = match &self.views[old].visibility {
            Ok(visibility) => visibility,
            Err(cause) => return Err(RepositoryError::Database(cause.clone())),
        };
        let new_visibility: &Visibility = match &self.views[new].visibility {
            Ok(visibility) => visibility,
            Err(cause) => return Err(RepositoryError::Database(cause.clone())),
        };
        let old_tree: TreeProjection = match self.project(old_visibility) {
            Ok(tree) => tree,
            Err(error) => return Err(error),
        };
        let new_tree: TreeProjection = match self.project(new_visibility) {
            Ok(tree) => tree,
            Err(error) => return Err(error),
        };
        let old_files: TextSet = files_of(&old_tree);
        let new_files: TextSet = files_of(&new_tree);
        let only_old: TextSet = difference(&old_files, &new_files);
        let removed: Vec<String> = sorted_members(&only_old);
        let both: Vec<String> = joined_texts(&old_files.items, &new_files.items);
        let tracked_paths: Vec<String> = collections::sorted_distinct(&both);
        proof {
            assert(text::texts(both@).to_set() =~= old_files@.union(new_files@)) by {
                let a = text::texts(old_files.items@);
                let b = text::texts(new_files.items@);
                assert forall|path: Seq<char>| (a + b).contains(path) <==> a.contains(path)
                    || b.contains(path) by {
                    if a.contains(path) {
                        assert((a + b)[a.index_of(path)] == path);
                    }
                    if b.contains(path) {
                        assert((a + b)[a.len() + b.index_of(path)] == path);
                    }
                }
            }
        }
        match self.materialize_parallel_with_visibility(&None, new_visibility) {
            Ok(target) => Ok(SwitchPlan { old_view, removed, tracked_paths, target }),
            Err(error) => Err(error),
        }
    }
}

/// Two lists of texts, one behind the other.
fn joined_texts(a: &Vec<String>, b: &Vec<String>) -> (both: Vec<String>)
    ensures
        text::texts(both@) == text::texts(a@) + text::texts(b@),
{
    let mut both: Vec<String> = text::dup_all(a);
    let ghost first = text::texts(a@);
    let ghost second = text::texts(b@);
    let mut i: usize = 0;
    proof {
        assert(text::texts(both@) =~= first + second.take(0));
    }
    while i < b.len()
        invariant
            i <= b.len(),
            first == text::texts(a@),
            second == text::texts(b@),
            text::texts(both@) == first + second.take(i as int),
        decreases b.len() - i,
    {
        let ghost before = text::texts(both@);
        both.push(b[i].clone());
        assert(text::texts(both@) =~= before.push(second[i as int]));
        assert(text::texts(both@) =~= first + second.take(i + 1));
        i = i + 1;
    }
    assert(second.take(i as int) =~= second);
    both
}

/// Whether a path is at or below an exposed one.
pub open spec fn is_exposed(patterns: Seq<Seq<char>>, path: Seq<char>) -> bool {
    exists|i: int|
        0 <= i < patterns.len() && ((#[trigger] patterns[i]) == path || patterns[i].push(
            '/',
        ).is_prefix_of(path))
}

/// Whether a path is a tracked file or holds one.
pub open spec fn holds_tracked(tracked_paths: Seq<Seq<char>>, path: Seq<char>) -> bool {
    exists|i: int|
        0 <= i < tracked_paths.len() && ((#[trigger] tracked_paths[i]) == path || path.push(
            '/',
        ).is_prefix_of(tracked_paths[i]))
}

/// Whether an ignored path is put away with the view it belongs to.
pub open spec fn is_shelved(
    tracked_paths: Seq<Seq<char>>,
    patterns: Seq<Seq<char>>,
    path: Seq<char>,
) -> bool {
    !holds_tracked(tracked_paths, path) && !is_exposed(patterns, path)
}

/// The first `n` ignored paths as far as they are put away.
pub open spec fn shelved(
    tracked_paths: Seq<Seq<char>>,
    patterns: Seq<Seq<char>>,
    ignored: Seq<Seq<char>>,
    n: int,
) -> Seq<Seq<char>>
    decreases n,
{
    if n <= 0 {
        Seq::empty()
    } else {
        let rest = shelved(tracked_paths, patterns, ignored, n - 1);
        if is_shelved(tracked_paths, patterns, ignored[n - 1]) {
            rest.push(ignored[n - 1])
        } else {
            rest
        }
    }
}

/// Whether `path` is `base` or lies below it.
fn is_at_or_below(path: &str, base: &str) -> (answer: bool)
    ensures
        answer == (base@ == path@ || base@.push('/').is_prefix_of(path@)),
{
    if text::same(base, path) {
        return true;
    }
    let mut prefix: String = base.to_owned();
    prefix.append("/");
    proof {
        reveal_strlit("/");
        assert(prefix@ =~= base@.push('/'));
    }
    text::starts_with(path, prefix.as_str())
}

/// Whether an ignored path is put away.
fn does_shelve(tracked_paths: &Vec<String>, patterns: &Vec<String>, path: &str) -> (answer: bool)
    ensures
        answer == is_shelved(text::texts(tracked_paths@), text::texts(patterns@), path@),
{
    let ghost kept = text::texts(tracked_paths@);
    let ghost exposed = text::texts(patterns@);
    let mut i: usize = 0;
    while i < tracked_paths.len()
        invariant
            i <= tracked_paths.len(),
            kept == text::texts(tracked_paths@),
            exposed == text::texts(patterns@),
            forall|k: int|
                0 <= k < i ==> !((#[trigger] kept[k]) == path@ || path@.push('/').is_prefix_of(
                    kept[k],
                )),
        decreases tracked_paths.len() - i,
    {
        assert(kept[i as int] == tracked_paths@[i as int]@);
        if is_at_or_below(tracked_paths[i].as_str(), path) {
            assert(holds_tracked(kept, path@));
            return false;
        }
        i = i + 1;
    }
    assert(!holds_tracked(kept, path@));
    let mut j: usize = 0;
    while j < patterns.len()
        invariant
            j <= patterns.len(),
            exposed == text::texts(patterns@),
            kept == text::texts(tracked_paths@),
            !holds_tracked(kept, path@),
            forall|k: int|
                0 <= k < j ==> !((#[trigger] exposed[k]) == path@ || exposed[k].push(
                    '/',
                ).is_prefix_of(path@)),
        decreases patterns.len() - j,
    {
        assert(exposed[j as int] == patterns@[j as int]@);
        if is_at_or_below(path, patterns[j].as_str()) {
            assert(is_exposed(exposed, path@));
            return false;
        }
        j = j + 1;
    }
    true
}

/// The ignored paths that are put away with the view that a switch leaves, in
/// their order. Tracked files belong to the graph, and exposed paths persist
/// across views.
pub fn shelved_paths(tracked_paths: &Vec<String>, patterns: &Vec<String>, ignored: &Vec<String>) -> (list:
    Vec<String>)
    ensures
        text::texts(list@) == shelved(
            text::texts(tracked_paths@),
            text::texts(patterns@),
            text::texts(ignored@),
            ignored@.len() as int,
        ),
{
    let ghost kept = text::texts(tracked_paths@);
    let ghost exposed = text::texts(patterns@);
    let ghost all = text::texts(ignored@);
    let mut list: Vec<String> = Vec::new();
    let mut i: usize = 0;
    proof {
        assert(text::texts(list@) =~= Seq::empty());
    }
    while i < ignored.len()
        invariant
            i <= ignored.len(),
            kept == text::texts(tracked_paths@),
            exposed == text::texts(patterns@),
            all == text::texts(ignored@),
            text::texts(list@) == shelved(kept, exposed, all, i as int),
        decreases ignored.len() - i,
    {
        let ghost before = text::texts(list@);
        assert(all[i as int] == ignored@[i as int]@);
        if does_shelve(tracked_paths, patterns, ignored[i].as_str()) {
            list.push(ignored[i].clone());
            assert(text::texts(list@) =~= before.push(all[i as int]));
        }
        i = i + 1;
    }
    list
}

/// No switch puts away a tracked file of either view, a directory that holds
/// one, or an exposed path.
pub proof fn shelving_spares_tracked_and_exposed(
    tracked_paths: Seq<Seq<char>>,
    patterns: Seq<Seq<char>>,
    ignored: Seq<Seq<char>>,
    n: int,
    path: Seq<char>,
)
    requires
        0 <= n <= ignored.len(),
    ensures
        shelved(tracked_paths, patterns, ignored, n).contains(path) <==> ignored.take(n).contains(
            path,
        ) && is_shelved(tracked_paths, patterns, path),
    decreases n,
{
    if n == 0 {
        assert(ignored.take(0) =~= Seq::empty());
    } else {
        shelving_spares_tracked_and_exposed(tracked_paths, patterns, ignored, n - 1, path);
        let rest = shelved(tracked_paths, patterns, ignored, n - 1);
        let all = shelved(tracked_paths, patterns, ignored, n);
        let grown = ignored.take(n);
        let shorter = ignored.take(n - 1);
        assert(grown =~= shorter.push(ignored[n - 1]));
        assert(grown[n - 1] == ignored[n - 1]);
        if shorter.contains(path) {
            assert(grown[shorter.index_of(path)] == path);
        }
        if grown.contains(path) && path != ignored[n - 1] {
            assert(shorter[grown.index_of(path)] == path);
        }
        if rest.contains(path) {
            assert(all[rest.index_of(path)] == path);
        }
        if all.contains(path) && path != ignored[n - 1] {
            assert(rest[all.index_of(path)] == path);
        }
        if is_shelved(tracked_paths, patterns, ignored[n - 1]) {
            assert(all[rest.len() as int] == ignored[n - 1]);
        }
    }
}

/// The first list, and what the first `n` of the second add to it.
pub open spec fn merged(global: Seq<Seq<char>>, local: Seq<Seq<char>>, n: int) -> Seq<Seq<char>>
    decreases n,
{
    if n <= 0 {
        global
    } else {
        let rest = merged(global, local, n - 1);
        if rest.contains(local[n - 1]) {
            rest
        } else {
            rest.push(local[n - 1])
        }
    }
}

/// Exposed paths of the user and of the repository, each once behind the
/// user's.
pub fn merge_expose_patterns(global: &Vec<String>, local: &Vec<String>) -> (patterns: Vec<String>)
    ensures
        text::texts(patterns@) == merged(
            text::texts(global@),
            text::texts(local@),
            local@.len() as int,
        ),
{
    let ghost first = text::texts(global@);
    let ghost second = text::texts(local@);
    let mut patterns: Vec<String> = text::dup_all(global);
    let mut i: usize = 0;
    while i < local.len()
        invariant
            i <= local.len(),
            first == text::texts(global@),
            second == text::texts(local@),
            text::texts(patterns@) == merged(first, second, i as int),
        decreases local.len() - i,
    {
        let ghost before = text::texts(patterns@);
        assert(second[i as int] == local@[i as int]@);
        if !collections::contains_text(&patterns, local[i].as_str()) {
            patterns.push(local[i].clone());
            assert(text::texts(patterns@) =~= before.push(second[i as int]));
        }
        i = i + 1;
    }
    patterns
}

/// What a walk for ignored paths does with an entry.
#[derive(Clone, Copy, Debug, PartialEq, Eq, Structural)]
pub enum IgnoredStep {
    /// Nothing.
    Leave,
    /// Collect the entry, and do not look below it.
    Collect,
    /// Look below it.
    Descend,
}

/// Whether a component names a version-control directory.
pub open spec fn is_admin_name(name: Seq<char>) -> bool {
    name == ".atomic"@ || name == ".git"@
}

/// What a walk for ignored paths does with an entry whose path begins with
/// the component `first`.
pub open spec fn ignored_step_at(first: Seq<char>, is_ignored: bool, is_directory: bool) -> IgnoredStep {
    if is_admin_name(first) {
        IgnoredStep::Leave
    } else if is_ignored {
        IgnoredStep::Collect
    } else if is_directory {
        IgnoredStep::Descend
    } else {
        IgnoredStep::Leave
    }
}

/// Decides on an entry of a walk for ignored paths.
pub fn ignored_step(first: &str, is_ignored: bool, is_directory: bool) -> (step: IgnoredStep)
    ensures
        step == ignored_step_at(first@, is_ignored, is_directory),
{
    if text::same(first, ".atomic") || text::same(first, ".git") {
        IgnoredStep::Leave
    } else if is_ignored {
        IgnoredStep::Collect
    } else if is_directory {
        IgnoredStep::Descend
    } else {
        IgnoredStep::Leave
    }
}

/// How an entry comes back from a workspace.
#[derive(Clone, Copy, Debug, PartialEq, Eq, Structural)]
pub enum RestoreStep {
    /// It stays where it is.
    Skip,
    /// Its contents are merged into the directory that stands there.
    Merge,
    /// It is moved.
    Move,
}

/// How an entry comes back: at the top, version-control directories stay; two
/// directories are merged; anything else is moved.
pub fn restore_step(at_top: bool, name: &str, is_directory: bool, meets_directory: bool) -> (step:
    RestoreStep)
    ensures
        step == (if at_top && is_admin_name(name@) {
            RestoreStep::Skip
        } else if is_directory && meets_directory {
            RestoreStep::Merge
        } else {
            RestoreStep::Move
        }),
{
    if at_top && (text::same(name, ".atomic") || text::same(name, ".git")) {
        RestoreStep::Skip
    } else if is_directory && meets_directory {
        RestoreStep::Merge
    } else {
        RestoreStep::Move
    }
}

/// The last separator of a text lies in it.
pub proof fn separator_fits(s: Seq<char>, separator: char)
    ensures
        -1 <= text::last_separator(s, separator) < s.len(),
    decreases s.len(),
{
    if s.len() > 0 {
        separator_fits(s.drop_last(), separator);
    }
}

/// The directories that a relative path lies in, the nearest first.
pub open spec fn ancestors(path: Seq<char>) -> Seq<Seq<char>>
    decreases path.len(),
{
    proof {
        separator_fits(path, '/');
    }
    match text::parent(path) {
        None => Seq::empty(),
        Some(parent) => if parent.len() == 0 || parent == "."@ {
            Seq::empty()
        } else {
            seq![parent] + ancestors(parent)
        },
    }
}

/// How many components a path has.
pub open spec fn depth(path: Seq<char>) -> nat {
    paths::components(path).len()
}

/// Whether directories stand deepest first.
pub open spec fn deepest_first(list: Seq<Seq<char>>) -> bool {
    forall|i: int, j: int|
        0 <= i < j < list.len() ==> depth(#[trigger] list[i]) >= depth(#[trigger] list[j])
}

/// How many components a path has.
fn depth_of(path: &str) -> (count: usize)
    ensures
        count == depth(path@),
{
    let list: Vec<String> = paths::components_of(path);
    assert(text::texts(list@).len() == list@.len());
    list.len()
}

/// Adds a directory to a list that stands deepest first, unless it is there.
fn add_directory(list: &mut Vec<String>, directory: &str)
    requires
        deepest_first(text::texts(old(list)@)),
        text::texts(old(list)@).no_duplicates(),
    ensures
        deepest_first(text::texts(final(list)@)),
        text::texts(final(list)@).no_duplicates(),
        text::texts(final(list)@).to_set() == text::texts(old(list)@).to_set().insert(directory@),
{
    let ghost held = text::texts(list@);
    let ghost name = directory@;
    if collections::contains_text(list, directory) {
        assert(held.to_set().insert(name) =~= held.to_set());
        return ;
    }
    let own: usize = depth_of(directory);
    let mut at: usize = 0;
    while at < list.len() && depth_of(list[at].as_str()) >= own
        invariant
            at <= list.len(),
            held == text::texts(list@),
            own == depth(name),
            forall|k: int| 0 <= k < at ==> depth(#[trigger] held[k]) >= own,
        decreases list.len() - at,
    {
        assert(held[at as int] == list@[at as int]@);
        at = at + 1;
    }
    list.insert(at, directory.to_owned());
    proof {
        let all = text::texts(list@);
        assert(all =~= held.insert(at as int, name));
        if at < held.len() {
            assert(depth(held[at as int]) < own);
        }
        assert forall|i: int, j: int| 0 <= i < j < all.len() implies depth(#[trigger] all[i])
            >= depth(#[trigger] all[j]) by {
            if j < at {
                assert(depth(held[i]) >= depth(held[j]));
            } else if j == at {
                assert(depth(held[i]) >= own);
            } else if i < at {
                assert(depth(held[i]) >= depth(held[j - 1]));
            } else if i == at {
                assert(all[i] == name);
                if at < j - 1 {
                    assert(depth(held[at as int]) >= depth(held[j - 1]));
                }
            } else {
                assert(depth(held[i - 1]) >= depth(held[j - 1]));
            }
        }
        assert forall|i: int, j: int| 0 <= i < j < all.len() implies all[i] != all[j] by {
            if i == at {
                assert(all[j] == held[j - 1]);
                assert(held.contains(held[j - 1]));
            } else if j == at {
                assert(all[i] == held[i]);
                assert(held.contains(held[i]));
            } else {
                let a = if i < at { i } else { i - 1 };
                let b = if j < at { j } else { j - 1 };
                assert(all[i] == held[a] && all[j] == held[b]);
            }
        }
        assert(all.to_set() =~= held.to_set().insert(name)) by {
            assert forall|x: Seq<char>| all.contains(x) <==> held.contains(x) || x == name by {
                assert(all[at as int] == name);
                if held.contains(x) {
                    let k = held.index_of(x);
                    assert(all[if k < at { k } else { k + 1 }] == x);
                }
                if all.contains(x) && x != name {
                    let k = all.index_of(x);
                    assert(held[if k < at { k } else { k - 1 }] == x);
                }
            }
        }
    }
}

/// The directories that the first `n` paths lie in.
pub open spec fn all_ancestors(removed: Seq<Seq<char>>, n: int) -> Set<Seq<char>> {
    Set::new(
        |d: Seq<char>|
            exists|i: int| 0 <= i < n && ancestors(#[trigger] removed[i]).contains(d),
    )
}

/// The directories that may have become empty once `removed` are gone: all that
/// they lie in, each once and the deepest first.
pub fn emptied_ancestors(removed: &Vec<String>) -> (list: Vec<String>)
    ensures
        text::texts(list@).no_duplicates(),
        deepest_first(text::texts(list@)),
        text::texts(list@).to_set() == all_ancestors(text::texts(removed@), removed@.len() as int),
{
    let ghost paths = text::texts(removed@);
    let mut list: Vec<String> = Vec::new();
    let mut i: usize = 0;
    proof {
        assert(text::texts(list@) =~= Seq::empty());
        assert(text::texts(list@).to_set() =~= all_ancestors(paths, 0));
    }
    while i < removed.len()
        invariant
            i <= removed.len(),
            paths == text::texts(removed@),
            text::texts(list@).no_duplicates(),
            deepest_first(text::texts(list@)),
            text::texts(list@).to_set() == all_ancestors(paths, i as int),
        decreases removed.len() - i,
    {
        let ghost before = text::texts(list@).to_set();
        let ghost path = paths[i as int];
        assert(path == removed@[i as int]@);
        let mut current: String = removed[i].clone();
        let mut walking: bool = true;
        while walking
            invariant
                text::texts(list@).no_duplicates(),
                deepest_first(text::texts(list@)),
                walking ==> forall|d: Seq<char>|
                    text::texts(list@).to_set().contains(d) || ancestors(current@).contains(d)
                        <==> before.contains(d) || ancestors(path).contains(d),
                !walking ==> forall|d: Seq<char>|
                    text::texts(list@).to_set().contains(d) <==> before.contains(d) || ancestors(
                        path,
                    ).contains(d),
            decreases
                (if walking {
                    1int
                } else {
                    0int
                }),
                current@.len(),
        {
            proof {
                separator_fits(current@, '/');
            }
            match text::parent_of(current.as_str()) {
                None => {
                    walking = false;
                    proof {
                        assert(ancestors(current@) =~= Seq::empty());
                        assert forall|d: Seq<char>|
                            text::texts(list@).to_set().contains(d) <==> before.contains(d)
                                || ancestors(path).contains(d) by {
                            assert(!ancestors(current@).contains(d));
                        }
                    }
                },
                Some(parent) => {
                    let ghost chain = ancestors(current@);
                    assert(forall|d: Seq<char>|
                        #![trigger before.contains(d)]
                        text::texts(list@).to_set().contains(d) || chain.contains(d)
                            <==> before.contains(d) || ancestors(path).contains(d));
                    if text::same(parent.as_str(), "") || text::same(parent.as_str(), ".") {
                        walking = false;
                        proof {
                            reveal_strlit("");
                            assert(chain =~= Seq::empty());
                            assert forall|d: Seq<char>|
                                text::texts(list@).to_set().contains(d) <==> before.contains(d)
                                    || ancestors(path).contains(d) by {
                                assert(!chain.contains(d));
                                let known = before.contains(d);
                            }
                        }
                    } else {
                        let ghost held = text::texts(list@).to_set();
                        add_directory(&mut list, parent.as_str());
                        proof {
                            reveal_strlit("");
                            if parent@.len() == 0 {
                                assert(parent@ =~= ""@);
                            }
                            let rest = ancestors(parent@);
                            assert(chain == seq![parent@] + rest);
                            assert forall|d: Seq<char>| chain.contains(d) <==> d == parent@
                                || rest.contains(d) by {
                                assert(chain[0] == parent@);
                                if rest.contains(d) {
                                    assert(chain[rest.index_of(d) + 1] == d);
                                }
                                if chain.contains(d) && d != parent@ {
                                    assert(rest[chain.index_of(d) - 1] == d);
                                }
                            }
                        }
                        current = parent;
                    }
                },
            }
        }
        proof {
            let all = text::texts(list@).to_set();
            assert forall|d: Seq<char>| all.contains(d) <==> all_ancestors(paths, i + 1).contains(
                d,
            ) by {
                if before.contains(d) {
                    let k: int = choose|k: int|
                        0 <= k < i && ancestors(#[trigger] paths[k]).contains(d);
                    assert(0 <= k < i + 1 && ancestors(paths[k]).contains(d));
                }
                if all_ancestors(paths, i + 1).contains(d) {
                    let k: int = choose|k: int|
                        0 <= k < i + 1 && ancestors(#[trigger] paths[k]).contains(d);
                    if k < i {
                        assert(0 <= k < i && ancestors(paths[k]).contains(d));
                    }
                }
            }
            assert(all =~= all_ancestors(paths, i + 1));
        }
        i = i + 1;
    }
    list
}

/// What a switch writes at a path is what a read on the target view gives,
/// where the name is not contested; of what it removes, a read on the target
/// view finds nothing.
pub proof fn switched_files_read_back(
    repo: Repository,
    id: Seq<char>,
    view: Seq<char>,
    plan: SwitchPlan,
)
    requires
        switch_told(repo, id, view, Ok(plan)),
    ensures
        forall|k: int|
            0 <= k < plan.target.files@.len() ==> ({
                let file = #[trigger] plan.target.files@[k];
                let shown = repo.views@[repo.view_at(view)->0].visibility->Ok_0;
                paths::forward_slashes(file.path@) == file.path@ && materialize::name_sides(
                    repo.pristine@,
                    shown,
                    file.path@,
                ).len() == 0 ==> content::entry_on_view(repo, file.path@, view) == Ok::<
                    EntryModel,
                    EntryError,
                >(EntryModel::Present { inode: file.inode, bytes: file.bytes@ })
            }),
        forall|path: Seq<char>| #[trigger]
            text::texts(plan.removed@).contains(path) && paths::forward_slashes(path) == path
                ==> content::entry_on_view(repo, path, view) matches Ok(EntryModel::Absent { .. }),
{
    let old_view = snapshot::baseline(repo, id)->Ok_0;
    let old = repo.view_at(old_view)->0;
    let new = repo.view_at(view)->0;
    let shown = repo.views@[new].visibility->Ok_0;
    let tree = view_tree(repo, shown)->Ok_0;
    let found = Ok::<RenderBatch, RepositoryError>(plan.target);
    assert(materialize::batch_told(found, repo, shown, None));
    let files = choose|files: Seq<FileModel>| #[trigger]
        materialize::batch_outcome(found, repo, shown, tree, None, files);
    assert forall|k: int|
        0 <= k < plan.target.files@.len() && paths::forward_slashes(
            plan.target.files@[k].path@,
        ) == plan.target.files@[k].path@ && materialize::name_sides(
            repo.pristine@,
            shown,
            plan.target.files@[k].path@,
        ).len() == 0 implies content::entry_on_view(
        repo,
        (#[trigger] plan.target.files@[k]).path@,
        view,
    ) == Ok::<EntryModel, EntryError>(
        (EntryModel::Present {
            inode: plan.target.files@[k].inode,
            bytes: plan.target.files@[k].bytes@,
        }),
    ) by {
        let names = materialize::file_paths(files);
        assert(names[k] == files[k].path);
        assert(names.contains(files[k].path));
        assert(materialize::is_file(tree, files[k].path));
    }
    assert forall|path: Seq<char>| #[trigger]
        text::texts(plan.removed@).contains(path) && paths::forward_slashes(path) == path implies (
    content::entry_on_view(repo, path, view) matches Ok(EntryModel::Absent { .. })) by {
        assert(text::texts(plan.removed@).to_set().contains(path));
        assert(!shown_files(tree).contains(path));
        assert(!shows_file(tree, path));
    }
}

} // verus!
