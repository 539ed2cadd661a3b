//! What a switch leaves on disk.

use crate::deferred_tree::{ProjectionModel, TreeRefusal};
use crate::error::RepositoryError;
use crate::materialize;
use crate::materialize::{FileModel, RenderBatch, RenderedItem};
use crate::path_laws;
use crate::repository::Repository;
use crate::switch;
use crate::switch::{holds_tracked, shelved, switch_told, SwitchPlan};
use crate::text;
use crate::types::Inode;
use vstd::prelude::*;

verus! {

/// The files of a working copy, and those that were put away with each view.
pub ghost struct Workspace {
    pub files: Map<Seq<char>, Seq<u8>>,
    pub shelves: Map<Seq<char>, Map<Seq<char>, Seq<u8>>>,
}

/// Whether `path` is `base` or lies below it.
pub open spec fn at_or_below(base: Seq<char>, path: Seq<char>) -> bool {
    base == path || base.push('/').is_prefix_of(path)
}

/// Whether one of these paths is `path` or holds it.
pub open spec fn is_covered(paths: Seq<Seq<char>>, path: Seq<char>) -> bool {
    exists|i: int| 0 <= i < paths.len() && at_or_below(#[trigger] paths[i], path)
}

/// All that one of these paths covers.
pub open spec fn covered(paths: Seq<Seq<char>>) -> Set<Seq<char>> {
    Set::new(|path: Seq<char>| is_covered(paths, path))
}

/// Whether a path comes back from a shelf: version-control directories stay.
pub open spec fn is_restored(path: Seq<char>) -> bool {
    !at_or_below(".atomic"@, path) && !at_or_below(".git"@, path)
}

/// All that comes back from a shelf.
pub open spec fn restored() -> Set<Seq<char>> {
    Set::new(|path: Seq<char>| is_restored(path))
}

/// What was put away with a view.
pub open spec fn shelf(workspace: Workspace, view: Seq<char>) -> Map<Seq<char>, Seq<u8>> {
    if workspace.shelves.dom().contains(view) {
        workspace.shelves[view]
    } else {
        Map::empty()
    }
}

/// The working copy with the paths put away with a view, in place of what was
/// put away there before.
pub open spec fn put_away(workspace: Workspace, view: Seq<char>, paths: Seq<Seq<char>>) -> Workspace {
    Workspace {
        files: workspace.files.remove_keys(covered(paths)),
        shelves: workspace.shelves.insert(
            view,
            shelf(workspace, view).remove_keys(covered(paths)).union_prefer_right(
                workspace.files.restrict(covered(paths)),
            ),
        ),
    }
}

/// Files with the first `n` rendered ones written.
pub open spec fn written(
    files: Map<Seq<char>, Seq<u8>>,
    items: Seq<RenderedItem>,
    n: int,
) -> Map<Seq<char>, Seq<u8>>
    decreases n,
{
    if n <= 0 {
        files
    } else {
        written(files, items, n - 1).insert(items[n - 1].path@, items[n - 1].bytes@)
    }
}

/// The paths of absences.
pub open spec fn absent_paths(absent: Seq<(String, Inode)>) -> Seq<Seq<char>> {
    materialize::absent_models(absent).map_values(|e: (Seq<char>, Inode)| e.0)
}

/// The working copy with what was put away with a view brought back.
pub open spec fn brought_back(workspace: Workspace, view: Seq<char>) -> Workspace {
    Workspace {
        files: workspace.files.union_prefer_right(shelf(workspace, view).restrict(restored())),
        shelves: workspace.shelves.insert(
            view,
            shelf(workspace, view).remove_keys(restored()),
        ),
    }
}

/// The files of a working copy after the tracked files of a plan were removed
/// and written.
pub open spec fn carried_out(files: Map<Seq<char>, Seq<u8>>, plan: SwitchPlan) -> Map<
    Seq<char>,
    Seq<u8>,
> {
    let removed = text::texts(plan.removed@).to_set();
    let items = plan.target.files@;
    written(files.remove_keys(removed), items, items.len() as int).remove_keys(
        absent_paths(plan.target.absent@).to_set(),
    )
}

/// The working copy after a switch: ignored paths are put away with the old
/// view, the plan is carried out, and what was put away with the new view
/// comes back.
pub open spec fn switched(
    workspace: Workspace,
    view: Seq<char>,
    plan: SwitchPlan,
    paths: Seq<Seq<char>>,
) -> Workspace {
    let away = put_away(workspace, plan.old_view@, paths);
    brought_back(Workspace { files: carried_out(away.files, plan), ..away }, view)
}

proof fn written_keeps(
    files: Map<Seq<char>, Seq<u8>>,
    items: Seq<RenderedItem>,
    n: int,
    path: Seq<char>,
)
    requires
        0 <= n <= items.len(),
        forall|k: int| 0 <= k < items.len() ==> (#[trigger] items[k]).path@ != path,
    ensures
        written(files, items, n).dom().contains(path) <==> files.dom().contains(path),
        files.dom().contains(path) ==> written(files, items, n)[path] == files[path],
    decreases n,
{
    if n > 0 {
        written_keeps(files, items, n - 1, path);
        assert(items[n - 1].path@ != path);
    }
}

proof fn written_stands(files: Map<Seq<char>, Seq<u8>>, items: Seq<RenderedItem>, n: int, k: int)
    requires
        0 <= k < n <= items.len(),
        forall|i: int, j: int|
            #![trigger items[i], items[j]]
            0 <= i < j < items.len() ==> items[i].path@ != items[j].path@,
    ensures
        written(files, items, n).dom().contains(items[k].path@),
        written(files, items, n)[items[k].path@] == items[k].bytes@,
    decreases n,
{
    if k < n - 1 {
        written_stands(files, items, n - 1, k);
        assert(items[k].path@ != items[n - 1].path@);
    }
}

proof fn shelved_spares(
    known: Seq<Seq<char>>,
    patterns: Seq<Seq<char>>,
    ignored: Seq<Seq<char>>,
    path: Seq<char>,
)
    requires
        is_covered(shelved(known, patterns, ignored, ignored.len() as int), path),
    ensures
        is_covered(ignored, path),
        !known.contains(path),
{
    let paths = shelved(known, patterns, ignored, ignored.len() as int);
    let i = choose|i: int| 0 <= i < paths.len() && at_or_below(#[trigger] paths[i], path);
    assert(paths.contains(paths[i]));
    switch::shelving_spares_tracked_and_exposed(
        known,
        patterns,
        ignored,
        ignored.len() as int,
        paths[i],
    );
    assert(ignored.take(ignored.len() as int) =~= ignored);
    let j = ignored.index_of(paths[i]);
    assert(at_or_below(ignored[j], path));
    if known.contains(path) {
        let t = known.index_of(path);
        assert(known[t] == path);
        assert(holds_tracked(known, paths[i]));
    }
}

/// The list of files that a plan's target renders, and the tree it shows.
proof fn target_of(repo: Repository, id: Seq<char>, view: Seq<char>, plan: SwitchPlan) -> (found: (
    Seq<FileModel>,
    ProjectionModel,
))
    requires
        switch_told(repo, id, view, Ok(plan)),
    ensures
        ({
            let shown = repo.views@[repo.view_at(view)->0].visibility->Ok_0;
            &&& switch::view_tree(repo, shown) == Ok::<_, TreeRefusal>(found.1)
            &&& materialize::is_batch(plan.target, repo, shown, found.1, None, found.0)
            &&& text::texts(plan.tracked_paths@).to_set() == switch::shown_files(
                switch::view_tree(
                    repo,
                    repo.views@[repo.view_at(plan.old_view@)->0].visibility->Ok_0,
                )->Ok_0,
            ).union(switch::shown_files(found.1))
        }),
{
    let shown = repo.views@[repo.view_at(view)->0].visibility->Ok_0;
    let tree = switch::view_tree(repo, shown)->Ok_0;
    let found = Ok::<RenderBatch, RepositoryError>(plan.target);
    assert(materialize::batch_told(found, repo, shown, None));
    let files = choose|files: Seq<FileModel>| #[trigger]
        materialize::batch_outcome(found, repo, shown, tree, None, files);
    (files, tree)
}

proof fn target_paths_are_apart(
    repo: Repository,
    id: Seq<char>,
    view: Seq<char>,
    plan: SwitchPlan,
    k: int,
)
    requires
        switch_told(repo, id, view, Ok(plan)),
        0 <= k < plan.target.files@.len(),
    ensures
        forall|i: int, j: int|
            #![trigger plan.target.files@[i], plan.target.files@[j]]
            0 <= i < j < plan.target.files@.len() ==> plan.target.files@[i].path@
                != plan.target.files@[j].path@,
        !absent_paths(plan.target.absent@).contains(plan.target.files@[k].path@),
        text::texts(plan.tracked_paths@).contains(plan.target.files@[k].path@),
{
    let (files, tree) = target_of(repo, id, view, plan);
    let items = plan.target.files@;
    let names = materialize::file_paths(files);
    assert forall|i: int, j: int|
        #![trigger items[i], items[j]]
        0 <= i < j < items.len() implies items[i].path@ != items[j].path@ by {
        assert(items[i].path@ == files[i].path && items[j].path@ == files[j].path);
        assert(names[i] == files[i].path && names[j] == files[j].path);
        assert(text::before(names[i], names[j]));
        text::before_is_a_strict_order(names[i], names[i], names[i]);
    }
    let path = items[k].path@;
    assert(path == files[k].path);
    assert(names[k] == path);
    assert(names.contains(path));
    assert(materialize::is_file(tree, path));
    let gone = absent_paths(plan.target.absent@);
    if gone.contains(path) {
        assert(tree.absent.dom().contains(path));
        assert(!tree.present.dom().contains(path));
    }
    assert(switch::shows_file(tree, path));
    assert(switch::shown_files(tree).contains(path));
    assert(text::texts(plan.tracked_paths@).to_set().contains(path));
}

/// After a switch, every file of the target stands on disk with its rendered
/// bytes, unless something of its path comes back from the view's shelf.
pub proof fn switch_brings_the_target(
    repo: Repository,
    id: Seq<char>,
    view: Seq<char>,
    plan: SwitchPlan,
    patterns: Seq<Seq<char>>,
    ignored: Seq<Seq<char>>,
    workspace: Workspace,
    k: int,
)
    requires
        switch_told(repo, id, view, Ok(plan)),
        0 <= k < plan.target.files@.len(),
        !shelf(workspace, view).dom().contains(plan.target.files@[k].path@),
    ensures
        ({
            let paths = shelved(
                text::texts(plan.tracked_paths@),
                patterns,
                ignored,
                ignored.len() as int,
            );
            let after = switched(workspace, view, plan, paths);
            let file = plan.target.files@[k];
            after.files.dom().contains(file.path@) && after.files[file.path@] == file.bytes@
        }),
{
    let known = text::texts(plan.tracked_paths@);
    let paths = shelved(known, patterns, ignored, ignored.len() as int);
    let path = plan.target.files@[k].path@;
    let items = plan.target.files@;
    target_paths_are_apart(repo, id, view, plan, k);
    if is_covered(paths, path) {
        shelved_spares(known, patterns, ignored, path);
    }
    let away = put_away(workspace, plan.old_view@, paths);
    let removed = text::texts(plan.removed@).to_set();
    written_stands(away.files.remove_keys(removed), items, items.len() as int, k);
    assert(!absent_paths(plan.target.absent@).to_set().contains(path));
    let done = Workspace { files: carried_out(away.files, plan), ..away };
    assert(!shelf(done, view).dom().contains(path));
}

/// A switch leaves every file alone that it does not put away and that neither
/// of the two views knows, unless something of its path comes back from the
/// view's shelf.
pub proof fn switch_spares_what_it_does_not_know(
    repo: Repository,
    id: Seq<char>,
    view: Seq<char>,
    plan: SwitchPlan,
    patterns: Seq<Seq<char>>,
    ignored: Seq<Seq<char>>,
    workspace: Workspace,
    path: Seq<char>,
)
    requires
        switch_told(repo, id, view, Ok(plan)),
        workspace.files.dom().contains(path),
        !is_covered(
            shelved(text::texts(plan.tracked_paths@), patterns, ignored, ignored.len() as int),
            path,
        ),
        !text::texts(plan.tracked_paths@).contains(path),
        !absent_paths(plan.target.absent@).contains(path),
        !shelf(workspace, view).dom().contains(path),
    ensures
        ({
            let paths = shelved(
                text::texts(plan.tracked_paths@),
                patterns,
                ignored,
                ignored.len() as int,
            );
            let after = switched(workspace, view, plan, paths);
            after.files.dom().contains(path) && after.files[path] == workspace.files[path]
        }),
{
    let known = text::texts(plan.tracked_paths@);
    let paths = shelved(known, patterns, ignored, ignored.len() as int);
    let items = plan.target.files@;
    assert forall|k: int| 0 <= k < items.len() implies (#[trigger] items[k]).path@ != path by {
        target_paths_are_apart(repo, id, view, plan, k);
    }
    let away = put_away(workspace, plan.old_view@, paths);
    let removed = text::texts(plan.removed@).to_set();
    let (files, tree) = target_of(repo, id, view, plan);
    assert(!removed.contains(path)) by {
        if removed.contains(path) {
            assert(text::texts(plan.tracked_paths@).to_set().contains(path));
        }
    }
    written_keeps(away.files.remove_keys(removed), items, items.len() as int, path);
    assert(!absent_paths(plan.target.absent@).to_set().contains(path));
    let done = Workspace { files: carried_out(away.files, plan), ..away };
    assert(!shelf(done, view).dom().contains(path));
}

/// A switch leaves untracked files alone that are not ignored, unless something
/// of their path comes back from the view's shelf.
pub proof fn switch_spares_untracked_files(
    repo: Repository,
    id: Seq<char>,
    view: Seq<char>,
    plan: SwitchPlan,
    patterns: Seq<Seq<char>>,
    ignored: Seq<Seq<char>>,
    workspace: Workspace,
    path: Seq<char>,
)
    requires
        switch_told(repo, id, view, Ok(plan)),
        workspace.files.dom().contains(path),
        !is_covered(ignored, path),
        !text::texts(plan.tracked_paths@).contains(path),
        !absent_paths(plan.target.absent@).contains(path),
        !shelf(workspace, view).dom().contains(path),
    ensures
        ({
            let paths = shelved(
                text::texts(plan.tracked_paths@),
                patterns,
                ignored,
                ignored.len() as int,
            );
            let after = switched(workspace, view, plan, paths);
            after.files.dom().contains(path) && after.files[path] == workspace.files[path]
        }),
{
    let known = text::texts(plan.tracked_paths@);
    if is_covered(shelved(known, patterns, ignored, ignored.len() as int), path) {
        shelved_spares(known, patterns, ignored, path);
    }
    switch_spares_what_it_does_not_know(
        repo,
        id,
        view,
        plan,
        patterns,
        ignored,
        workspace,
        path,
    );
}

/// Files that the old view shows and the new one does not are gone after a
/// switch, unless something of their path comes back from the view's shelf.
pub proof fn switch_removes_old_files(
    repo: Repository,
    id: Seq<char>,
    view: Seq<char>,
    plan: SwitchPlan,
    patterns: Seq<Seq<char>>,
    ignored: Seq<Seq<char>>,
    workspace: Workspace,
    old_tree: ProjectionModel,
    new_tree: ProjectionModel,
    path: Seq<char>,
)
    requires
        switch_told(repo, id, view, Ok(plan)),
        switch::view_tree(
            repo,
            repo.views@[repo.view_at(plan.old_view@)->0].visibility->Ok_0,
        ) == Ok::<ProjectionModel, TreeRefusal>(old_tree),
        switch::view_tree(repo, repo.views@[repo.view_at(view)->0].visibility->Ok_0) == Ok::<
            ProjectionModel,
            TreeRefusal,
        >(new_tree),
        old_tree.present.dom().contains(path) && !old_tree.present[path].is_directory,
        !(new_tree.present.dom().contains(path) && !new_tree.present[path].is_directory),
        !shelf(workspace, view).dom().contains(path),
    ensures
        ({
            let paths = shelved(
                text::texts(plan.tracked_paths@),
                patterns,
                ignored,
                ignored.len() as int,
            );
            !switched(workspace, view, plan, paths).files.dom().contains(path)
        }),
{
    let known = text::texts(plan.tracked_paths@);
    let paths = shelved(known, patterns, ignored, ignored.len() as int);
    let items = plan.target.files@;
    let (files, tree) = target_of(repo, id, view, plan);
    let removed = text::texts(plan.removed@).to_set();
    assert(switch::shown_files(old_tree).contains(path));
    assert(!switch::shown_files(new_tree).contains(path));
    assert(removed.contains(path));
    assert(!switch::shown_files(tree).contains(path));
    assert(text::texts(plan.tracked_paths@).to_set().contains(path));
    let names = materialize::file_paths(files);
    assert forall|k: int| 0 <= k < items.len() implies (#[trigger] items[k]).path@ != path by {
        assert(items[k].path@ == files[k].path);
        assert(names[k] == files[k].path);
        assert(names.contains(files[k].path));
        assert(materialize::is_file(tree, files[k].path));
        if items[k].path@ == path {
            assert(switch::shows_file(tree, path));
        }
    }
    if is_covered(paths, path) {
        shelved_spares(known, patterns, ignored, path);
    }
    let away = put_away(workspace, plan.old_view@, paths);
    written_keeps(away.files.remove_keys(removed), items, items.len() as int, path);
    let done = Workspace { files: carried_out(away.files, plan), ..away };
    assert(!shelf(done, view).dom().contains(path));
}

/// What a switch put away comes back with the same bytes on switching back,
/// whatever the other view did meanwhile.
pub proof fn shelved_files_come_back(
    workspace: Workspace,
    there: SwitchPlan,
    view: Seq<char>,
    paths: Seq<Seq<char>>,
    meanwhile: Map<Seq<char>, Seq<u8>>,
    back: SwitchPlan,
    others: Seq<Seq<char>>,
    path: Seq<char>,
)
    requires
        there.old_view@ != view,
        back.old_view@ == view,
        workspace.files.dom().contains(path),
        is_covered(paths, path),
        is_restored(path),
    ensures
        ({
            let away = switched(workspace, view, there, paths);
            let after = switched(
                Workspace { files: meanwhile, ..away },
                there.old_view@,
                back,
                others,
            );
            after.files.dom().contains(path) && after.files[path] == workspace.files[path]
        }),
{
    let old = there.old_view@;
    let first = put_away(workspace, old, paths);
    assert(covered(paths).contains(path));
    assert(first.shelves[old].dom().contains(path));
    assert(first.shelves[old][path] == workspace.files[path]);
    let away = switched(workspace, view, there, paths);
    assert(away.shelves[old] == first.shelves[old]);
    let second = put_away(Workspace { files: meanwhile, ..away }, view, others);
    assert(second.shelves[old] == first.shelves[old]);
    assert(restored().contains(path));
}

/// Ignored paths that are neither exposed nor tracked are put away, and
/// nothing else is.
pub proof fn switch_puts_ignored_paths_away(
    known: Seq<Seq<char>>,
    patterns: Seq<Seq<char>>,
    ignored: Seq<Seq<char>>,
    path: Seq<char>,
)
    ensures
        shelved(known, patterns, ignored, ignored.len() as int).contains(path)
            <==> ignored.contains(path) && (forall|k: int|
            0 <= k < known.len() ==> (#[trigger] known[k]) != path && !path.push('/').is_prefix_of(
                known[k],
            )) && (forall|k: int|
            0 <= k < patterns.len() ==> (#[trigger] patterns[k]) != path && !patterns[k].push(
                '/',
            ).is_prefix_of(path)),
{
    switch::shelving_spares_tracked_and_exposed(
        known,
        patterns,
        ignored,
        ignored.len() as int,
        path,
    );
    assert(ignored.take(ignored.len() as int) =~= ignored);
}


proof fn last_separator_is_last(s: Seq<char>)
    ensures
        ({
            let at = text::last_separator(s, '/');
            &&& -1 <= at < s.len()
            &&& at >= 0 ==> s[at] == '/'
            &&& forall|k: int| at < k < s.len() ==> s[k] != '/'
        }),
    decreases s.len(),
{
    if s.len() > 0 && s.last() != '/' {
        last_separator_is_last(s.drop_last());
        let at = text::last_separator(s, '/');
        assert forall|k: int| at < k < s.len() implies s[k] != '/' by {
            if k < s.len() - 1 {
                assert(s.drop_last()[k] == s[k]);
            }
        }
    }
}

/// The directories that removing a path may empty are all that it lies in,
/// however deep.
pub proof fn emptied_directories_are_those_above(path: Seq<char>, directory: Seq<char>)
    requires
        directory.len() > 0,
        directory != "."@,
    ensures
        switch::ancestors(path).contains(directory) <==> directory.push('/').is_prefix_of(path),
    decreases path.len(),
{
    switch::separator_fits(path, '/');
    last_separator_is_last(path);
    reveal_strlit(".");
    let slash = directory.push('/');
    match text::parent(path) {
        None => {
            if slash.is_prefix_of(path) {
                assert(path[directory.len() as int] == slash[directory.len() as int]);
            }
        },
        Some(parent) => {
            let at = text::last_separator(path, '/');
            if slash.is_prefix_of(path) {
                assert(path[directory.len() as int] == slash[directory.len() as int]);
                assert(directory.len() <= at);
                if directory.len() == at {
                    assert(directory =~= parent) by {
                        assert forall|k: int| 0 <= k < at implies directory[k] == parent[k] by {
                            assert(slash[k] == path[k]);
                        }
                    }
                } else {
                    assert(slash =~= parent.take(slash.len() as int)) by {
                        assert forall|k: int| 0 <= k < slash.len() implies slash[k] == parent[k] by {
                            assert(slash[k] == path[k]);
                        }
                    }
                    assert(slash.is_prefix_of(parent));
                    if parent.len() == 1 {
                        assert(slash.len() >= 2);
                    }
                }
            }
            if directory == parent {
                assert(slash =~= path.take(slash.len() as int));
                assert(slash.is_prefix_of(path));
            }
            if parent.len() == 0 || parent == "."@ {
            } else {
                emptied_directories_are_those_above(parent, directory);
                let rest = switch::ancestors(parent);
                let all = seq![parent] + rest;
                assert(switch::ancestors(path) == all);
                assert(all[0] == parent);
                if rest.contains(directory) {
                    let k = rest.index_of(directory);
                    assert(all[k + 1] == directory);
                }
                if all.contains(directory) {
                    let k = all.index_of(directory);
                    if k > 0 {
                        assert(rest[k - 1] == directory);
                    }
                }
                if slash.is_prefix_of(parent) {
                    assert(slash =~= path.take(slash.len() as int)) by {
                        assert forall|k: int| 0 <= k < slash.len() implies slash[k] == path[k] by {
                            assert(slash[k] == parent[k]);
                        }
                    }
                }
            }
        },
    }
}

/// Exposed patterns are the global ones, then those of the repository that are
/// not among them; none is lost and none is invented.
pub proof fn patterns_are_merged(
    global: Seq<Seq<char>>,
    local: Seq<Seq<char>>,
    n: int,
    pattern: Seq<char>,
)
    requires
        0 <= n <= local.len(),
    ensures
        global.is_prefix_of(switch::merged(global, local, n)),
        switch::merged(global, local, n).contains(pattern) <==> global.contains(pattern)
            || local.take(n).contains(pattern),
        global.no_duplicates() ==> switch::merged(global, local, n).no_duplicates(),
    decreases n,
{
    if n > 0 {
        patterns_are_merged(global, local, n - 1, pattern);
        let rest = switch::merged(global, local, n - 1);
        let all = switch::merged(global, local, n);
        let last = local[n - 1];
        let head = local.take(n - 1);
        assert(local.take(n)[n - 1] == last);
        if head.contains(pattern) {
            let k = head.index_of(pattern);
            assert(local.take(n)[k] == pattern);
        }
        if local.take(n).contains(pattern) && pattern != last {
            let k = local.take(n).index_of(pattern);
            assert(head[k] == pattern);
        }
        if rest.contains(pattern) {
            let k = rest.index_of(pattern);
            assert(all[k] == pattern);
        }
        if all.len() > rest.len() {
            assert(all[rest.len() as int] == last);
        }
        if all.contains(pattern) {
            let k = all.index_of(pattern);
            if k < rest.len() {
                assert(rest[k] == pattern);
            }
        }
        assert forall|k: int| 0 <= k < global.len() implies global[k] == all[k] by {
            assert(rest[k] == global[k]);
        }
        assert(global =~= all.take(global.len() as int));
    } else {
        assert(local.take(0).len() == 0);
        assert(global =~= global.take(global.len() as int));
    }
}

/// A walk for ignored paths leaves version-control directories alone, collects
/// what is ignored whole, and looks into every other directory.
pub proof fn walks_collect_what_is_ignored(first: Seq<char>, is_ignored: bool, is_directory: bool)
    ensures
        switch::ignored_step_at(first, is_ignored, is_directory) is Collect <==> is_ignored && first
            != ".atomic"@ && first != ".git"@,
        switch::ignored_step_at(first, is_ignored, is_directory) is Descend <==> !is_ignored
            && is_directory && first != ".atomic"@ && first != ".git"@,
{
}

/// In a list that stands deepest first a directory comes before the one that
/// holds it, so that what lies below has had its turn.
pub proof fn inner_directories_go_first(
    list: Seq<Seq<char>>,
    dir: Seq<char>,
    name: Seq<char>,
    i: int,
    j: int,
)
    requires
        switch::deepest_first(list),
        0 <= i < list.len(),
        0 <= j < list.len(),
        dir.len() > 0,
        name.len() > 0 && !name.contains('/') && name != seq!['.'],
        list[i] == dir + seq!['/'] + name,
        list[j] == dir,
    ensures
        i < j,
{
    path_laws::paths_grow_by_a_name(dir, name, dir);
    assert(list[i] == path_laws::below(dir, name));
    assert(switch::depth(list[i]) == switch::depth(list[j]) + 1);
}

} // verus!
