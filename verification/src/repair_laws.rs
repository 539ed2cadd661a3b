//! A second repair of the native tables has nothing to do.

use crate::content;
use crate::health_laws;
use crate::native_build;
use crate::native_build::{ClaimedModel, NativeClaims, ReducedView, TreeModel};
use crate::native_laws;
use crate::native_laws::{inverse, keyed, keyed_value};
use crate::native_roots;
use crate::native_roots::{FaultModel, NativeRefusal, PathRefusalModel};
use crate::native_tables;
use crate::native_tables::IndexesModel;
use crate::ordering;
use crate::ordering::Ranked;
use crate::pristine;
use crate::pristine::{PristineModel, Visibility};
use crate::repository::{GraphNode, Repository};
use crate::text;
use crate::types::{Inode, Position};
use vstd::prelude::*;

verus! {

/// Whether `after` is `repo` with its native tables replaced by these.
pub open spec fn replaced(repo: Repository, after: Repository, tables: IndexesModel) -> bool {
    &&& after == (Repository { pristine: after.pristine, ..repo })
    &&& after.pristine@.changes == repo.pristine@.changes
    &&& after.pristine@.tree == tables.tree
    &&& after.pristine@.rev_tree == tables.rev_tree
    &&& after.pristine@.inodes == tables.inodes
    &&& after.pristine@.rev_inodes == tables.rev_inodes
}

/// Whether facts are read again after a replacement: the claims are those of
/// the changes, and the stored flags those of the new table.
pub open spec fn read_again(facts: NativeClaims, again: NativeClaims, tables: IndexesModel) -> bool {
    &&& again.claims@ == facts.claims@
    &&& again.reduced@ == facts.reduced@
    &&& again.flags@ == tables.directories
}

proof fn bytes_alike(
    repo: Repository,
    after: Repository,
    spans: Seq<GraphNode>,
    i: int,
    found: Seq<u8>,
)
    requires
        after.changes@ == repo.changes@,
        after.pristine@.changes == repo.pristine@.changes,
    ensures
        content::bytes_from(after, spans, i, found) == content::bytes_from(repo, spans, i, found),
    decreases spans.len() - i,
{
    if 0 <= i < spans.len() {
        let change = spans[i].change;
        assert(after.pristine@.ids() == repo.pristine@.ids());
        assert(after.pristine@.external(change) == repo.pristine@.external(change));
        if let Some(hash) = repo.pristine@.external(change) {
            if let Some(c) = repo.change_at(hash) {
                let bytes = repo.changes@[c].contents@;
                bytes_alike(
                    repo,
                    after,
                    spans,
                    i + 1,
                    found + bytes.subrange(spans[i].start as int, spans[i].end as int),
                );
            }
        }
    }
}

proof fn files_alike(
    repo: Repository,
    after: Repository,
    inode: Inode,
    position: Position,
    visibility: Visibility,
)
    requires
        after.changes@ == repo.changes@,
        after.edges@ == repo.edges@,
        after.pristine@.changes == repo.pristine@.changes,
    ensures
        content::file_bytes(after, inode, position, visibility) == content::file_bytes(
            repo,
            inode,
            position,
            visibility,
        ),
{
    if let Ok(Some(spans)) = content::linear_spans(repo.edges@, inode, position, visibility) {
        bytes_alike(repo, after, spans, 0, Seq::empty());
    }
}

proof fn order_entries_alike(
    repo: Repository,
    after: Repository,
    visibility: Visibility,
    view: u64,
    present: Seq<ClaimedModel>,
    i: int,
    found: Seq<native_build::EntryModel>,
)
    requires
        after.changes@ == repo.changes@,
        after.edges@ == repo.edges@,
        after.pristine@.changes == repo.pristine@.changes,
    ensures
        native_build::order_entries_from(after, visibility, view, present, i, found)
            == native_build::order_entries_from(repo, visibility, view, present, i, found),
    decreases present.len() - i,
{
    if 0 <= i < present.len() {
        if present[i].is_directory {
            order_entries_alike(repo, after, visibility, view, present, i + 1, found);
        } else {
            files_alike(repo, after, present[i].inode, present[i].position, visibility);
            if let Ok((bytes, _)) = content::file_bytes(
                repo,
                present[i].inode,
                present[i].position,
                visibility,
            ) {
                let next = match crate::conflict_markers::marker_line(bytes) {
                    None => found,
                    Some(line) => found.push(
                        native_build::EntryModel {
                            view,
                            inode: present[i].inode,
                            record: crate::repository::ConflictModel {
                                kind: crate::repository::StoredConflictKind::Order,
                                path: present[i].path,
                                line: Some(line),
                                sides: Seq::empty(),
                            },
                        },
                    ),
                };
                order_entries_alike(repo, after, visibility, view, present, i + 1, next);
            }
        }
    }
}

proof fn view_entries_alike(
    repo: Repository,
    after: Repository,
    reduced: Seq<ReducedView>,
    k: int,
    found: Seq<native_build::EntryModel>,
)
    requires
        after.views@ == repo.views@,
        after.changes@ == repo.changes@,
        after.edges@ == repo.edges@,
        after.pristine@.changes == repo.pristine@.changes,
    ensures
        native_build::view_entries_from(after, reduced, k, found)
            == native_build::view_entries_from(repo, reduced, k, found),
    decreases repo.views@.len() - k,
{
    if 0 <= k < repo.views@.len() {
        let view = repo.views@[k];
        if let Ok(visibility) = view.claims {
            if let Ok(named) = native_build::name_entries_from(
                view.id,
                reduced[k].conflicts@,
                0,
                found,
            ) {
                let present = native_build::claimed_models(reduced[k].present@);
                order_entries_alike(repo, after, visibility, view.id, present, 0, named);
                if let Ok(all) = native_build::order_entries_from(
                    repo,
                    visibility,
                    view.id,
                    present,
                    0,
                    named,
                ) {
                    view_entries_alike(repo, after, reduced, k + 1, all);
                }
            }
        }
    }
}

/// A tree and its reverse with the same pairs, each key once.
spec fn sound(tree: TreeModel) -> bool {
    &&& keyed(tree.tree)
    &&& keyed(tree.reverse)
    &&& forall|path: Seq<char>, inode: Inode|
        #![trigger tree.tree.contains((path, inode))]
        #![trigger tree.reverse.contains((inode, path))]
        tree.tree.contains((path, inode)) <==> tree.reverse.contains((inode, path))
}

proof fn pushed_contains<T>(list: Seq<T>, added: T, x: T)
    ensures
        list.push(added).contains(x) <==> list.contains(x) || x == added,
{
    let grown = list.push(added);
    if list.contains(x) {
        assert(grown[list.index_of(x)] == x);
    }
    if x == added {
        assert(grown[list.len() as int] == x);
    }
    if grown.contains(x) && x != added {
        let k = grown.index_of(x);
        assert(list[k] == x);
    }
}

proof fn pair_result(tree: TreeModel, path: Seq<char>, inode: Inode)
    requires
        sound(tree),
    ensures
        native_build::with_pair(tree, path, inode) matches Ok(grown) ==> sound(grown) && (forall|
            p: Seq<char>,
            n: Inode,
        |
            #![trigger grown.tree.contains((p, n))]
            grown.tree.contains((p, n)) <==> tree.tree.contains((p, n)) || (p, n) == (path, inode))
            && grown.staged == tree.staged && grown.staged_directories == tree.staged_directories,
{
    if let Ok(grown) = native_build::with_pair(tree, path, inode) {
        native_laws::pair_stays_one_to_one(tree, path, inode);
        keyed_value(tree.tree, path, inode);
        keyed_value(tree.reverse, inode, path);
        assert(tree.tree.contains((path, inode)) <==> tree.reverse.contains((inode, path)));
        assert forall|p: Seq<char>, n: Inode|
            #![trigger grown.tree.contains((p, n))]
            #![trigger grown.reverse.contains((n, p))]
            (grown.tree.contains((p, n)) <==> tree.tree.contains((p, n)) || (p, n) == (
                path,
                inode,
            )) && (grown.reverse.contains((n, p)) <==> tree.reverse.contains((n, p)) || (n, p) == (
                inode,
                path,
            )) by {
            pushed_contains(tree.tree, (path, inode), (p, n));
            pushed_contains(tree.reverse, (inode, path), (n, p));
        }
        assert forall|p: Seq<char>, n: Inode|
            #![trigger grown.tree.contains((p, n))]
            #![trigger grown.reverse.contains((n, p))]
            grown.tree.contains((p, n)) <==> grown.reverse.contains((n, p)) by {
            assert(tree.tree.contains((p, n)) <==> tree.reverse.contains((n, p)));
        }
    }
}

/// Whether a claim from the `i`-th on puts an inode at a path.
spec fn is_claimed(present: Seq<ClaimedModel>, i: int, path: Seq<char>, inode: Inode) -> bool {
    exists|k: int|
        i <= k < present.len() && (#[trigger] present[k]).path == path && present[k].inode == inode
}

proof fn present_result(present: Seq<ClaimedModel>, i: int, tree: TreeModel)
    requires
        sound(tree),
        0 <= i,
    ensures
        native_build::present_from(present, i, tree) matches Ok(grown) ==> sound(grown) && (forall|
            p: Seq<char>,
            n: Inode,
        |
            #![trigger grown.tree.contains((p, n))]
            grown.tree.contains((p, n)) <==> tree.tree.contains((p, n)) || is_claimed(
                present,
                i,
                p,
                n,
            )) && grown.staged == tree.staged && grown.staged_directories
            == tree.staged_directories,
    decreases present.len() - i,
{
    if i < present.len() {
        pair_result(tree, present[i].path, present[i].inode);
        if let Ok(next) = native_build::with_pair(tree, present[i].path, present[i].inode) {
            present_result(present, i + 1, next);
            if let Ok(grown) = native_build::present_from(present, i + 1, next) {
                assert forall|p: Seq<char>, n: Inode|
                    #![trigger grown.tree.contains((p, n))]
                    grown.tree.contains((p, n)) <==> tree.tree.contains((p, n)) || is_claimed(
                        present,
                        i,
                        p,
                        n,
                    ) by {
                    assert(next.tree.contains((p, n)) <==> tree.tree.contains((p, n)) || (p, n) == (
                        present[i].path,
                        present[i].inode,
                    ));
                    if is_claimed(present, i, p, n) {
                        let k = choose|k: int|
                            i <= k < present.len() && (#[trigger] present[k]).path == p
                                && present[k].inode == n;
                        if k > i {
                            assert(is_claimed(present, i + 1, p, n));
                        }
                    }
                    if is_claimed(present, i + 1, p, n) {
                        let k = choose|k: int|
                            i + 1 <= k < present.len() && (#[trigger] present[k]).path == p
                                && present[k].inode == n;
                        assert(present[k].path == p);
                    }
                }
            }
        }
    }
}

/// Whether a tree row from the `i`-th on that no change recorded puts an inode
/// at a path.
spec fn is_staged(
    rows: Seq<(Seq<char>, Inode)>,
    inodes: Seq<(Inode, Position)>,
    i: int,
    path: Seq<char>,
    inode: Inode,
) -> bool {
    !native_build::is_recorded(inodes, inode) && exists|k: int|
        i <= k < rows.len() && #[trigger] rows[k] == (path, inode)
}

proof fn staged_step(
    rows: Seq<(Seq<char>, Inode)>,
    inodes: Seq<(Inode, Position)>,
    i: int,
    path: Seq<char>,
    inode: Inode,
)
    requires
        0 <= i < rows.len(),
    ensures
        is_staged(rows, inodes, i, path, inode) <==> is_staged(rows, inodes, i + 1, path, inode) || (
        rows[i] == (path, inode) && !native_build::is_recorded(inodes, inode)),
{
    if exists|k: int| i <= k < rows.len() && #[trigger] rows[k] == (path, inode) {
        let k = choose|k: int| i <= k < rows.len() && #[trigger] rows[k] == (path, inode);
        if k > i {
            assert(i + 1 <= k < rows.len() && rows[k] == (path, inode));
        }
    }
    if exists|k: int| i + 1 <= k < rows.len() && #[trigger] rows[k] == (path, inode) {
        let k = choose|k: int| i + 1 <= k < rows.len() && #[trigger] rows[k] == (path, inode);
        assert(i <= k < rows.len() && rows[k] == (path, inode));
    }
}

/// Whether `grown` is `tree` with what is staged from the `i`-th row on.
spec fn is_staging(
    rows: Seq<(Seq<char>, Inode)>,
    flags: Seq<(Inode, u8)>,
    inodes: Seq<(Inode, Position)>,
    i: int,
    tree: TreeModel,
    grown: TreeModel,
) -> bool {
    &&& sound(grown)
    &&& forall|p: Seq<char>, n: Inode|
        #![trigger grown.tree.contains((p, n))]
        grown.tree.contains((p, n)) <==> tree.tree.contains((p, n)) || is_staged(
            rows,
            inodes,
            i,
            p,
            n,
        )
    &&& forall|p: Seq<char>|
        #![trigger grown.staged.contains(p)]
        grown.staged.contains(p) <==> tree.staged.contains(p) || exists|n: Inode| #[trigger]
            is_staged(rows, inodes, i, p, n)
    &&& forall|p: Seq<char>, n: Inode|
        #![trigger grown.staged_directories.contains((n, p))]
        grown.staged_directories.contains((n, p)) <==> tree.staged_directories.contains((n, p)) || (
        is_staged(rows, inodes, i, p, n) && pristine::first_value(flags, n) is Some)
}

proof fn staged_result(
    tables: PristineModel,
    flags: Seq<(Inode, u8)>,
    inodes: Seq<(Inode, Position)>,
    i: int,
    tree: TreeModel,
)
    requires
        sound(tree),
        0 <= i <= tables.tree.len(),
    ensures
        native_build::staged_from(tables, flags, inodes, i, tree) matches Ok(grown) ==> is_staging(
            tables.tree,
            flags,
            inodes,
            i,
            tree,
            grown,
        ),
    decreases tables.tree.len() - i,
{
    let rows = tables.tree;
    if i < rows.len() {
        let (path, inode) = rows[i];
        if native_build::is_recorded(inodes, inode) {
            staged_result(tables, flags, inodes, i + 1, tree);
            if let Ok(grown) = native_build::staged_from(tables, flags, inodes, i + 1, tree) {
                staging_reaches_back(rows, flags, inodes, i, tree, tree, grown);
            }
        } else {
            pair_result(tree, path, inode);
            if let Ok(next) = native_build::with_staged(tables, flags, path, inode, tree) {
                let kept = native_build::with_pair(tree, path, inode)->Ok_0;
                assert(next.tree == kept.tree && next.reverse == kept.reverse);
                assert(sound(next)) by {
                    assert(sound(kept));
                }
                staged_result(tables, flags, inodes, i + 1, next);
                if let Ok(grown) = native_build::staged_from(tables, flags, inodes, i + 1, next) {
                    assert forall|p: Seq<char>|
                        next.staged.contains(p) <==> tree.staged.contains(p) || p == path by {
                        pushed_contains(kept.staged, path, p);
                    }
                    assert forall|p: Seq<char>, n: Inode|
                        #![trigger next.staged_directories.contains((n, p))]
                        next.staged_directories.contains((n, p)) <==> (
                        tree.staged_directories.contains((n, p)) || ((n, p) == (inode, path)
                            && pristine::first_value(flags, inode) is Some)) by {
                        pushed_contains(kept.staged_directories, (inode, path), (n, p));
                    }
                    assert forall|p: Seq<char>, n: Inode|
                        #![trigger next.tree.contains((p, n))]
                        next.tree.contains((p, n)) <==> tree.tree.contains((p, n)) || (p, n) == (
                            path,
                            inode,
                        ) by {
                        assert(kept.tree.contains((p, n)) <==> tree.tree.contains((p, n)) || (p, n)
                            == (path, inode));
                    }
                    staging_reaches_back(rows, flags, inodes, i, tree, next, grown);
                }
            }
        }
    } else {
        assert forall|p: Seq<char>, n: Inode| !(#[trigger] is_staged(rows, inodes, i, p, n)) by {}
        if let Ok(grown) = native_build::staged_from(tables, flags, inodes, i, tree) {
            assert(grown == tree);
        }
    }
}

/// What is staged from a row on is that row, if no change recorded it, and
/// what is staged after it.
proof fn staging_reaches_back(
    rows: Seq<(Seq<char>, Inode)>,
    flags: Seq<(Inode, u8)>,
    inodes: Seq<(Inode, Position)>,
    i: int,
    tree: TreeModel,
    next: TreeModel,
    grown: TreeModel,
)
    requires
        0 <= i < rows.len(),
        is_staging(rows, flags, inodes, i + 1, next, grown),
        ({
            let (path, inode) = rows[i];
            let here = !native_build::is_recorded(inodes, inode);
            &&& forall|p: Seq<char>, n: Inode|
                #![trigger next.tree.contains((p, n))]
                next.tree.contains((p, n)) <==> tree.tree.contains((p, n)) || (here && (p, n) == (
                    path,
                    inode,
                ))
            &&& forall|p: Seq<char>|
                #![trigger next.staged.contains(p)]
                next.staged.contains(p) <==> tree.staged.contains(p) || (here && p == path)
            &&& forall|p: Seq<char>, n: Inode|
                #![trigger next.staged_directories.contains((n, p))]
                next.staged_directories.contains((n, p)) <==> tree.staged_directories.contains(
                    (n, p),
                ) || (here && (n, p) == (inode, path) && pristine::first_value(flags, inode)
                    is Some)
        }),
    ensures
        is_staging(rows, flags, inodes, i, tree, grown),
{
    let (path, inode) = rows[i];
    assert forall|p: Seq<char>, n: Inode|
        #![trigger grown.tree.contains((p, n))]
        grown.tree.contains((p, n)) <==> tree.tree.contains((p, n)) || is_staged(
            rows,
            inodes,
            i,
            p,
            n,
        ) by {
        staged_step(rows, inodes, i, p, n);
        assert(next.tree.contains((p, n)) <==> tree.tree.contains((p, n)) || (
        !native_build::is_recorded(inodes, inode) && (p, n) == (path, inode)));
    }
    assert forall|p: Seq<char>|
        #![trigger grown.staged.contains(p)]
        grown.staged.contains(p) <==> tree.staged.contains(p) || exists|n: Inode| #[trigger]
            is_staged(rows, inodes, i, p, n) by {
        assert(next.staged.contains(p) <==> tree.staged.contains(p) || (
        !native_build::is_recorded(inodes, inode) && p == path));
        staged_step(rows, inodes, i, path, inode);
        if exists|n: Inode| #[trigger] is_staged(rows, inodes, i, p, n) {
            let n = choose|n: Inode| #[trigger] is_staged(rows, inodes, i, p, n);
            staged_step(rows, inodes, i, p, n);
        }
        if exists|n: Inode| #[trigger] is_staged(rows, inodes, i + 1, p, n) {
            let n = choose|n: Inode| #[trigger] is_staged(rows, inodes, i + 1, p, n);
            staged_step(rows, inodes, i, p, n);
            assert(is_staged(rows, inodes, i, p, n));
        }
    }
    assert forall|p: Seq<char>, n: Inode|
        #![trigger grown.staged_directories.contains((n, p))]
        grown.staged_directories.contains((n, p)) <==> tree.staged_directories.contains((n, p)) || (
        is_staged(rows, inodes, i, p, n) && pristine::first_value(flags, n) is Some) by {
        staged_step(rows, inodes, i, p, n);
        assert(next.staged_directories.contains((n, p)) <==> tree.staged_directories.contains(
            (n, p),
        ) || (!native_build::is_recorded(inodes, inode) && (n, p) == (inode, path)
            && pristine::first_value(flags, inode) is Some));
    }
}

/// Staging from tables that undo each other succeeds.
proof fn staging_succeeds(
    tables: PristineModel,
    flags: Seq<(Inode, u8)>,
    i: int,
    tree: TreeModel,
)
    requires
        sound(tree),
        0 <= i <= tables.tree.len(),
        inverse(tables.tree, tables.rev_tree),
        forall|p: Seq<char>, n: Inode|
            #![trigger tree.tree.contains((p, n))]
            tree.tree.contains((p, n)) ==> tables.tree.contains((p, n)),
        forall|n: Inode|
            #![trigger pristine::first_value(flags, n)]
            pristine::first_value(flags, n) matches Some(bits) ==> bits <= 3,
    ensures
        native_build::staged_from(tables, flags, tables.inodes, i, tree) is Ok,
    decreases tables.tree.len() - i,
{
    if i < tables.tree.len() {
        let (path, inode) = tables.tree[i];
        if native_build::is_recorded(tables.inodes, inode) {
            staging_succeeds(tables, flags, i + 1, tree);
        } else {
            assert(tables.tree.contains((path, inode)));
            keyed_value(tables.tree, path, inode);
            assert(pristine::first_value(tables.tree, path) == Some(inode)
                <==> pristine::first_value(tables.rev_tree, inode) == Some(path));
            if let Some(known) = pristine::first_value(tree.tree, path) {
                keyed_value(tree.tree, path, known);
                assert(tree.tree.contains((path, known)));
                keyed_value(tables.tree, path, known);
            }
            if let Some(place) = pristine::first_value(tree.reverse, inode) {
                keyed_value(tree.reverse, inode, place);
                assert(tree.tree.contains((place, inode)));
                keyed_value(tables.tree, place, inode);
                assert(pristine::first_value(tables.tree, place) == Some(inode)
                    <==> pristine::first_value(tables.rev_tree, inode) == Some(place));
            }
            pair_result(tree, path, inode);
            let kept = native_build::with_pair(tree, path, inode)->Ok_0;
            let next = native_build::with_staged(tables, flags, path, inode, tree)->Ok_0;
            assert(next.tree == kept.tree && next.reverse == kept.reverse);
            assert(sound(next)) by {
                assert(sound(kept));
            }
            assert forall|p: Seq<char>, n: Inode|
                #![trigger next.tree.contains((p, n))]
                next.tree.contains((p, n)) implies tables.tree.contains((p, n)) by {
                assert(kept.tree.contains((p, n)));
                if !tree.tree.contains((p, n)) {
                    assert((p, n) == (path, inode));
                }
            }
            staging_succeeds(tables, flags, i + 1, next);
        }
    }
}

/// Reverse rows that undo the tree rows are not refused.
proof fn reverse_is_not_refused(
    tables: PristineModel,
    tree: Seq<(Seq<char>, Inode)>,
    i: int,
)
    requires
        0 <= i <= tables.rev_tree.len(),
        inverse(tables.tree, tables.rev_tree),
        keyed(tree),
        forall|p: Seq<char>, n: Inode|
            #![trigger tables.tree.contains((p, n))]
            tables.tree.contains((p, n)) ==> tree.contains((p, n)),
    ensures
        native_build::reverse_refusal_from(tables, tables.inodes, tree, i) is None,
    decreases tables.rev_tree.len() - i,
{
    if i < tables.rev_tree.len() {
        let (inode, path) = tables.rev_tree[i];
        assert(tables.rev_tree.contains((inode, path)));
        keyed_value(tables.rev_tree, inode, path);
        assert(pristine::first_value(tables.tree, path) == Some(inode) <==> pristine::first_value(
            tables.rev_tree,
            inode,
        ) == Some(path));
        keyed_value(tables.tree, path, inode);
        assert(tree.contains((path, inode)));
        keyed_value(tree, path, inode);
        reverse_is_not_refused(tables, tree, i + 1);
    }
}

proof fn joined_contains<T>(a: Seq<T>, b: Seq<T>, x: T)
    ensures
        (a + b).contains(x) <==> a.contains(x) || b.contains(x),
{
    let both = a + b;
    if a.contains(x) {
        assert(both[a.index_of(x)] == x);
    }
    if b.contains(x) {
        assert(both[a.len() + b.index_of(x)] == x);
    }
    if both.contains(x) {
        let k = both.index_of(x);
        if k < a.len() {
            assert(a[k] == x);
        } else {
            assert(b[k - a.len()] == x);
        }
    }
}

proof fn entries_by_members(
    directories: Seq<(Inode, Seq<char>)>,
    alive: Seq<Seq<char>>,
    more: Seq<(Inode, Seq<char>)>,
    shown: Seq<Seq<char>>,
    inode: Inode,
)
    requires
        forall|d: (Inode, Seq<char>)| #[trigger] directories.contains(d) ==> more.contains(d),
        forall|p: Seq<char>| #[trigger] alive.contains(p) ==> shown.contains(p),
        native_build::has_entry(directories, alive, inode),
    ensures
        native_build::has_entry(more, shown, inode),
{
    let (d, a) = choose|d: int, a: int|
        #![trigger directories[d], alive[a]]
        0 <= d < directories.len() && 0 <= a < alive.len() && directories[d].0 == inode
            && text::parent(alive[a]) == Some(directories[d].1);
    assert(directories.contains(directories[d]));
    assert(alive.contains(alive[a]));
    let e = more.index_of(directories[d]);
    let b = shown.index_of(alive[a]);
    assert(more[e] == directories[d] && shown[b] == alive[a]);
}

/// Whether one of the first `n` directories has this inode.
spec fn has_directory(directories: Seq<(Inode, Seq<char>)>, n: int, inode: Inode) -> bool {
    exists|k: int| 0 <= k < n && (#[trigger] directories[k]).0 == inode
}

proof fn flagged_holds(
    directories: Seq<(Inode, Seq<char>)>,
    alive: Seq<Seq<char>>,
    n: int,
    inode: Inode,
    bits: u8,
)
    requires
        0 <= n <= directories.len(),
    ensures
        native_build::flagged_directories(directories, alive, n).contains((inode, bits))
            <==> has_directory(directories, n, inode) && bits == native_build::directory_flags(
            directories,
            alive,
            inode,
        ),
    decreases n,
{
    if n > 0 {
        let rest = native_build::flagged_directories(directories, alive, n - 1);
        let here = directories[n - 1].0;
        let told = native_build::directory_flags(directories, alive, here);
        flagged_holds(directories, alive, n - 1, inode, bits);
        flagged_holds(directories, alive, n - 1, here, told);
        native_laws::flagged_stay_keyed(directories, alive, n - 1);
        pushed_contains(rest, (here, told), (inode, bits));
        if has_directory(directories, n, inode) {
            let k = choose|k: int| 0 <= k < n && (#[trigger] directories[k]).0 == inode;
            if k < n - 1 {
                assert(has_directory(directories, n - 1, inode));
            }
        }
        if has_directory(directories, n - 1, inode) {
            let k = choose|k: int| 0 <= k < n - 1 && (#[trigger] directories[k]).0 == inode;
            assert(0 <= k < n && directories[k].0 == inode);
        }
        if let Some(held) = pristine::first_value(rest, here) {
            keyed_value(rest, here, held);
            flagged_holds(directories, alive, n - 1, here, held);
            assert(has_directory(directories, n - 1, here));
        } else {
            assert(directories[n - 1].0 == here);
            if has_directory(directories, n - 1, here) {
                keyed_value(rest, here, told);
            }
        }
    }
}

proof fn directory_alike(
    directories: Seq<(Inode, Seq<char>)>,
    alive: Seq<Seq<char>>,
    others: Seq<(Inode, Seq<char>)>,
    shown: Seq<Seq<char>>,
    row: (Inode, u8),
)
    requires
        forall|d: (Inode, Seq<char>)| directories.contains(d) <==> #[trigger] others.contains(d),
        forall|p: Seq<char>| alive.contains(p) <==> #[trigger] shown.contains(p),
        native_build::flagged_directories(
            directories,
            alive,
            directories.len() as int,
        ).contains(row),
    ensures
        native_build::flagged_directories(others, shown, others.len() as int).contains(row),
{
    let inode = row.0;
    flagged_holds(directories, alive, directories.len() as int, inode, row.1);
    flagged_holds(others, shown, others.len() as int, inode, row.1);
    let k = choose|k: int| 0 <= k < directories.len() && (#[trigger] directories[k]).0 == inode;
    assert(directories.contains(directories[k]));
    assert(others.contains(directories[k]));
    let m = others.index_of(directories[k]);
    assert(others[m].0 == inode);
    if native_build::has_entry(directories, alive, inode) {
        assert forall|d: (Inode, Seq<char>)| #[trigger] directories.contains(d) implies others.contains(
            d,
        ) by {}
        assert forall|p: Seq<char>| #[trigger] alive.contains(p) implies shown.contains(p) by {}
        entries_by_members(directories, alive, others, shown, inode);
    }
    if native_build::has_entry(others, shown, inode) {
        entries_by_members(others, shown, directories, alive, inode);
    }
}

proof fn placed_inodes_are_sides(sides: Seq<ClaimedModel>, n: int, k: int) -> (at: int)
    requires
        0 <= n <= sides.len(),
        0 <= k < native_build::directory_sides(sides, n).len(),
    ensures
        0 <= at < sides.len(),
        sides[at].inode == native_build::directory_sides(sides, n)[k].0,
    decreases n,
{
    let rest = native_build::directory_sides(sides, n - 1);
    if k < rest.len() {
        placed_inodes_are_sides(sides, n - 1, k)
    } else {
        n - 1
    }
}

proof fn tree_rows_are_canonical(a: Seq<(Seq<char>, Inode)>, b: Seq<(Seq<char>, Inode)>)
    requires
        keyed(a),
        keyed(b),
        forall|row: (Seq<char>, Inode)| a.contains(row) <==> #[trigger] b.contains(row),
    ensures
        native_build::in_key_order::<(String, Inode)>(a) == native_build::in_key_order::<
            (String, Inode),
        >(b),
{
    let key = |p: (Seq<char>, Inode)| p.0;
    native_laws::sorted_pairs_hold::<(String, Inode)>(a);
    native_laws::sorted_pairs_hold::<(String, Inode)>(b);
    ordering::sorted_stays_apart::<(String, Inode), Seq<char>>(a, a.len() as int, key);
    ordering::sorted_stays_apart::<(String, Inode), Seq<char>>(b, b.len() as int, key);
    let x = native_build::in_key_order::<(String, Inode)>(a);
    let y = native_build::in_key_order::<(String, Inode)>(b);
    assert forall|row: (Seq<char>, Inode)| x.contains(row) <==> #[trigger] y.contains(row) by {
        assert(x.contains(row) <==> a.contains(row));
        assert(b.contains(row) <==> a.contains(row));
    }
    assert forall|r: (Seq<char>, Inode), s: (Seq<char>, Inode)|
        #![trigger key(r), key(s)]
        key(r) != key(s) implies <(String, Inode) as Ranked>::before(r, s) || <(
        String,
        Inode,
    ) as Ranked>::before(s, r) by {
        text::before_is_a_strict_order(r.0, s.0, r.0);
    }
    ordering::order_is_canonical::<(String, Inode), Seq<char>>(x, y, key);
}

proof fn rev_tree_rows_are_canonical(a: Seq<(Inode, Seq<char>)>, b: Seq<(Inode, Seq<char>)>)
    requires
        keyed(a),
        keyed(b),
        forall|row: (Inode, Seq<char>)| a.contains(row) <==> #[trigger] b.contains(row),
    ensures
        native_build::in_key_order::<(Inode, String)>(a) == native_build::in_key_order::<
            (Inode, String),
        >(b),
{
    let key = |p: (Inode, Seq<char>)| p.0;
    native_laws::sorted_pairs_hold::<(Inode, String)>(a);
    native_laws::sorted_pairs_hold::<(Inode, String)>(b);
    ordering::sorted_stays_apart::<(Inode, String), Inode>(a, a.len() as int, key);
    ordering::sorted_stays_apart::<(Inode, String), Inode>(b, b.len() as int, key);
    let x = native_build::in_key_order::<(Inode, String)>(a);
    let y = native_build::in_key_order::<(Inode, String)>(b);
    assert forall|row: (Inode, Seq<char>)| x.contains(row) <==> #[trigger] y.contains(row) by {
        assert(x.contains(row) <==> a.contains(row));
        assert(b.contains(row) <==> a.contains(row));
    }
    ordering::order_is_canonical::<(Inode, String), Inode>(x, y, key);
}

proof fn directory_rows_are_canonical(a: Seq<(Inode, u8)>, b: Seq<(Inode, u8)>)
    requires
        keyed(a),
        keyed(b),
        forall|row: (Inode, u8)| a.contains(row) <==> #[trigger] b.contains(row),
    ensures
        native_build::in_key_order::<(Inode, u8)>(a) == native_build::in_key_order::<(Inode, u8)>(b),
{
    let key = |p: (Inode, u8)| p.0;
    native_laws::sorted_pairs_hold::<(Inode, u8)>(a);
    native_laws::sorted_pairs_hold::<(Inode, u8)>(b);
    ordering::sorted_stays_apart::<(Inode, u8), Inode>(a, a.len() as int, key);
    ordering::sorted_stays_apart::<(Inode, u8), Inode>(b, b.len() as int, key);
    let x = native_build::in_key_order::<(Inode, u8)>(a);
    let y = native_build::in_key_order::<(Inode, u8)>(b);
    assert forall|row: (Inode, u8)| x.contains(row) <==> #[trigger] y.contains(row) by {
        assert(x.contains(row) <==> a.contains(row));
        assert(b.contains(row) <==> a.contains(row));
    }
    ordering::order_is_canonical::<(Inode, u8), Inode>(x, y, key);
}

/// The tree that is rebuilt from replaced tables is the one they came from, up
/// to the order of its rows.
proof fn tree_is_rebuilt(
    tables: PristineModel,
    flags: Seq<(Inode, u8)>,
    stored: PristineModel,
    bits: Seq<(Inode, u8)>,
    present: Seq<ClaimedModel>,
    tree: TreeModel,
) -> (again: TreeModel)
    requires
        native_build::expected_tree(tables, flags, stored.inodes, present) == Ok::<
            TreeModel,
            PathRefusalModel,
        >(tree),
        inverse(stored.tree, stored.rev_tree),
        forall|p: Seq<char>, n: Inode|
            #![trigger stored.tree.contains((p, n))]
            stored.tree.contains((p, n)) <==> tree.tree.contains((p, n)),
        forall|n: Inode|
            #![trigger pristine::first_value(bits, n)]
            pristine::first_value(bits, n) matches Some(told) ==> told <= 3,
        forall|k: int|
            0 <= k < present.len() ==> native_build::is_recorded(
                stored.inodes,
                (#[trigger] present[k]).inode,
            ),
    ensures
        native_build::expected_tree(stored, bits, stored.inodes, present) == Ok::<
            TreeModel,
            PathRefusalModel,
        >(again),
        sound(tree),
        sound(again),
        forall|p: Seq<char>, n: Inode|
            #![trigger again.tree.contains((p, n))]
            again.tree.contains((p, n)) <==> tree.tree.contains((p, n)),
        forall|p: Seq<char>|
            #![trigger again.staged.contains(p)]
            again.staged.contains(p) <==> tree.staged.contains(p),
        forall|p: Seq<char>, n: Inode|
            #![trigger tree.staged_directories.contains((n, p))]
            tree.staged_directories.contains((n, p)) <==> tree.tree.contains((p, n))
                && !native_build::is_recorded(stored.inodes, n) && pristine::first_value(flags, n)
                is Some,
        forall|p: Seq<char>, n: Inode|
            #![trigger again.staged_directories.contains((n, p))]
            again.staged_directories.contains((n, p)) <==> tree.tree.contains((p, n))
                && !native_build::is_recorded(stored.inodes, n) && pristine::first_value(bits, n)
                is Some,
{
    let none = native_build::empty_tree();
    let inodes = stored.inodes;
    assert(sound(none));
    present_result(present, 0, none);
    let shown = native_build::present_from(present, 0, none)->Ok_0;
    assert forall|p: Seq<char>, n: Inode|
        #![trigger shown.tree.contains((p, n))]
        shown.tree.contains((p, n)) implies native_build::is_recorded(inodes, n) by {
        assert(is_claimed(present, 0, p, n));
        let k = choose|k: int|
            0 <= k < present.len() && (#[trigger] present[k]).path == p && present[k].inode == n;
        assert(native_build::is_recorded(inodes, present[k].inode));
    }
    staged_result(tables, flags, inodes, 0, shown);
    assert(is_staging(tables.tree, flags, inodes, 0, shown, tree));
    assert forall|p: Seq<char>, n: Inode|
        #![trigger shown.tree.contains((p, n))]
        shown.tree.contains((p, n)) implies stored.tree.contains((p, n)) by {
        assert(tree.tree.contains((p, n)));
    }
    staging_succeeds(stored, bits, 0, shown);
    staged_result(stored, bits, inodes, 0, shown);
    let again = native_build::staged_from(stored, bits, inodes, 0, shown)->Ok_0;
    assert(is_staging(stored.tree, bits, inodes, 0, shown, again));
    assert forall|p: Seq<char>, n: Inode| #[trigger]
        is_staged(stored.tree, inodes, 0, p, n) <==> is_staged(tables.tree, inodes, 0, p, n) by {
        if is_staged(stored.tree, inodes, 0, p, n) {
            let k = choose|k: int| 0 <= k < stored.tree.len() && #[trigger] stored.tree[k] == (p, n);
            assert(stored.tree.contains((p, n)));
            assert(tree.tree.contains((p, n)));
        }
        if is_staged(tables.tree, inodes, 0, p, n) {
            assert(tree.tree.contains((p, n)));
            assert(stored.tree.contains((p, n)));
            let k = stored.tree.index_of((p, n));
            assert(stored.tree[k] == (p, n));
        }
    }
    assert forall|p: Seq<char>, n: Inode|
        #![trigger again.tree.contains((p, n))]
        again.tree.contains((p, n)) <==> tree.tree.contains((p, n)) by {
        assert(is_staged(stored.tree, inodes, 0, p, n) <==> is_staged(
            tables.tree,
            inodes,
            0,
            p,
            n,
        ));
        assert(tree.tree.contains((p, n)) <==> shown.tree.contains((p, n)) || is_staged(
            tables.tree,
            inodes,
            0,
            p,
            n,
        ));
    }
    assert forall|p: Seq<char>, n: Inode|
        #![trigger stored.tree.contains((p, n))]
        stored.tree.contains((p, n)) implies again.tree.contains((p, n)) by {
        assert(tree.tree.contains((p, n)));
    }
    reverse_is_not_refused(stored, again.tree, 0);
    assert forall|p: Seq<char>|
        #![trigger again.staged.contains(p)]
        again.staged.contains(p) <==> tree.staged.contains(p) by {
        if exists|n: Inode| #[trigger] is_staged(stored.tree, inodes, 0, p, n) {
            let n = choose|n: Inode| #[trigger] is_staged(stored.tree, inodes, 0, p, n);
            assert(is_staged(tables.tree, inodes, 0, p, n));
        }
        if exists|n: Inode| #[trigger] is_staged(tables.tree, inodes, 0, p, n) {
            let n = choose|n: Inode| #[trigger] is_staged(tables.tree, inodes, 0, p, n);
            assert(is_staged(stored.tree, inodes, 0, p, n) <==> is_staged(
                tables.tree,
                inodes,
                0,
                p,
                n,
            ));
            assert(is_staged(stored.tree, inodes, 0, p, n));
        }
        assert(tree.staged.contains(p) <==> shown.staged.contains(p) || exists|n: Inode| #[trigger]
            is_staged(tables.tree, inodes, 0, p, n));
    }
    assert forall|p: Seq<char>, n: Inode|
        is_staged(tables.tree, inodes, 0, p, n) <==> tree.tree.contains((p, n))
            && !native_build::is_recorded(inodes, n) by {
        if tree.tree.contains((p, n)) && !native_build::is_recorded(inodes, n) {
            assert(!shown.tree.contains((p, n)));
        }
        if is_staged(tables.tree, inodes, 0, p, n) {
            assert(tree.tree.contains((p, n)));
        }
    }
    assert forall|p: Seq<char>, n: Inode|
        #![trigger tree.staged_directories.contains((n, p))]
        tree.staged_directories.contains((n, p)) <==> tree.tree.contains((p, n))
            && !native_build::is_recorded(inodes, n) && pristine::first_value(flags, n) is Some by {
        assert(is_staged(tables.tree, inodes, 0, p, n) <==> tree.tree.contains((p, n))
            && !native_build::is_recorded(inodes, n));
    }
    assert forall|p: Seq<char>, n: Inode|
        #![trigger again.staged_directories.contains((n, p))]
        again.staged_directories.contains((n, p)) <==> tree.tree.contains((p, n))
            && !native_build::is_recorded(inodes, n) && pristine::first_value(bits, n) is Some by {
        assert(is_staged(stored.tree, inodes, 0, p, n) <==> is_staged(
            tables.tree,
            inodes,
            0,
            p,
            n,
        ));
    }
    again
}

proof fn contested_sides_are_bound(
    conflicts: Seq<native_build::ReducedConflict>,
    n: int,
    bindings: Seq<(Position, Inode)>,
)
    requires
        0 <= n <= conflicts.len(),
        forall|c: int|
            0 <= c < conflicts.len() ==> native_build::sides_are_bound(
                native_build::claimed_models((#[trigger] conflicts[c]).sides@),
                bindings,
            ),
    ensures
        native_build::sides_are_bound(native_build::conflict_sides(conflicts, n), bindings),
    decreases n,
{
    if n > 0 {
        contested_sides_are_bound(conflicts, n - 1, bindings);
        let rest = native_build::conflict_sides(conflicts, n - 1);
        let more = native_build::claimed_models(conflicts[n - 1].sides@);
        let whole = native_build::conflict_sides(conflicts, n);
        assert(native_build::sides_are_bound(more, bindings));
        assert forall|k: int| 0 <= k < whole.len() implies pristine::first_value(
            bindings,
            (#[trigger] whole[k]).position,
        ) == Some(whole[k].inode) by {
            if k < rest.len() {
                assert(whole[k] == rest[k]);
            } else {
                assert(whole[k] == more[k - rest.len()]);
            }
        }
    }
}

/// What a view shows or contests was recorded, if it names its inodes by roots.
proof fn bound_sides_are_recorded(view: ReducedView, bindings: Seq<(Position, Inode)>, k: int)
    requires
        native_build::view_is_bound(view, bindings),
        0 <= k < native_build::all_sides(view).len(),
    ensures
        native_build::is_recorded(
            native_build::ordered_inodes(bindings),
            native_build::all_sides(view)[k].inode,
        ),
{
    let present = native_build::claimed_models(view.present@);
    let contested = native_build::conflict_sides(view.conflicts@, view.conflicts@.len() as int);
    contested_sides_are_bound(view.conflicts@, view.conflicts@.len() as int, bindings);
    let side = native_build::all_sides(view)[k];
    if k < present.len() {
        assert(side == present[k]);
    } else {
        assert(side == contested[k - present.len()]);
    }
    let m = pristine::first_value_stands(bindings, side.position);
    let flipped = native_build::flipped(bindings);
    assert(flipped[m] == (side.inode, side.position));
    assert(flipped.contains((side.inode, side.position)));
    native_laws::sorted_pairs_hold::<(Inode, Position)>(flipped);
    let inodes = native_build::ordered_inodes(bindings);
    assert(inodes == native_build::in_key_order::<(Inode, Position)>(flipped));
    assert(inodes.contains((side.inode, side.position)));
    let at = inodes.index_of((side.inode, side.position));
    if pristine::first_value(inodes, side.inode) is None {
        pristine::no_first_value(inodes, side.inode, at);
    }
}

proof fn found_view_stands(views: Seq<crate::repository::ViewState>, name: Seq<char>, i: int)
    requires
        0 <= i,
    ensures
        crate::repository::view_from(views, name, i) matches Some(k) ==> 0 <= k < views.len(),
    decreases views.len() - i,
{
    if i < views.len() {
        found_view_stands(views, name, i + 1);
    }
}

/// Rebuilding from replaced tables gives the same tables again.
pub proof fn rebuilding_again_changes_nothing(
    repo: Repository,
    after: Repository,
    bindings: Seq<(Position, Inode)>,
    facts: NativeClaims,
    again: NativeClaims,
    tables: IndexesModel,
)
    requires
        native_roots::in_position_order(bindings),
        native_build::expected_indexes(repo, bindings, facts) == Ok::<IndexesModel, FaultModel>(
            tables,
        ),
        replaced(repo, after, tables),
        read_again(facts, again, tables),
        native_build::facts_are_bound(facts, bindings),
        facts.reduced@.len() == repo.views@.len(),
    ensures
        native_build::expected_indexes(after, bindings, again) == Ok::<IndexesModel, FaultModel>(
            tables,
        ),
{
    let at = repo.view_at(repo.current_view@)->0;
    let view = facts.reduced@[at];
    let sides = native_build::all_sides(view);
    let present = native_build::claimed_models(view.present@);
    let inodes = tables.inodes;
    let tree = native_build::expected_tree(repo.pristine@, facts.flags@, inodes, present)->Ok_0;
    found_view_stands(repo.views@, repo.current_view@, 0);
    assert(native_build::view_is_bound(view, bindings));
    assert forall|k: int| 0 <= k < sides.len() implies native_build::is_recorded(
        inodes,
        (#[trigger] sides[k]).inode,
    ) by {
        bound_sides_are_recorded(view, bindings, k);
    }
    view_entries_alike(repo, after, facts.reduced@, 0, Seq::empty());
    native_laws::projected_tables_are_in_order(repo, bindings, facts);
    native_laws::projected_tables_are_inverse(repo, bindings, facts);
    native_laws::sorted_pairs_hold::<(String, Inode)>(tree.tree);
    assert forall|p: Seq<char>, n: Inode|
        #![trigger tables.tree.contains((p, n))]
        tables.tree.contains((p, n)) <==> tree.tree.contains((p, n)) by {}
    let placed = native_laws::directory_paths(view, tree);
    let alive = native_laws::shown_paths(view, tree);
    let rows = native_build::expected_directories(view, tree);
    native_laws::sorted_pairs_hold::<(Inode, u8)>(rows);
    native_laws::flagged_stay_keyed(placed, alive, placed.len() as int);
    let bits = tables.directories;
    assert forall|n: Inode|
        #![trigger pristine::first_value(bits, n)]
        pristine::first_value(bits, n) is Some implies pristine::first_value(bits, n)->0 <= 3
        && has_directory(placed, placed.len() as int, n) by {
        if let Some(told) = pristine::first_value(bits, n) {
            keyed_value(bits, n, told);
            assert(rows.contains((n, told)));
            flagged_holds(placed, alive, placed.len() as int, n, told);
        }
    }
    assert forall|k: int| 0 <= k < present.len() implies native_build::is_recorded(
        inodes,
        (#[trigger] present[k]).inode,
    ) by {
        assert(sides[k] == present[k]);
    }
    let rebuilt = tree_is_rebuilt(
        repo.pristine@,
        facts.flags@,
        after.pristine@,
        bits,
        present,
        tree,
    );
    assert forall|row: (Seq<char>, Inode)|
        rebuilt.tree.contains(row) <==> #[trigger] tree.tree.contains(row) by {
        assert(rebuilt.tree.contains((row.0, row.1)) <==> tree.tree.contains((row.0, row.1)));
    }
    tree_rows_are_canonical(rebuilt.tree, tree.tree);
    assert forall|row: (Inode, Seq<char>)|
        rebuilt.reverse.contains(row) <==> #[trigger] tree.reverse.contains(row) by {
        assert(rebuilt.tree.contains((row.1, row.0)) <==> rebuilt.reverse.contains((row.0, row.1)));
        assert(tree.tree.contains((row.1, row.0)) <==> tree.reverse.contains((row.0, row.1)));
    }
    rev_tree_rows_are_canonical(rebuilt.reverse, tree.reverse);
    // Directories: those of the claims, and those that are staged.
    let others = native_laws::directory_paths(view, rebuilt);
    let shown = native_laws::shown_paths(view, rebuilt);
    let named = native_build::directory_sides(sides, sides.len() as int);
    let paths = sides.map_values(|s: ClaimedModel| s.path);
    assert forall|d: (Inode, Seq<char>)| placed.contains(d) <==> #[trigger] others.contains(d) by {
        joined_contains(named, tree.staged_directories, d);
        joined_contains(named, rebuilt.staged_directories, d);
        let (n, p) = d;
        assert(tree.staged_directories.contains((n, p)) <==> rebuilt.staged_directories.contains(
            (n, p),
        )) by {
            if tree.staged_directories.contains((n, p)) {
                // A staged directory has a row, and so it has flags.
                let k = placed.index_of((n, p));
                assert(placed.contains((n, p)));
                assert(placed[k].0 == n);
                assert(has_directory(placed, placed.len() as int, n));
                let told = native_build::directory_flags(placed, alive, n);
                flagged_holds(placed, alive, placed.len() as int, n, told);
                assert(bits.contains((n, told)));
                keyed_value(bits, n, told);
            }
            if rebuilt.staged_directories.contains((n, p)) {
                assert(pristine::first_value(bits, n) is Some);
                assert(has_directory(placed, placed.len() as int, n));
                let k = choose|k: int| 0 <= k < placed.len() && (#[trigger] placed[k]).0 == n;
                if k < named.len() {
                    assert(placed[k] == named[k]);
                    let s = placed_inodes_are_sides(sides, sides.len() as int, k);
                    assert(native_build::is_recorded(inodes, sides[s].inode));
                } else {
                    let e = tree.staged_directories[k - named.len()];
                    assert(placed[k] == e);
                    assert(tree.staged_directories.contains((n, e.1)));
                    assert(pristine::first_value(facts.flags@, n) is Some);
                }
            }
        }
    }
    assert forall|p: Seq<char>| alive.contains(p) <==> #[trigger] shown.contains(p) by {
        joined_contains(paths, tree.staged, p);
        joined_contains(paths, rebuilt.staged, p);
    }
    let rows_again = native_build::expected_directories(view, rebuilt);
    assert forall|row: (Inode, u8)| rows_again.contains(row) <==> #[trigger] rows.contains(
        row,
    ) by {
        if rows.contains(row) {
            directory_alike(placed, alive, others, shown, row);
        }
        if rows_again.contains(row) {
            assert forall|d: (Inode, Seq<char>)|
                others.contains(d) <==> #[trigger] placed.contains(d) by {
                assert(placed.contains(d) <==> others.contains(d));
            }
            assert forall|p: Seq<char>| shown.contains(p) <==> #[trigger] alive.contains(p) by {
                assert(alive.contains(p) <==> shown.contains(p));
            }
            directory_alike(others, shown, placed, alive, row);
        }
    }
    native_laws::flagged_stay_keyed(others, shown, others.len() as int);
    directory_rows_are_canonical(rows_again, rows);
}

/// After a repair, the tables are healthy, and a second repair has nothing to
/// do: it finds no problem, and counts as many rows as the first one wrote.
pub proof fn second_repair_has_nothing_to_do(
    repo: Repository,
    after: Repository,
    bindings: Seq<(Position, Inode)>,
    facts: NativeClaims,
    again: NativeClaims,
    tables: IndexesModel,
    current: u32,
)
    requires
        native_roots::in_position_order(bindings),
        native_build::expected_indexes(repo, bindings, facts) == Ok::<IndexesModel, FaultModel>(
            tables,
        ),
        replaced(repo, after, tables),
        read_again(facts, again, tables),
        native_build::facts_are_bound(facts, bindings),
        facts.reduced@.len() == repo.views@.len(),
    ensures
        ({
            let stored = native_tables::stored_rows(tables, current);
            &&& native_build::expected_indexes(after, bindings, again) == Ok::<
                IndexesModel,
                FaultModel,
            >(tables)
            &&& native_build::facts_are_bound(again, bindings)
            &&& native_tables::all_problems(tables, stored, current).len() == 0
            &&& forall|report: crate::native_index::NativeIndexReport| #[trigger]
                native_build::report_told(
                    report,
                    native_build::expected_indexes(after, bindings, again),
                    stored,
                    current,
                ) ==> report.problems@.len() == 0 && report.expected_rows as nat
                    == tables.row_count()
        }),
{
    rebuilding_again_changes_nothing(repo, after, bindings, facts, again, tables);
    native_laws::projected_tables_are_in_order(repo, bindings, facts);
    health_laws::stored_tables_are_healthy(tables, current);
}

proof fn bound_again_from(
    keys: Seq<(Inode, GraphNode)>,
    vertices: Seq<GraphNode>,
    stored: Seq<(Position, Inode)>,
    roots: Seq<(Position, native_roots::PathClaimKind)>,
    i: int,
    found: Seq<(Position, Inode)>,
    bindings: Seq<(Position, Inode)>,
)
    requires
        0 <= i <= roots.len(),
        found.len() == i,
        keyed(bindings),
        native_roots::bindings_from(keys, vertices, stored, roots, i, found) == Ok::<
            _,
            NativeRefusal,
        >(bindings),
    ensures
        bindings.len() == roots.len(),
        forall|k: int| 0 <= k < i ==> #[trigger] bindings[k] == found[k],
        native_roots::bindings_from(keys, vertices, bindings, roots, i, found) == Ok::<
            _,
            NativeRefusal,
        >(bindings),
    decreases roots.len() - i,
{
    if i < roots.len() {
        let position = roots[i].0;
        let inode = native_roots::owner_of(keys, vertices, stored, position)->Ok_0;
        let grown = found.push((position, inode));
        bound_again_from(keys, vertices, stored, roots, i + 1, grown, bindings);
        assert(bindings[i] == grown[i]);
        assert forall|k: int| 0 <= k < i implies #[trigger] bindings[k] == found[k] by {
            assert(bindings[k] == grown[k]);
        }
        assert(bindings.contains((position, inode)));
        keyed_value(bindings, position, inode);
        assert(native_roots::owner_of(keys, vertices, bindings, position) == Ok::<
            Inode,
            NativeRefusal,
        >(inode));
    }
}

/// Once the bindings of roots are stored, the same roots are bound to the same
/// owners again.
pub proof fn stored_bindings_are_found_again(
    keys: Seq<(Inode, GraphNode)>,
    vertices: Seq<GraphNode>,
    stored: Seq<(Position, Inode)>,
    roots: Seq<(Position, native_roots::PathClaimKind)>,
    bindings: Seq<(Position, Inode)>,
)
    requires
        native_roots::in_position_order(bindings),
        native_roots::bindings_from(keys, vertices, stored, roots, 0, Seq::empty()) == Ok::<
            _,
            NativeRefusal,
        >(bindings),
    ensures
        native_roots::bindings_from(keys, vertices, bindings, roots, 0, Seq::empty()) == Ok::<
            _,
            NativeRefusal,
        >(bindings),
{
    native_laws::positions_are_keyed(bindings);
    bound_again_from(keys, vertices, stored, roots, 0, Seq::empty(), bindings);
}

} // verus!
