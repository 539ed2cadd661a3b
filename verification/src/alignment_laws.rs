//! What aligning the tree cache leaves behind.

use crate::deferred_tree;
use crate::deferred_tree::{
    ActionModel, DesiredModel, OpModel, ProjectionModel, ResolvedModel, TreeRefusal,
};
use crate::pristine;
use crate::pristine::{PristineModel, Visibility};
use crate::text;
use crate::tree_alignment;
use crate::tree_alignment::{AlignmentModel, AlignmentPlanModel, UpdateModel};
use crate::tree_laws;
use crate::tree_laws::{locates, tables_agree};
use crate::types::{ContentHash, ExternalPosition, Inode, Position};
use crate::word_laws;
use vstd::prelude::*;

verus! {

/// The path that each inode has in the tree cache.
pub open spec fn cached_paths(tables: PristineModel) -> Map<Inode, Seq<char>> {
    Map::new(|inode: Inode| tables.path(inode) is Some, |inode: Inode| tables.path(inode)->0)
}

/// Paths of inodes after alignment operations were carried out on them: a move
/// and an undeletion give the inode its path, a deletion takes it away.
pub open spec fn carried(paths: Map<Inode, Seq<char>>, operations: Seq<AlignmentModel>) -> Map<
    Inode,
    Seq<char>,
>
    decreases operations.len(),
{
    if operations.len() == 0 {
        paths
    } else {
        let rest = carried(paths, operations.drop_last());
        match operations.last() {
            AlignmentModel::Undelete { inode, path, .. } => rest.insert(inode, path),
            AlignmentModel::Move { inode, path } => rest.insert(inode, path),
            AlignmentModel::Delete { inode } => rest.remove(inode),
            AlignmentModel::DirectoryOccupancy { .. } => rest,
        }
    }
}

/// The path of an inode, if it has one.
pub open spec fn path_of(paths: Map<Inode, Seq<char>>, inode: Inode) -> Option<Seq<char>> {
    if paths.dom().contains(inode) {
        Some(paths[inode])
    } else {
        None
    }
}

proof fn carried_in_turn(
    paths: Map<Inode, Seq<char>>,
    a: Seq<AlignmentModel>,
    b: Seq<AlignmentModel>,
)
    ensures
        carried(paths, a + b) == carried(carried(paths, a), b),
    decreases b.len(),
{
    if b.len() == 0 {
        assert(a + b =~= a);
    } else {
        carried_in_turn(paths, a, b.drop_last());
        assert((a + b).drop_last() =~= a + b.drop_last());
        assert((a + b).last() == b.last());
    }
}

proof fn updates_are_planned(
    tables: PristineModel,
    visibility: Visibility,
    plan: Seq<(ExternalPosition, DesiredModel)>,
    i: int,
    updates: Seq<UpdateModel>,
)
    requires
        0 <= i <= plan.len(),
        updates.len() == i,
        forall|k: int|
            0 <= k < i ==> tree_alignment::update_for(
                tables,
                visibility,
                (#[trigger] plan[k]).0,
                plan[k].1,
            ) == Ok::<UpdateModel, TreeRefusal>(updates[k]),
    ensures
        tree_alignment::updates_from(tables, visibility, plan, i, updates) matches Ok(all)
            ==> all.len() == plan.len() && forall|k: int|
            0 <= k < plan.len() ==> tree_alignment::update_for(
                tables,
                visibility,
                (#[trigger] plan[k]).0,
                plan[k].1,
            ) == Ok::<UpdateModel, TreeRefusal>(all[k]),
    decreases plan.len() - i,
{
    if i < plan.len() {
        if let Ok(update) = tree_alignment::update_for(tables, visibility, plan[i].0, plan[i].1) {
            updates_are_planned(tables, visibility, plan, i + 1, updates.push(update));
        }
    }
}

/// Whether the updates are of different inodes, each at the path that the
/// cache has for it.
spec fn are_of_cache(tables: PristineModel, updates: Seq<UpdateModel>) -> bool {
    &&& forall|i: int, j: int|
        #![trigger updates[i], updates[j]]
        0 <= i < j < updates.len() ==> updates[i].inode != updates[j].inode
    &&& forall|i: int|
        0 <= i < updates.len() ==> (#[trigger] updates[i]).current == tables.path(updates[i].inode)
}

proof fn updates_are_carried(
    tables: PristineModel,
    updates: Seq<UpdateModel>,
    inode: Inode,
)
    requires
        are_of_cache(tables, updates),
    ensures
        forall|k: int|
            0 <= k < updates.len() && (#[trigger] updates[k]).inode == inode ==> path_of(
                carried(cached_paths(tables), tree_alignment::update_operations(updates)),
                inode,
            ) == updates[k].desired,
        (forall|k: int| 0 <= k < updates.len() ==> (#[trigger] updates[k]).inode != inode)
            ==> path_of(
            carried(cached_paths(tables), tree_alignment::update_operations(updates)),
            inode,
        ) == tables.path(inode),
    decreases updates.len(),
{
    let start = cached_paths(tables);
    if updates.len() > 0 {
        let rest = updates.drop_last();
        let last = updates.last();
        assert(last == updates[updates.len() - 1]);
        assert forall|i: int, j: int|
            #![trigger rest[i], rest[j]]
            0 <= i < j < rest.len() implies rest[i].inode != rest[j].inode by {
            assert(rest[i] == updates[i] && rest[j] == updates[j]);
        }
        assert forall|i: int| 0 <= i < rest.len() implies (#[trigger] rest[i]).current
            == tables.path(rest[i].inode) by {
            assert(rest[i] == updates[i]);
        }
        updates_are_carried(tables, rest, inode);
        let before = tree_alignment::update_operations(rest);
        let step = tree_alignment::update_operation(last);
        carried_in_turn(start, before, step);
        let middle = carried(start, before);
        let end = carried(middle, step);
        assert(end == carried(start, tree_alignment::update_operations(updates)));
        reveal_with_fuel(carried, 2);
        if step.len() > 0 {
            assert(step.drop_last() =~= Seq::empty());
            assert(carried(middle, step.drop_last()) == middle);
        }
        if last.inode == inode {
            assert forall|k: int| 0 <= k < rest.len() implies (#[trigger] rest[k]).inode
                != inode by {
                assert(rest[k] == updates[k]);
            }
            assert(path_of(middle, inode) == tables.path(inode));
            assert(path_of(end, inode) == last.desired);
        } else {
            assert(path_of(end, inode) == path_of(middle, inode));
        }
        assert forall|k: int|
            0 <= k < updates.len() && (#[trigger] updates[k]).inode == inode implies path_of(
            end,
            inode,
        ) == updates[k].desired by {
            if k < rest.len() {
                assert(rest[k] == updates[k]);
                assert(updates[k].inode != updates[updates.len() - 1].inode);
            }
        }
        if forall|k: int| 0 <= k < updates.len() ==> (#[trigger] updates[k]).inode != inode {
            assert forall|k: int| 0 <= k < rest.len() implies (#[trigger] rest[k]).inode
                != inode by {
                assert(rest[k] == updates[k]);
            }
        }
    }
}

proof fn occupancy_moves_nothing(
    paths: Map<Inode, Seq<char>>,
    tree: Map<Seq<char>, Inode>,
    updates: Seq<UpdateModel>,
)
    ensures
        carried(paths, tree_alignment::occupancy_operations(tree, updates)) == paths,
    decreases updates.len(),
{
    if updates.len() > 0 {
        let rest = tree_alignment::occupancy_operations(tree, updates.drop_last());
        occupancy_moves_nothing(paths, tree, updates.drop_last());
        let all = tree_alignment::occupancy_operations(tree, updates);
        if all.len() > rest.len() {
            assert(all.drop_last() =~= rest);
        }
    }
}

/// What an alignment plan is made of.
proof fn alignment_is_made(
    tables: PristineModel,
    ops: Seq<OpModel>,
    visibility: Visibility,
    aligned: AlignmentPlanModel,
) -> (made: (Seq<(ExternalPosition, DesiredModel)>, Seq<UpdateModel>))
    requires
        tables_agree(tables),
        tree_alignment::alignment(tables, ops, visibility) == Ok::<AlignmentPlanModel, TreeRefusal>(
            aligned,
        ),
    ensures
        deferred_tree::journal_plan(tables, ops, visibility.changes@) == Ok::<_, TreeRefusal>(
            made.0,
        ),
        made.1.len() == made.0.len(),
        are_of_cache(tables, made.1),
        forall|k: int|
            0 <= k < made.0.len() ==> {
                let update = (#[trigger] made.1[k]);
                exists|position: Position|
                    #![trigger locates(tables, made.0[k].0, update.inode, position)]
                    locates(tables, made.0[k].0, update.inode, position) && update.is_directory
                        == tables.directories.contains(update.inode) && update.desired
                        == tree_laws::goes_to(
                        visibility,
                        Some(made.0[k].1),
                        ResolvedModel {
                            inode: update.inode,
                            path: tables.path(update.inode),
                            is_directory: tables.directories.contains(update.inode),
                            position,
                        },
                    )
            },
        aligned.affected == tree_alignment::affected(made.1),
        aligned.operations == tree_alignment::update_operations(made.1)
            + tree_alignment::occupancy_operations(
            tree_alignment::final_paths(tables, made.1),
            made.1,
        ),
        forall|inode: Inode| #[trigger]
            path_of(carried(cached_paths(tables), aligned.operations), inode) == path_of(
                carried(cached_paths(tables), tree_alignment::update_operations(made.1)),
                inode,
            ),
        forall|at: ExternalPosition|
            #![trigger pristine::first_value(made.0, at)]
            pristine::first_value(made.0, at) matches Some(desired) ==> exists|k: int|
                0 <= k < made.0.len() && #[trigger] made.0[k] == (at, desired),
        forall|k: int|
            0 <= k < made.0.len() ==> pristine::first_value(made.0, (#[trigger] made.0[k]).0)
                == Some(made.0[k].1),
{
    let plan = deferred_tree::journal_plan(tables, ops, visibility.changes@)->Ok_0;
    let updates = tree_alignment::updates_from(tables, visibility, plan, 0, Seq::empty())->Ok_0;
    updates_are_planned(tables, visibility, plan, 0, Seq::empty());
    let keys = plan.map_values(|e: (ExternalPosition, DesiredModel)| e.0);
    let own = word_laws::plan_speaks(
        tables,
        ops,
        visibility.changes@,
        plan,
        plan[0].0,
    );
    assert(keys.no_duplicates());
    assert forall|k: int| 0 <= k < plan.len() implies {
        let update = (#[trigger] updates[k]);
        exists|position: Position|
            #![trigger locates(tables, plan[k].0, update.inode, position)]
            locates(tables, plan[k].0, update.inode, position) && update.is_directory
                == tables.directories.contains(update.inode) && update.desired
                == tree_laws::goes_to(
                visibility,
                Some(plan[k].1),
                ResolvedModel {
                    inode: update.inode,
                    path: tables.path(update.inode),
                    is_directory: tables.directories.contains(update.inode),
                    position,
                },
            )
    } by {
        assert(tree_alignment::update_for(tables, visibility, plan[k].0, plan[k].1) == Ok::<
            UpdateModel,
            TreeRefusal,
        >(updates[k]));
        let (position, inode) = tree_alignment::locate(tables, plan[k].0)->Ok_0;
        tree_laws::internal_is_external(tables, plan[k].0);
        assert(tables.position_inode(position) == Some(inode));
        assert(tables.inode_position(inode) == Some(position));
        assert(locates(tables, plan[k].0, updates[k].inode, position));
    }
    assert forall|i: int, j: int|
        #![trigger updates[i], updates[j]]
        0 <= i < j < updates.len() implies updates[i].inode != updates[j].inode by {
        let p = choose|p: Position| #[trigger] locates(tables, plan[i].0, updates[i].inode, p);
        let q = choose|q: Position| #[trigger] locates(tables, plan[j].0, updates[j].inode, q);
        tree_laws::locations_are_unique(
            tables,
            plan[i].0,
            updates[i].inode,
            p,
            plan[j].0,
            updates[j].inode,
            q,
        );
        assert(keys[i] != keys[j]);
    }
    assert forall|i: int| 0 <= i < updates.len() implies (#[trigger] updates[i]).current
        == tables.path(updates[i].inode) by {
        assert(tree_alignment::update_for(tables, visibility, plan[i].0, plan[i].1) == Ok::<
            UpdateModel,
            TreeRefusal,
        >(updates[i]));
    }
    let moves = tree_alignment::update_operations(updates);
    let rest = tree_alignment::occupancy_operations(
        tree_alignment::final_paths(tables, updates),
        updates,
    );
    carried_in_turn(cached_paths(tables), moves, rest);
    occupancy_moves_nothing(
        carried(cached_paths(tables), moves),
        tree_alignment::final_paths(tables, updates),
        updates,
    );
    assert forall|at: ExternalPosition|
        #![trigger pristine::first_value(plan, at)]
        pristine::first_value(plan, at) matches Some(desired) ==> exists|k: int|
            0 <= k < plan.len() && #[trigger] plan[k] == (at, desired) by {
        if let Some(desired) = pristine::first_value(plan, at) {
            let k = first_value_has_place(plan, at);
            assert(plan[k] == (at, desired));
        }
    }
    assert forall|k: int| 0 <= k < plan.len() implies pristine::first_value(
        plan,
        (#[trigger] plan[k]).0,
    ) == Some(plan[k].1) by {
        word_laws::value_is_found(plan, plan[k].0, k);
    }
    (plan, updates)
}

proof fn first_value_has_place<K, V>(pairs: Seq<(K, V)>, key: K) -> (m: int)
    requires
        pristine::first_value(pairs, key) is Some,
    ensures
        0 <= m < pairs.len(),
        pairs[m] == (key, pristine::first_value(pairs, key)->0),
    decreases pairs.len(),
{
    if pairs[0].0 == key {
        0
    } else {
        first_value_has_place(pairs.drop_first(), key) + 1
    }
}

/// Carrying out an alignment leaves every journaled inode exactly where the
/// visibility shows it: the path that shows it is its path, and it has a path
/// only where something is shown. Other inodes keep theirs.
pub proof fn alignment_follows_the_projection(
    tables: PristineModel,
    ops: Seq<OpModel>,
    visibility: Visibility,
    tree: ProjectionModel,
    aligned: AlignmentPlanModel,
    at: ExternalPosition,
    inode: Inode,
    position: Position,
)
    requires
        tables_agree(tables),
        tables.dependency_first(),
        tree_alignment::alignment(tables, ops, visibility) == Ok::<AlignmentPlanModel, TreeRefusal>(
            aligned,
        ),
        deferred_tree::projected_tree(tables, ops, visibility) == Ok::<
            ProjectionModel,
            TreeRefusal,
        >(tree),
        locates(tables, at, inode, position),
    ensures
        ({
            let after = carried(cached_paths(tables), aligned.operations);
            let speaks = exists|i: int| 0 <= i < ops.len() && (#[trigger] ops[i]).inode == at;
            &&& speaks ==> {
                &&& forall|path: Seq<char>| #[trigger]
                    tree.present.dom().contains(path) && tree.present[path].inode == inode
                        ==> path_of(after, inode) == Some(path)
                &&& path_of(after, inode) matches Some(path) ==> tree.present.dom().contains(path)
                    && (tree_laws::is_own_path(tables, ops, at, inode, path)
                    ==> tree.present[path].inode == inode)
            }
            &&& !speaks ==> path_of(after, inode) == tables.path(inode)
        }),
{
    let (plan, updates) = alignment_is_made(tables, ops, visibility, aligned);
    let to = tree_laws::goes_where_it_is_shown(
        tables,
        ops,
        visibility,
        tree,
        at,
        inode,
        position,
    );
    updates_are_carried(tables, updates, inode);
    let speaks = exists|i: int| 0 <= i < ops.len() && (#[trigger] ops[i]).inode == at;
    if speaks {
        let desired = pristine::first_value(plan, at)->0;
        let k = choose|k: int| 0 <= k < plan.len() && #[trigger] plan[k] == (at, desired);
        let update = updates[k];
        let found = choose|p: Position|
            #![trigger locates(tables, plan[k].0, update.inode, p)]
            locates(tables, plan[k].0, update.inode, p) && update.is_directory
                == tables.directories.contains(update.inode) && update.desired
                == tree_laws::goes_to(
                visibility,
                Some(plan[k].1),
                ResolvedModel {
                    inode: update.inode,
                    path: tables.path(update.inode),
                    is_directory: tables.directories.contains(update.inode),
                    position: p,
                },
            );
        tree_laws::locations_are_unique(tables, at, inode, position, at, update.inode, found);
        assert(update.desired == to);
        assert(path_of(carried(cached_paths(tables), aligned.operations), inode) == to);
    } else {
        assert forall|k: int| 0 <= k < updates.len() implies (#[trigger] updates[k]).inode
            != inode by {
            let p = choose|p: Position| #[trigger]
                locates(tables, plan[k].0, updates[k].inode, p);
            if updates[k].inode == inode {
                tree_laws::locations_are_unique(
                    tables,
                    at,
                    inode,
                    position,
                    plan[k].0,
                    updates[k].inode,
                    p,
                );
                assert(pristine::first_value(plan, plan[k].0) is Some);
            }
        }
    }
}

/// The affected paths of an alignment are those that some inode leaves or
/// takes when it is carried out.
pub proof fn affected_paths_are_those_that_change(
    tables: PristineModel,
    ops: Seq<OpModel>,
    visibility: Visibility,
    aligned: AlignmentPlanModel,
    path: Seq<char>,
)
    requires
        tables_agree(tables),
        tree_alignment::alignment(tables, ops, visibility) == Ok::<AlignmentPlanModel, TreeRefusal>(
            aligned,
        ),
    ensures
        aligned.affected.contains(path) <==> exists|inode: Inode|
            #![trigger path_of(carried(cached_paths(tables), aligned.operations), inode)]
            tables.path(inode) != path_of(
                carried(cached_paths(tables), aligned.operations),
                inode,
            ) && (tables.path(inode) == Some(path) || path_of(
                carried(cached_paths(tables), aligned.operations),
                inode,
            ) == Some(path)),
{
    let (plan, updates) = alignment_is_made(tables, ops, visibility, aligned);
    let after = carried(cached_paths(tables), aligned.operations);
    if aligned.affected.contains(path) {
        let k = choose|k: int|
            0 <= k < updates.len() && (#[trigger] updates[k]).current != updates[k].desired && (
            updates[k].current == Some(path) || updates[k].desired == Some(path));
        updates_are_carried(tables, updates, updates[k].inode);
        assert(path_of(after, updates[k].inode) == updates[k].desired);
    }
    if exists|inode: Inode|
        #![trigger path_of(after, inode)]
        tables.path(inode) != path_of(after, inode) && (tables.path(inode) == Some(path) || path_of(
            after,
            inode,
        ) == Some(path)) {
        let inode = choose|inode: Inode|
            #![trigger path_of(after, inode)]
            tables.path(inode) != path_of(after, inode) && (tables.path(inode) == Some(path)
                || path_of(after, inode) == Some(path));
        updates_are_carried(tables, updates, inode);
        let k = choose|k: int| 0 <= k < updates.len() && (#[trigger] updates[k]).inode == inode;
        assert(updates[k].inode == inode);
        assert(updates[k].current != updates[k].desired);
    }
}


/// Aligning the cache takes the path of a journaled inode away when its deletion
/// has the last word and no live content keeps it, or when the view does not
/// show its creation, and gives it the path that has the last word.
pub proof fn last_words_are_carried_out(
    tables: PristineModel,
    ops: Seq<OpModel>,
    visibility: Visibility,
    aligned: AlignmentPlanModel,
    at: ExternalPosition,
    inode: Inode,
    position: Position,
    change: ContentHash,
)
    requires
        tables_agree(tables),
        tables.dependency_first(),
        tree_alignment::alignment(tables, ops, visibility) == Ok::<AlignmentPlanModel, TreeRefusal>(
            aligned,
        ),
        locates(tables, at, inode, position),
        exists|i: int| 0 <= i < ops.len() && (#[trigger] ops[i]).inode == at,
    ensures
        ({
            let after = path_of(carried(cached_paths(tables), aligned.operations), inode);
            let visible = word_laws::hashes_of(tables, visibility.changes@);
            let shown = visibility.changes@.contains(position.change);
            let last = word_laws::words(ops, at, change).last().action;
            &&& !shown ==> after is None
            &&& shown && word_laws::has_last_word(tables, ops, visible, at, change) ==> match last {
                ActionModel::Place { path } => after == Some(path),
                ActionModel::Delete => tables.directories.contains(inode)
                    || !visibility.live@.contains(position) ==> after is None,
            }
        }),
{
    let (plan, updates) = alignment_is_made(tables, ops, visibility, aligned);
    tree_laws::planned_state(tables, ops, visibility, plan, at);
    updates_are_carried(tables, updates, inode);
    let desired = pristine::first_value(plan, at)->0;
    let k = choose|k: int| 0 <= k < plan.len() && #[trigger] plan[k] == (at, desired);
    let update = updates[k];
    let found = choose|p: Position|
        #![trigger locates(tables, plan[k].0, update.inode, p)]
        locates(tables, plan[k].0, update.inode, p) && update.is_directory
            == tables.directories.contains(update.inode) && update.desired == tree_laws::goes_to(
            visibility,
            Some(plan[k].1),
            ResolvedModel {
                inode: update.inode,
                path: tables.path(update.inode),
                is_directory: tables.directories.contains(update.inode),
                position: p,
            },
        );
    tree_laws::locations_are_unique(tables, at, inode, position, at, update.inode, found);
    assert(path_of(carried(cached_paths(tables), aligned.operations), inode) == update.desired);
}

proof fn tree_map_holds(tree: Seq<(Seq<char>, Inode)>, path: Seq<char>)
    ensures
        tree_alignment::tree_map(tree).dom().contains(path) <==> exists|inode: Inode| #[trigger]
            tree.contains((path, inode)),
        tree_alignment::tree_map(tree).dom().contains(path) ==> tree.contains(
            (path, tree_alignment::tree_map(tree)[path]),
        ),
    decreases tree.len(),
{
    if tree.len() > 0 {
        let rest = tree.drop_last();
        tree_map_holds(rest, path);
        let last = tree.last();
        assert(tree[tree.len() - 1] == last);
        assert forall|inode: Inode| #[trigger] tree.contains((path, inode)) <==> rest.contains(
            (path, inode),
        ) || last == (path, inode) by {
            if rest.contains((path, inode)) {
                let k = rest.index_of((path, inode));
                assert(tree[k] == (path, inode));
            }
            if tree.contains((path, inode)) && last != (path, inode) {
                let k = tree.index_of((path, inode));
                assert(rest[k] == (path, inode));
            }
        }
        if last.0 == path {
            assert(tree.contains((path, last.1)));
        } else if tree_alignment::tree_map(rest).dom().contains(path) {
            assert(rest.contains((path, tree_alignment::tree_map(rest)[path])));
            assert(tree.contains((path, tree_alignment::tree_map(rest)[path])));
        }
    }
}

proof fn left_paths(
    paths: Map<Seq<char>, Inode>,
    updates: Seq<UpdateModel>,
    path: Seq<char>,
)
    ensures
        tree_alignment::without_current(paths, updates).dom().contains(path) <==> (
        paths.dom().contains(path) && forall|k: int|
            0 <= k < updates.len() ==> !((#[trigger] updates[k]).current == Some(path)
                && updates[k].inode == paths[path])),
        tree_alignment::without_current(paths, updates).dom().contains(path)
            ==> tree_alignment::without_current(paths, updates)[path] == paths[path],
    decreases updates.len(),
{
    if updates.len() > 0 {
        let rest = updates.drop_last();
        left_paths(paths, rest, path);
        let last = updates.last();
        assert(updates[updates.len() - 1] == last);
        assert forall|k: int| 0 <= k < rest.len() implies #[trigger] rest[k] == updates[k] by {}
        if forall|k: int|
            0 <= k < updates.len() ==> !((#[trigger] updates[k]).current == Some(path)
                && updates[k].inode == paths[path]) {
            assert forall|k: int| 0 <= k < rest.len() implies !((#[trigger] rest[k]).current == Some(
                path,
            ) && rest[k].inode == paths[path]) by {
                assert(rest[k] == updates[k]);
            }
        }
        if tree_alignment::without_current(paths, updates).dom().contains(path) {
            assert(tree_alignment::without_current(paths, rest).dom().contains(path));
            assert forall|k: int| 0 <= k < updates.len() implies !((#[trigger] updates[k]).current
                == Some(path) && updates[k].inode == paths[path]) by {
                if k < rest.len() {
                    assert(rest[k] == updates[k]);
                }
            }
        }
    }
}

proof fn taken_paths(
    paths: Map<Seq<char>, Inode>,
    updates: Seq<UpdateModel>,
    path: Seq<char>,
)
    ensures
        tree_alignment::with_desired(paths, updates).dom().contains(path)
            <==> paths.dom().contains(path) || exists|k: int|
            0 <= k < updates.len() && (#[trigger] updates[k]).desired == Some(path),
    decreases updates.len(),
{
    if updates.len() > 0 {
        let rest = updates.drop_last();
        taken_paths(paths, rest, path);
        assert(updates[updates.len() - 1] == updates.last());
        if exists|k: int| 0 <= k < rest.len() && (#[trigger] rest[k]).desired == Some(path) {
            let k = choose|k: int| 0 <= k < rest.len() && (#[trigger] rest[k]).desired == Some(path);
            assert(updates[k].desired == Some(path));
        }
        if exists|k: int| 0 <= k < updates.len() && (#[trigger] updates[k]).desired == Some(path) {
            let k = choose|k: int|
                0 <= k < updates.len() && (#[trigger] updates[k]).desired == Some(path);
            if k < rest.len() {
                assert(rest[k].desired == Some(path));
            }
        }
    }
}

proof fn occupancy_is_told(
    paths: Map<Seq<char>, Inode>,
    updates: Seq<UpdateModel>,
    k: int,
)
    requires
        0 <= k < updates.len(),
        updates[k].is_directory,
        updates[k].desired is Some,
    ensures
        tree_alignment::occupancy_operations(paths, updates).contains(
            AlignmentModel::DirectoryOccupancy {
                inode: updates[k].inode,
                empty: !tree_alignment::has_child(paths, updates[k].desired->0),
            },
        ),
    decreases updates.len(),
{
    let all = tree_alignment::occupancy_operations(paths, updates);
    let rest = tree_alignment::occupancy_operations(paths, updates.drop_last());
    if k == updates.len() - 1 {
        assert(all[rest.len() as int] == (AlignmentModel::DirectoryOccupancy {
            inode: updates[k].inode,
            empty: !tree_alignment::has_child(paths, updates[k].desired->0),
        }));
    } else {
        assert(updates.drop_last()[k] == updates[k]);
        occupancy_is_told(paths, updates.drop_last(), k);
        let told = AlignmentModel::DirectoryOccupancy {
            inode: updates[k].inode,
            empty: !tree_alignment::has_child(paths, updates[k].desired->0),
        };
        let m = rest.index_of(told);
        assert(all[m] == told);
    }
}

/// A journaled directory that stays is told empty exactly when no inode has a
/// path right below it once the alignment is carried out.
pub proof fn directories_are_told_empty(
    tables: PristineModel,
    ops: Seq<OpModel>,
    visibility: Visibility,
    aligned: AlignmentPlanModel,
    at: ExternalPosition,
    inode: Inode,
    position: Position,
    path: Seq<char>,
) -> (empty: bool)
    requires
        tables_agree(tables),
        forall|p: Seq<char>, n: Inode|
            #![trigger tables.tree.contains((p, n))]
            tables.tree.contains((p, n)) ==> tables.inode(p) == Some(n),
        tree_alignment::alignment(tables, ops, visibility) == Ok::<AlignmentPlanModel, TreeRefusal>(
            aligned,
        ),
        locates(tables, at, inode, position),
        exists|i: int| 0 <= i < ops.len() && (#[trigger] ops[i]).inode == at,
        tables.directories.contains(inode),
        path_of(carried(cached_paths(tables), aligned.operations), inode) == Some(path),
    ensures
        aligned.operations.contains(AlignmentModel::DirectoryOccupancy { inode, empty }),
        empty <==> forall|n: Inode|
            #![trigger path_of(carried(cached_paths(tables), aligned.operations), n)]
            path_of(carried(cached_paths(tables), aligned.operations), n) matches Some(child)
                ==> text::parent(child) != Some(path),
{
    let (plan, updates) = alignment_is_made(tables, ops, visibility, aligned);
    let after = carried(cached_paths(tables), aligned.operations);
    let own = word_laws::plan_speaks(tables, ops, visibility.changes@, plan, at);
    let i = choose|i: int| 0 <= i < ops.len() && (#[trigger] ops[i]).inode == at;
    assert(own.contains(ops[i]));
    let desired = pristine::first_value(plan, at)->0;
    let k = choose|k: int| 0 <= k < plan.len() && #[trigger] plan[k] == (at, desired);
    let update = updates[k];
    let found = choose|p: Position| #[trigger] locates(tables, plan[k].0, update.inode, p);
    tree_laws::locations_are_unique(tables, at, inode, position, at, update.inode, found);
    updates_are_carried(tables, updates, inode);
    assert(update.desired == Some(path));
    assert(update.is_directory);
    let paths = tree_alignment::final_paths(tables, updates);
    let start = tree_alignment::tree_map(tables.tree);
    let cleared = tree_alignment::without_current(start, updates);
    occupancy_is_told(paths, updates, k);
    let empty = !tree_alignment::has_child(paths, path);
    let told = AlignmentModel::DirectoryOccupancy { inode, empty };
    let tail = tree_alignment::occupancy_operations(paths, updates);
    let head = tree_alignment::update_operations(updates);
    let m = tail.index_of(told);
    assert(aligned.operations[head.len() + m] == told);
    assert forall|child: Seq<char>| #[trigger] paths.dom().contains(child) <==> exists|n: Inode|
        #![trigger path_of(after, n)]
        path_of(after, n) == Some(child) by {
        taken_paths(cleared, updates, child);
        left_paths(start, updates, child);
        tree_map_holds(tables.tree, child);
        if paths.dom().contains(child) {
            if cleared.dom().contains(child) {
                let n = start[child];
                assert(tables.tree.contains((child, n)));
                updates_are_carried(tables, updates, n);
                assert forall|j: int| 0 <= j < updates.len() implies (#[trigger] updates[j]).inode
                    != n by {
                    if updates[j].inode == n {
                        assert(updates[j].current == tables.path(n));
                    }
                }
                assert(path_of(after, n) == Some(child));
            } else {
                let j = choose|j: int|
                    0 <= j < updates.len() && (#[trigger] updates[j]).desired == Some(child);
                updates_are_carried(tables, updates, updates[j].inode);
                assert(path_of(after, updates[j].inode) == Some(child));
            }
        }
        if exists|n: Inode|
            #![trigger path_of(after, n)]
            path_of(after, n) == Some(child) {
            let n = choose|n: Inode|
                #![trigger path_of(after, n)]
                path_of(after, n) == Some(child);
            updates_are_carried(tables, updates, n);
            if exists|j: int| 0 <= j < updates.len() && (#[trigger] updates[j]).inode == n {
                let j = choose|j: int| 0 <= j < updates.len() && (#[trigger] updates[j]).inode == n;
                assert(updates[j].desired == Some(child));
            } else {
                assert(tables.path(n) == Some(child));
                assert(tables.tree.contains((child, n)));
                assert(tables.tree.contains((child, start[child])));
                assert(start[child] == n);
            }
        }
    }
    if !empty {
        let child = choose|child: Seq<char>| #[trigger]
            paths.dom().contains(child) && text::parent(child) == Some(path);
        assert(paths.dom().contains(child));
    } else {
        assert forall|n: Inode| #![trigger path_of(after, n)] path_of(after, n) matches Some(child)
            ==> text::parent(child) != Some(path) by {
            if let Some(child) = path_of(after, n) {
                assert(paths.dom().contains(child));
            }
        }
    }
    empty
}

} // verus!
