//! What a change and its journal entries have to do with each other.

use crate::deferred_tree::{ActionModel, OpModel, TreeRefusal};
use crate::pristine::PristineModel;
use crate::tree_alignment;
use crate::tree_collection;
use crate::tree_collection::{HunkModel, HunkPosition, Prerequisite};
use crate::types::{ContentHash, ExternalPosition, Inode, NodeId, Position};
use vstd::prelude::*;

verus! {

/// Whether a journal says that a change did this to an inode.
pub open spec fn says_of(
    ops: Seq<OpModel>,
    change: ContentHash,
    at: ExternalPosition,
    action: ActionModel,
) -> bool {
    exists|k: int|
        0 <= k < ops.len() && (#[trigger] ops[k]).change == change && ops[k].inode == at
            && ops[k].action == action
}

/// The stable position that a hunk of a change means: without a hash, one in
/// the change itself.
pub open spec fn meant(change: ContentHash, position: HunkPosition) -> ExternalPosition {
    ExternalPosition {
        change: if position.change is Some {
            position.change->0
        } else {
            change
        },
        pos: position.pos,
    }
}

/// Whether an inode was recorded at a stable position.
pub open spec fn stands_at(tables: PristineModel, inode: Inode, at: ExternalPosition) -> bool {
    tables.inode_position(inode) matches Some(position) && tables.external(position.change) == Some(
        at.change,
    ) && position.pos == at.pos
}

/// What a hunk does to an inode, given the paths that the change deletes:
/// additions, moves and restorations place it, deletions delete it, and so does
/// a rewrite of a path that the change deletes.
pub open spec fn does(
    change: ContentHash,
    hunk: HunkModel,
    deleted: Seq<Seq<char>>,
    at: ExternalPosition,
    action: ActionModel,
) -> bool {
    match hunk {
        HunkModel::FileAdd { start, path } | HunkModel::DirAdd { start, path } => at == (
        ExternalPosition { change, pos: start }) && action == (ActionModel::Place { path }),
        HunkModel::FileMove { inode, path } | HunkModel::FileUndel { inode, path }
        | HunkModel::DirUndel { inode, path } => at == meant(change, inode) && action == (
        ActionModel::Place { path }),
        HunkModel::FileDel { inode, .. } | HunkModel::DirDel { inode, .. } => at == meant(
            change,
            inode,
        ) && action is Delete,
        HunkModel::Rewrite { inode, path } => deleted.contains(path) && at == meant(change, inode)
            && action is Delete,
        HunkModel::Other => false,
    }
}

proof fn pushed_unique_says(ops: Seq<OpModel>, op: OpModel)
    ensures
        says_of(tree_collection::pushed_unique(ops, op), op.change, op.inode, op.action),
        ops.is_prefix_of(tree_collection::pushed_unique(ops, op)),
        forall|k: int|
            ops.len() <= k < tree_collection::pushed_unique(ops, op).len() ==> (
            #[trigger] tree_collection::pushed_unique(ops, op)[k]) == op,
{
    tree_alignment::event_from_is_first(ops, op, 0);
    let next = tree_collection::pushed_unique(ops, op);
    match tree_alignment::event_from(ops, op, 0) {
        Some(k) => {
            assert(next[k].change == op.change);
        },
        None => {
            assert(next[ops.len() as int] == op);
        },
    }
}

proof fn prefix_says(a: Seq<OpModel>, b: Seq<OpModel>)
    requires
        a.is_prefix_of(b),
    ensures
        forall|change: ContentHash, at: ExternalPosition, action: ActionModel| #[trigger]
            says_of(a, change, at, action) ==> says_of(b, change, at, action),
{
    assert forall|change: ContentHash, at: ExternalPosition, action: ActionModel| #[trigger]
        says_of(a, change, at, action) implies says_of(b, change, at, action) by {
        let k = choose|k: int|
            0 <= k < a.len() && (#[trigger] a[k]).change == change && a[k].inode == at
                && a[k].action == action;
        assert(b[k] == a[k]);
    }
}

/// Whether a hunk is about a directory.
pub open spec fn is_of_directory(hunk: HunkModel) -> bool {
    hunk is DirAdd || hunk is DirDel || hunk is DirUndel
}

/// Whether an operation tells where its inode stood before a hunk: an added
/// one nowhere, a deleted one at the path of the hunk, and a moved or restored
/// one where the tables have it.
pub open spec fn tells_where_from(tables: PristineModel, hunk: HunkModel, op: OpModel) -> bool {
    match hunk {
        HunkModel::FileAdd { .. } | HunkModel::DirAdd { .. } => op.baseline_path is None,
        HunkModel::FileDel { path, .. } | HunkModel::DirDel { path, .. } | HunkModel::Rewrite {
            path,
            ..
        } => op.baseline_path == Some(path),
        _ => exists|inode: Inode|
            {
                &&& tables.internal(op.inode.change) is Some
                &&& tables.position_inode(
                    Position { change: tables.internal(op.inode.change)->0, pos: op.inode.pos },
                ) == Some(inode)
                &&& op.baseline_path == #[trigger] tables.path(inode)
            },
    }
}

/// Whether an operation is what some hunk does, or the deletion of a path.
pub open spec fn is_due(
    tables: PristineModel,
    change: ContentHash,
    hunks: Seq<HunkModel>,
    deleted: Seq<Seq<char>>,
    op: OpModel,
) -> bool {
    op.change == change && ((exists|k: int|
        0 <= k < hunks.len() && does(change, #[trigger] hunks[k], deleted, op.inode, op.action)
            && op.directory == Some(is_of_directory(hunks[k])) && tells_where_from(
            tables,
            hunks[k],
            op,
        )) || (op.action is Delete && op.baseline_path is Some && deleted.contains(
        op.baseline_path->0,
    ) && (tables.inode(op.baseline_path->0) matches Some(inode) && op.directory == Some(
        tables.directories.contains(inode),
    ))))
}

proof fn collected_says(
    tables: PristineModel,
    change: ContentHash,
    hunks: Seq<HunkModel>,
    deleted: Seq<Seq<char>>,
    i: int,
    ops: Seq<OpModel>,
)
    requires
        0 <= i <= hunks.len(),
        forall|k: int| 0 <= k < ops.len() ==> is_due(tables, change, hunks, deleted, #[trigger] ops[k]),
    ensures
        tree_collection::collected_from(tables, change, hunks, deleted, i, ops) matches Ok(all)
            ==> {
            &&& ops.is_prefix_of(all)
            &&& forall|k: int| 0 <= k < all.len() ==> is_due(
                tables,
                change,
                hunks,
                deleted,
                #[trigger] all[k],
            )
            &&& forall|k: int, at: ExternalPosition, action: ActionModel|
                #![trigger does(change, hunks[k], deleted, at, action)]
                i <= k < hunks.len() && does(change, hunks[k], deleted, at, action) ==> says_of(
                    all,
                    change,
                    at,
                    action,
                )
        },
    decreases hunks.len() - i,
{
    if i < hunks.len() {
        match tree_collection::hunk_op(tables, change, hunks[i], deleted) {
            Err(_) => {},
            Ok(None) => {
                collected_says(tables, change, hunks, deleted, i + 1, ops);
            },
            Ok(Some(op)) => {
                let next = tree_collection::pushed_unique(ops, op);
                pushed_unique_says(ops, op);
                assert(does(change, hunks[i], deleted, op.inode, op.action));
                if let Ok((_, inode)) = tree_alignment::locate(tables, op.inode) {
                    assert(tables.path(inode) == tables.path(inode));
                    assert(tells_where_from(tables, hunks[i], op) || tables.path(inode)
                        != op.baseline_path);
                }
                assert(tells_where_from(tables, hunks[i], op));
                assert(is_due(tables, change, hunks, deleted, op));
                assert forall|k: int| 0 <= k < next.len() implies is_due(
                    tables,
                    change,
                    hunks,
                    deleted,
                    #[trigger] next[k],
                ) by {
                    if k < ops.len() {
                        assert(next[k] == ops[k]);
                    }
                }
                collected_says(tables, change, hunks, deleted, i + 1, next);
                if let Ok(all) = tree_collection::collected_from(
                    tables,
                    change,
                    hunks,
                    deleted,
                    i,
                    ops,
                ) {
                    prefix_says(next, all);
                    assert forall|k: int| 0 <= k < ops.len() implies ops[k] == all[k] by {
                        assert(next[k] == ops[k]);
                    }
                    assert(ops =~= all.take(ops.len() as int));
                }
            },
        }
    }
}

proof fn deletions_say(
    tables: PristineModel,
    change: ContentHash,
    hunks: Seq<HunkModel>,
    deleted: Seq<Seq<char>>,
    i: int,
    ops: Seq<OpModel>,
)
    requires
        0 <= i <= deleted.len(),
        forall|k: int| 0 <= k < ops.len() ==> is_due(tables, change, hunks, deleted, #[trigger] ops[k]),
    ensures
        tree_collection::deletions_from(tables, change, deleted, i, ops) matches Ok(all) ==> {
            &&& ops.is_prefix_of(all)
            &&& forall|k: int| 0 <= k < all.len() ==> is_due(
                tables,
                change,
                hunks,
                deleted,
                #[trigger] all[k],
            )
            &&& forall|d: int|
                i <= d < deleted.len() && tables.inode(#[trigger] deleted[d]) is Some
                    ==> tree_collection::deletes_path(all, deleted[d]) || says_of(
                    all,
                    change,
                    tree_collection::stable_position(tables, tables.inode(deleted[d])->0)->Ok_0,
                    ActionModel::Delete,
                )
        },
    decreases deleted.len() - i,
{
    if i < deleted.len() {
        let path = deleted[i];
        if tree_collection::deletes_path(ops, path) {
            deletions_say(tables, change, hunks, deleted, i + 1, ops);
            if let Ok(all) = tree_collection::deletions_from(tables, change, deleted, i, ops) {
                let k = choose|k: int|
                    0 <= k < ops.len() && (#[trigger] ops[k]).action is Delete
                        && ops[k].baseline_path == Some(path);
                assert(all[k] == ops[k]);
            }
        } else if let Ok(next) = tree_collection::with_deleted_path(tables, change, path, ops) {
            if let Some(inode) = tables.inode(path) {
                let op = OpModel {
                    change,
                    inode: tree_collection::stable_position(tables, inode)->Ok_0,
                    baseline_path: Some(path),
                    directory: Some(tables.is_directory(inode)),
                    action: ActionModel::Delete,
                };
                pushed_unique_says(ops, op);
                assert(deleted.contains(deleted[i]));
                assert forall|k: int| 0 <= k < next.len() implies is_due(
                    tables,
                    change,
                    hunks,
                    deleted,
                    #[trigger] next[k],
                ) by {
                    if k < ops.len() {
                        assert(next[k] == ops[k]);
                    }
                }
            }
            deletions_say(tables, change, hunks, deleted, i + 1, next);
            if let Ok(all) = tree_collection::deletions_from(tables, change, deleted, i, ops) {
                prefix_says(next, all);
                assert forall|k: int| 0 <= k < ops.len() implies ops[k] == all[k] by {
                    assert(next[k] == ops[k]);
                }
                assert(ops =~= all.take(ops.len() as int));
            }
        }
    }
}

/// The journal entries of a change are what its hunks do, every one of them,
/// and the deletions of the paths that it deletes, each with its kind and the
/// path that the inode had; nothing else is entered.
pub proof fn hunks_become_operations(
    tables: PristineModel,
    change: ContentHash,
    hunks: Seq<HunkModel>,
    deleted: Seq<Seq<char>>,
    ops: Seq<OpModel>,
)
    requires
        tree_collection::tree_ops(tables, change, hunks, deleted) == Ok::<
            Seq<OpModel>,
            TreeRefusal,
        >(ops),
    ensures
        forall|k: int, at: ExternalPosition, action: ActionModel|
            #![trigger does(change, hunks[k], deleted, at, action)]
            0 <= k < hunks.len() && does(change, hunks[k], deleted, at, action) ==> says_of(
                ops,
                change,
                at,
                action,
            ),
        forall|d: int|
            0 <= d < deleted.len() && tables.inode(#[trigger] deleted[d]) is Some ==> exists|k: int|
                0 <= k < ops.len() && (#[trigger] ops[k]).action is Delete && (
                ops[k].baseline_path == Some(deleted[d]) || stands_at(
                    tables,
                    tables.inode(deleted[d])->0,
                    ops[k].inode,
                )),
        forall|k: int|
            0 <= k < ops.len() ==> is_due(tables, change, hunks, deleted, #[trigger] ops[k]),
{
    collected_says(tables, change, hunks, deleted, 0, Seq::empty());
    let first = tree_collection::collected_from(
        tables,
        change,
        hunks,
        deleted,
        0,
        Seq::empty(),
    )->Ok_0;
    deletions_say(tables, change, hunks, deleted, 0, first);
    prefix_says(first, ops);
    assert forall|d: int|
        0 <= d < deleted.len() && tables.inode(#[trigger] deleted[d]) is Some implies exists|k: int|
        0 <= k < ops.len() && (#[trigger] ops[k]).action is Delete && (ops[k].baseline_path == Some(
            deleted[d],
        ) || stands_at(tables, tables.inode(deleted[d])->0, ops[k].inode)) by {
        let inode = tables.inode(deleted[d])->0;
        if !tree_collection::deletes_path(ops, deleted[d]) {
            let at = tree_collection::stable_position(tables, inode)->Ok_0;
            assert(says_of(ops, change, at, ActionModel::Delete));
            let k = choose|k: int|
                0 <= k < ops.len() && (#[trigger] ops[k]).change == change && ops[k].inode == at
                    && ops[k].action == ActionModel::Delete;
            located_or_refused(tables, change, deleted, 0, first, d);
            assert(ops[k].action is Delete);
        } else {
            let k = choose|k: int|
                0 <= k < ops.len() && (#[trigger] ops[k]).action is Delete
                    && ops[k].baseline_path == Some(deleted[d]);
            assert(ops[k].action is Delete);
        }
    }
    assert forall|k: int| 0 <= k < ops.len() implies is_due(
        tables,
        change,
        hunks,
        deleted,
        #[trigger] ops[k],
    ) by {}
}

proof fn located_or_refused(
    tables: PristineModel,
    change: ContentHash,
    deleted: Seq<Seq<char>>,
    i: int,
    ops: Seq<OpModel>,
    d: int,
)
    requires
        0 <= i <= d < deleted.len(),
        tables.inode(deleted[d]) is Some,
        tree_collection::deletions_from(tables, change, deleted, i, ops) is Ok,
        !tree_collection::deletes_path(
            tree_collection::deletions_from(tables, change, deleted, i, ops)->Ok_0,
            deleted[d],
        ),
    ensures
        tree_collection::stable_position(tables, tables.inode(deleted[d])->0) is Ok,
    decreases d - i,
{
    let all = tree_collection::deletions_from(tables, change, deleted, i, ops)->Ok_0;
    if tree_collection::deletes_path(ops, deleted[i]) {
        if i == d {
            grows(tables, change, deleted, i, ops);
            let k = choose|k: int|
                0 <= k < ops.len() && (#[trigger] ops[k]).action is Delete
                    && ops[k].baseline_path == Some(deleted[d]);
            assert(all[k] == ops[k]);
        } else {
            located_or_refused(tables, change, deleted, i + 1, ops, d);
        }
    } else if i < d {
        let next = tree_collection::with_deleted_path(tables, change, deleted[i], ops)->Ok_0;
        located_or_refused(tables, change, deleted, i + 1, next, d);
    }
}

proof fn grows(
    tables: PristineModel,
    change: ContentHash,
    deleted: Seq<Seq<char>>,
    i: int,
    ops: Seq<OpModel>,
)
    requires
        0 <= i,
    ensures
        tree_collection::deletions_from(tables, change, deleted, i, ops) matches Ok(all)
            ==> ops.is_prefix_of(all),
    decreases deleted.len() - i,
{
    if i < deleted.len() {
        if tree_collection::deletes_path(ops, deleted[i]) {
            grows(tables, change, deleted, i + 1, ops);
        } else if let Ok(next) = tree_collection::with_deleted_path(
            tables,
            change,
            deleted[i],
            ops,
        ) {
            grows(tables, change, deleted, i + 1, next);
            if let Ok(all) = tree_collection::deletions_from(tables, change, deleted, i, ops) {
                assert forall|k: int| 0 <= k < ops.len() implies ops[k] == all[k] by {
                    assert(next[k] == ops[k]);
                }
                assert(ops =~= all.take(ops.len() as int));
            }
        }
    }
}

proof fn merged_one_says(journal: Seq<OpModel>, op: OpModel)
    ensures
        ({
            let next = tree_alignment::merged_one(journal, op);
            &&& next.len() >= journal.len()
            &&& says_of(next, op.change, op.inode, op.action)
            &&& forall|k: int|
                0 <= k < journal.len() ==> (#[trigger] next[k]).change == journal[k].change
                    && next[k].inode == journal[k].inode && next[k].action == journal[k].action && (
                journal[k].baseline_path is Some ==> next[k].baseline_path
                    == journal[k].baseline_path) && (journal[k].directory is Some
                    ==> next[k].directory == journal[k].directory)
            &&& forall|k: int|
                journal.len() <= k < next.len() ==> (#[trigger] next[k]) == op && !says_of(
                    journal,
                    op.change,
                    op.inode,
                    op.action,
                )
        }),
{
    tree_alignment::event_from_is_first(journal, op, 0);
    let next = tree_alignment::merged_one(journal, op);
    match tree_alignment::event_from(journal, op, 0) {
        Some(k) => {
            assert(next[k].change == op.change);
        },
        None => {
            assert(next[journal.len() as int] == op);
            if says_of(journal, op.change, op.inode, op.action) {
                let k = choose|k: int|
                    0 <= k < journal.len() && (#[trigger] journal[k]).change == op.change
                        && journal[k].inode == op.inode && journal[k].action == op.action;
                assert(tree_alignment::same_event(journal[k], op));
            }
        },
    }
}

/// Merging operations into a journal keeps all that it said, in its order and
/// with what it knew of each event, and adds every new event once, at the end.
pub proof fn merging_keeps_and_adds(journal: Seq<OpModel>, ops: Seq<OpModel>, i: int)
    requires
        0 <= i <= ops.len(),
    ensures
        ({
            let all = tree_alignment::merged_from(journal, ops, i);
            &&& all.len() >= journal.len()
            &&& forall|k: int|
                0 <= k < journal.len() ==> (#[trigger] all[k]).change == journal[k].change
                    && all[k].inode == journal[k].inode && all[k].action == journal[k].action && (
                journal[k].baseline_path is Some ==> all[k].baseline_path
                    == journal[k].baseline_path) && (journal[k].directory is Some
                    ==> all[k].directory == journal[k].directory)
            &&& forall|j: int|
                i <= j < ops.len() ==> says_of(
                    all,
                    (#[trigger] ops[j]).change,
                    ops[j].inode,
                    ops[j].action,
                )
            &&& forall|k: int|
                journal.len() <= k < all.len() ==> !says_of(
                    journal,
                    (#[trigger] all[k]).change,
                    all[k].inode,
                    all[k].action,
                ) && exists|j: int|
                    i <= j < ops.len() && (#[trigger] ops[j]).change == all[k].change
                        && ops[j].inode == all[k].inode && ops[j].action == all[k].action
        }),
    decreases ops.len() - i,
{
    if i < ops.len() {
        let next = tree_alignment::merged_one(journal, ops[i]);
        merged_one_says(journal, ops[i]);
        merging_keeps_and_adds(next, ops, i + 1);
        let all = tree_alignment::merged_from(journal, ops, i);
        assert forall|k: int| 0 <= k < journal.len() implies (#[trigger] all[k]).change
            == journal[k].change && all[k].inode == journal[k].inode && all[k].action
            == journal[k].action && (journal[k].baseline_path is Some ==> all[k].baseline_path
            == journal[k].baseline_path) && (journal[k].directory is Some ==> all[k].directory
            == journal[k].directory) by {
            assert(next[k].change == journal[k].change);
        }
        let m = choose|m: int|
            0 <= m < next.len() && (#[trigger] next[m]).change == ops[i].change && next[m].inode
                == ops[i].inode && next[m].action == ops[i].action;
        assert(all[m].change == next[m].change);
        assert forall|k: int| journal.len() <= k < all.len() implies !says_of(
            journal,
            (#[trigger] all[k]).change,
            all[k].inode,
            all[k].action,
        ) && exists|j: int|
            i <= j < ops.len() && (#[trigger] ops[j]).change == all[k].change && ops[j].inode
                == all[k].inode && ops[j].action == all[k].action by {
            if k < next.len() {
                assert(next[k] == ops[i]);
                assert(all[k].change == next[k].change);
            } else {
                if says_of(journal, all[k].change, all[k].inode, all[k].action) {
                    let n = choose|n: int|
                        0 <= n < journal.len() && (#[trigger] journal[n]).change == all[k].change
                            && journal[n].inode == all[k].inode && journal[n].action
                            == all[k].action;
                    assert(next[n].change == journal[n].change);
                    assert(says_of(next, all[k].change, all[k].inode, all[k].action));
                }
            }
        }
    }
}

/// A journal that need not be written is not changed by merging.
pub proof fn unchanged_journals_are_not_written(journal: Seq<OpModel>, ops: Seq<OpModel>, i: int)
    requires
        0 <= i <= ops.len(),
        !tree_alignment::merge_counts_from(journal, ops, i),
    ensures
        tree_alignment::merged_from(journal, ops, i) == journal,
    decreases ops.len() - i,
{
    if i < ops.len() {
        tree_alignment::event_from_is_first(journal, ops[i], 0);
        assert(tree_alignment::merged_one(journal, ops[i]) =~= journal);
        unchanged_journals_are_not_written(journal, ops, i + 1);
    }
}

/// Whether an inode is what a hunk needs before it can be applied: an added
/// entry takes the inode already at its position, or else, where paths may be
/// taken over, the one at its path that has no position yet, or else a new one;
/// a restored entry takes the inode recorded at its position.
pub open spec fn needs(
    tables: PristineModel,
    id: NodeId,
    change: ContentHash,
    hunk: HunkModel,
    preserve: bool,
    need: Prerequisite,
) -> bool {
    match hunk {
        HunkModel::FileAdd { start, path } | HunkModel::DirAdd { start, path } => {
            let at = Position { change: id, pos: start };
            &&& need.position == at
            &&& need.is_directory == is_of_directory(hunk)
            &&& tables.position_inode(at) is Some ==> need.inode == tables.position_inode(at)
            &&& tables.position_inode(at) is None && preserve ==> need.inode is None
            &&& tables.position_inode(at) is None && !preserve ==> need.inode == tables.inode(path)
                && (need.inode is Some ==> tables.inode_position(need.inode->0) is None)
        },
        HunkModel::FileUndel { inode, .. } | HunkModel::DirUndel { inode, .. } => {
            &&& tables.internal(meant(change, inode).change) == Some(need.position.change)
            &&& need.position.pos == meant(change, inode).pos
            &&& need.is_directory == is_of_directory(hunk)
            &&& need.inode is Some && tables.position_inode(need.position) == need.inode
        },
        _ => false,
    }
}

/// Whether something that some of these hunks need is among what was found.
pub open spec fn is_met(
    tables: PristineModel,
    id: NodeId,
    change: ContentHash,
    hunk: HunkModel,
    preserve: bool,
    found: Seq<Prerequisite>,
) -> bool {
    exists|k: int|
        0 <= k < found.len() && needs(tables, id, change, hunk, preserve, #[trigger] found[k])
}

/// Whether something is needed by one of the hunks.
pub open spec fn is_needed(
    tables: PristineModel,
    id: NodeId,
    change: ContentHash,
    hunks: Seq<HunkModel>,
    preserve: bool,
    need: Prerequisite,
) -> bool {
    exists|h: int|
        0 <= h < hunks.len() && needs(tables, id, change, #[trigger] hunks[h], preserve, need)
}

proof fn additions_are_met(
    tables: PristineModel,
    id: NodeId,
    change: ContentHash,
    hunks: Seq<HunkModel>,
    preserve: bool,
    i: int,
    found: Seq<Prerequisite>,
)
    requires
        0 <= i <= hunks.len(),
        forall|k: int|
            0 <= k < found.len() ==> is_needed(
                tables,
                id,
                change,
                hunks,
                preserve,
                #[trigger] found[k],
            ),
    ensures
        tree_collection::addition_inodes(tables, id, hunks, preserve, i, found) matches Ok(all)
            ==> {
            &&& found.is_prefix_of(all)
            &&& forall|k: int|
                0 <= k < all.len() ==> is_needed(
                    tables,
                    id,
                    change,
                    hunks,
                    preserve,
                    #[trigger] all[k],
                )
            &&& forall|h: int|
                i <= h < hunks.len() && (#[trigger] hunks[h] is FileAdd || hunks[h] is DirAdd)
                    ==> is_met(tables, id, change, hunks[h], preserve, all)
        },
    decreases hunks.len() - i,
{
    if i < hunks.len() {
        match tree_collection::addition(hunks[i]) {
            None => {
                additions_are_met(tables, id, change, hunks, preserve, i + 1, found);
            },
            Some((start, path, is_directory)) => {
                let position = Position { change: id, pos: start };
                if let Ok(inode) = tree_collection::inode_for_addition(
                    tables,
                    position,
                    path,
                    preserve,
                ) {
                    let need = Prerequisite { inode, position, is_directory };
                    let next = found.push(need);
                    assert(needs(tables, id, change, hunks[i], preserve, need));
                    assert forall|k: int| 0 <= k < next.len() implies is_needed(
                        tables,
                        id,
                        change,
                        hunks,
                        preserve,
                        #[trigger] next[k],
                    ) by {
                        if k < found.len() {
                            assert(next[k] == found[k]);
                        }
                    }
                    additions_are_met(tables, id, change, hunks, preserve, i + 1, next);
                    if let Ok(all) = tree_collection::addition_inodes(
                        tables,
                        id,
                        hunks,
                        preserve,
                        i,
                        found,
                    ) {
                        assert(all[found.len() as int] == next[found.len() as int]);
                        assert(is_met(tables, id, change, hunks[i], preserve, all));
                        assert forall|k: int| 0 <= k < found.len() implies found[k] == all[k] by {
                            assert(next[k] == found[k]);
                        }
                        assert(found =~= all.take(found.len() as int));
                    }
                }
            },
        }
    }
}

proof fn restorations_are_met(
    tables: PristineModel,
    id: NodeId,
    change: ContentHash,
    hunks: Seq<HunkModel>,
    preserve: bool,
    i: int,
    found: Seq<Prerequisite>,
)
    requires
        0 <= i <= hunks.len(),
        forall|k: int|
            0 <= k < found.len() ==> is_needed(
                tables,
                id,
                change,
                hunks,
                preserve,
                #[trigger] found[k],
            ),
    ensures
        tree_collection::restoration_inodes(tables, change, hunks, i, found) matches Ok(all) ==> {
            &&& found.is_prefix_of(all)
            &&& forall|k: int|
                0 <= k < all.len() ==> is_needed(
                    tables,
                    id,
                    change,
                    hunks,
                    preserve,
                    #[trigger] all[k],
                )
            &&& forall|h: int|
                i <= h < hunks.len() && (#[trigger] hunks[h] is FileUndel || hunks[h] is DirUndel)
                    ==> is_met(tables, id, change, hunks[h], preserve, all)
        },
    decreases hunks.len() - i,
{
    if i < hunks.len() {
        match tree_collection::restoration(hunks[i]) {
            None => {
                restorations_are_met(tables, id, change, hunks, preserve, i + 1, found);
            },
            Some((place, is_directory)) => {
                if let Ok(at) = tree_collection::externalized(change, place) {
                    if let Ok((position, inode)) = tree_alignment::locate(tables, at) {
                        let need = Prerequisite { inode: Some(inode), position, is_directory };
                        let next = found.push(need);
                        assert(needs(tables, id, change, hunks[i], preserve, need));
                        assert forall|k: int| 0 <= k < next.len() implies is_needed(
                            tables,
                            id,
                            change,
                            hunks,
                            preserve,
                            #[trigger] next[k],
                        ) by {
                            if k < found.len() {
                                assert(next[k] == found[k]);
                            }
                        }
                        restorations_are_met(tables, id, change, hunks, preserve, i + 1, next);
                        if let Ok(all) = tree_collection::restoration_inodes(
                            tables,
                            change,
                            hunks,
                            i,
                            found,
                        ) {
                            assert(all[found.len() as int] == next[found.len() as int]);
                            assert(is_met(tables, id, change, hunks[i], preserve, all));
                            assert forall|k: int| 0 <= k < found.len() implies found[k]
                                == all[k] by {
                                assert(next[k] == found[k]);
                            }
                            assert(found =~= all.take(found.len() as int));
                        }
                    }
                }
            },
        }
    }
}

/// A change that is ready to be applied has an inode, or the word that a new one
/// is due, for every entry that it adds or restores, and none for anything else.
pub proof fn prepared_changes_have_their_inodes(
    tables: PristineModel,
    id: NodeId,
    change: ContentHash,
    hunks: Seq<HunkModel>,
    deleted: Seq<Seq<char>>,
    preserve: bool,
)
    ensures
        tree_collection::prepared(tables, id, change, hunks, deleted, preserve) matches Ok(made)
            ==> {
            &&& tree_collection::tree_ops(tables, change, hunks, deleted) == Ok::<
                Seq<OpModel>,
                TreeRefusal,
            >(made.0)
            &&& forall|k: int|
                0 <= k < made.1.len() ==> is_needed(
                    tables,
                    id,
                    change,
                    hunks,
                    preserve,
                    #[trigger] made.1[k],
                )
            &&& forall|h: int|
                0 <= h < hunks.len() && (#[trigger] hunks[h] is FileAdd || hunks[h] is DirAdd
                    || hunks[h] is FileUndel || hunks[h] is DirUndel) ==> is_met(
                    tables,
                    id,
                    change,
                    hunks[h],
                    preserve,
                    made.1,
                )
        },
{
    let first = tree_collection::addition_inodes(tables, id, hunks, preserve, 0, Seq::empty());
    additions_are_met(tables, id, change, hunks, preserve, 0, Seq::empty());
    if let Ok(found) = first {
        restorations_are_met(tables, id, change, hunks, preserve, 0, found);
        if let Ok(made) = tree_collection::prepared(tables, id, change, hunks, deleted, preserve) {
            assert forall|h: int|
                0 <= h < hunks.len() && (#[trigger] hunks[h] is FileAdd
                    || hunks[h] is DirAdd) implies is_met(
                tables,
                id,
                change,
                hunks[h],
                preserve,
                made.1,
            ) by {
                assert(is_met(tables, id, change, hunks[h], preserve, found));
                let k = choose|k: int|
                    0 <= k < found.len() && needs(
                        tables,
                        id,
                        change,
                        hunks[h],
                        preserve,
                        #[trigger] found[k],
                    );
                assert(made.1[k] == found[k]);
            }
        }
    }
}

/// Whether an operation is about something that is known: its change is
/// registered, and its inode is recorded or added by one of the hunks.
pub open spec fn is_grounded(
    tables: PristineModel,
    id: NodeId,
    hunks: Seq<HunkModel>,
    op: OpModel,
) -> bool {
    tables.internal(op.inode.change) matches Some(change) && (tables.position_inode(
        Position { change, pos: op.inode.pos },
    ) is Some || (change == id && exists|h: int|
        0 <= h < hunks.len() && starts_at(#[trigger] hunks[h], op.inode.pos)))
}

/// Whether a hunk adds an entry that starts at a place.
pub open spec fn starts_at(hunk: HunkModel, pos: u64) -> bool {
    match hunk {
        HunkModel::FileAdd { start, .. } | HunkModel::DirAdd { start, .. } => start == pos,
        _ => false,
    }
}

/// Whether a hunk cannot be applied: it adds a path that another recorded inode
/// has, or restores the root or an inode that is not recorded.
pub open spec fn is_blocked(
    tables: PristineModel,
    id: NodeId,
    change: ContentHash,
    hunk: HunkModel,
    preserve: bool,
) -> bool {
    match hunk {
        HunkModel::FileAdd { start, path } | HunkModel::DirAdd { start, path } => !preserve
            && tables.position_inode(Position { change: id, pos: start }) is None && tables.inode(
            path,
        ) is Some && tables.inode_position(tables.inode(path)->0) is Some,
        HunkModel::FileUndel { inode, .. } | HunkModel::DirUndel { inode, .. } => inode.change
            == Some(ContentHash { hi: 0, lo: 0 }) || tables.internal(
            meant(change, inode).change,
        ) is None || tables.position_inode(
            Position {
                change: tables.internal(meant(change, inode).change)->0,
                pos: meant(change, inode).pos,
            },
        ) is None,
        _ => false,
    }
}

proof fn grounds_are_checked(
    tables: PristineModel,
    id: NodeId,
    hunks: Seq<HunkModel>,
    ops: Seq<OpModel>,
    i: int,
)
    requires
        0 <= i <= ops.len(),
    ensures
        tree_collection::check_ops(tables, id, hunks, ops, i) is Ok <==> forall|k: int|
            i <= k < ops.len() ==> is_grounded(tables, id, hunks, #[trigger] ops[k]),
    decreases ops.len() - i,
{
    if i < ops.len() {
        grounds_are_checked(tables, id, hunks, ops, i + 1);
        if let Some(change) = tables.internal(ops[i].inode.change) {
            let position = Position { change, pos: ops[i].inode.pos };
            let adds = tree_collection::adds_at(hunks, id, position);
            if is_grounded(tables, id, hunks, ops[i]) && tables.position_inode(position) is None {
                let h = choose|h: int|
                    0 <= h < hunks.len() && starts_at(#[trigger] hunks[h], ops[i].inode.pos);
                assert(tree_collection::addition(hunks[h]) is Some);
                assert(adds);
            }
            if adds {
                let h = choose|h: int|
                    0 <= h < hunks.len() && (#[trigger] tree_collection::addition(
                        hunks[h],
                    ) matches Some(entry) && position == Position { change: id, pos: entry.0 });
                assert(starts_at(hunks[h], ops[i].inode.pos));
                assert(is_grounded(tables, id, hunks, ops[i]));
            }
        }
    }
}

proof fn blocks_are_found(
    tables: PristineModel,
    id: NodeId,
    change: ContentHash,
    hunks: Seq<HunkModel>,
    preserve: bool,
    i: int,
    found: Seq<Prerequisite>,
    restored: Seq<Prerequisite>,
)
    requires
        0 <= i <= hunks.len(),
    ensures
        tree_collection::addition_inodes(tables, id, hunks, preserve, i, found) is Ok
            && tree_collection::restoration_inodes(tables, change, hunks, i, restored) is Ok
            <==> forall|h: int|
            i <= h < hunks.len() ==> !is_blocked(
                tables,
                id,
                change,
                #[trigger] hunks[h],
                preserve,
            ),
        forall|other: Seq<Prerequisite>| #[trigger]
            tree_collection::restoration_inodes(tables, change, hunks, i, other) is Ok
                == tree_collection::restoration_inodes(tables, change, hunks, i, restored) is Ok,
    decreases hunks.len() - i,
{
    if i < hunks.len() {
        let next = match tree_collection::addition(hunks[i]) {
            Some((start, path, is_directory)) => {
                let position = Position { change: id, pos: start };
                let inode = tree_collection::inode_for_addition(
                    tables,
                    position,
                    path,
                    preserve,
                )->Ok_0;
                found.push(Prerequisite { inode, position, is_directory })
            },
            None => found,
        };
        let after = match tree_collection::restoration(hunks[i]) {
            Some((place, is_directory)) => {
                let at = tree_collection::externalized(change, place)->Ok_0;
                let (position, inode) = tree_alignment::locate(tables, at)->Ok_0;
                Prerequisite { inode: Some(inode), position, is_directory }
            },
            None => arbitrary(),
        };
        let more = restored.push(after);
        blocks_are_found(tables, id, change, hunks, preserve, i + 1, next, restored);
        blocks_are_found(tables, id, change, hunks, preserve, i + 1, next, more);
        assert forall|other: Seq<Prerequisite>| #[trigger]
            tree_collection::restoration_inodes(tables, change, hunks, i, other) is Ok
                == tree_collection::restoration_inodes(tables, change, hunks, i, restored) is Ok by {
            blocks_are_found(tables, id, change, hunks, preserve, i + 1, next, other.push(after));
            blocks_are_found(tables, id, change, hunks, preserve, i + 1, next, other);
        }
        let rest = forall|h: int|
            i + 1 <= h < hunks.len() ==> !is_blocked(
                tables,
                id,
                change,
                #[trigger] hunks[h],
                preserve,
            );
        let own = is_blocked(tables, id, change, hunks[i], preserve);
        assert((tree_collection::addition_inodes(tables, id, hunks, preserve, i, found) is Ok
            && tree_collection::restoration_inodes(tables, change, hunks, i, restored) is Ok) == (
        !own && rest));
    }
}

/// A change can be prepared exactly when its journal entries can be made and
/// are about what is known, and none of its hunks is blocked.
pub proof fn changes_are_prepared_unless_blocked(
    tables: PristineModel,
    id: NodeId,
    change: ContentHash,
    hunks: Seq<HunkModel>,
    deleted: Seq<Seq<char>>,
    preserve: bool,
)
    ensures
        tree_collection::prepared(tables, id, change, hunks, deleted, preserve) is Ok <==> {
            &&& tree_collection::tree_ops(tables, change, hunks, deleted) is Ok
            &&& forall|k: int|
                0 <= k < tree_collection::tree_ops(tables, change, hunks, deleted)->Ok_0.len()
                    ==> is_grounded(
                    tables,
                    id,
                    hunks,
                    #[trigger] tree_collection::tree_ops(tables, change, hunks, deleted)->Ok_0[k],
                )
            &&& forall|h: int|
                0 <= h < hunks.len() ==> !is_blocked(
                    tables,
                    id,
                    change,
                    #[trigger] hunks[h],
                    preserve,
                )
        },
{
    if let Ok(ops) = tree_collection::tree_ops(tables, change, hunks, deleted) {
        grounds_are_checked(tables, id, hunks, ops, 0);
        let first = tree_collection::addition_inodes(tables, id, hunks, preserve, 0, Seq::empty());
        blocks_are_found(tables, id, change, hunks, preserve, 0, Seq::empty(), Seq::empty());
        if let Ok(found) = first {
            assert(tree_collection::restoration_inodes(tables, change, hunks, 0, found) is Ok
                == tree_collection::restoration_inodes(tables, change, hunks, 0, Seq::empty()) is Ok);
        }
    }
}

} // verus!
