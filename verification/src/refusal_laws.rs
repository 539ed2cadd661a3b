//! When a journal can be projected.

use crate::deferred_tree;
use crate::deferred_tree::{DesiredModel, OpModel, ProjectionModel, TreeRefusal};
use crate::planner_laws;
use crate::pristine;
use crate::pristine::{PristineModel, Visibility};
use crate::tree_alignment;
use crate::tree_laws;
use crate::tree_laws::{locates, tables_agree};
use crate::types::{ContentHash, ExternalPosition, Inode, NodeId, Position};
use crate::word_laws;
use crate::word_laws::{descends, hashes_of};
use vstd::prelude::*;

verus! {

proof fn kinds_are_agreed(
    ops: Seq<OpModel>,
    i: int,
    kind: Option<bool>,
    at: ExternalPosition,
)
    requires
        0 <= i <= ops.len(),
    ensures
        deferred_tree::agreed_kind(ops, i, kind, at) matches Ok(told) ==> (kind is Some ==> told
            == kind) && forall|k: int|
            i <= k < ops.len() && (#[trigger] ops[k]).directory is Some ==> told
                == ops[k].directory,
        deferred_tree::agreed_kind(ops, i, kind, at) matches Ok(told) ==> told is Some ==> told
            == kind || exists|k: int| i <= k < ops.len() && (#[trigger] ops[k]).directory == told,
        (kind is Some ==> forall|k: int|
            i <= k < ops.len() && (#[trigger] ops[k]).directory is Some ==> ops[k].directory
                == kind) && (forall|j: int, k: int|
            #![trigger ops[j], ops[k]]
            i <= j < ops.len() && i <= k < ops.len() && ops[j].directory is Some && ops[k].directory
                is Some ==> ops[j].directory == ops[k].directory) ==> deferred_tree::agreed_kind(
            ops,
            i,
            kind,
            at,
        ) is Ok,
    decreases ops.len() - i,
{
    if i < ops.len() {
        let next = if ops[i].directory is Some {
            ops[i].directory
        } else {
            kind
        };
        kinds_are_agreed(ops, i + 1, next, at);
    }
}

/// A journal is projected only over tables that know all it speaks of: every
/// visible change has a hash, and every inode that it speaks of was recorded,
/// as the kind that it says.
pub proof fn projected_journals_are_sound(
    tables: PristineModel,
    ops: Seq<OpModel>,
    visibility: Visibility,
    tree: ProjectionModel,
    i: int,
    k: int,
) -> (found: (Inode, Position))
    requires
        tables_agree(tables),
        tables.dependency_first(),
        deferred_tree::projected_tree(tables, ops, visibility) == Ok::<
            ProjectionModel,
            TreeRefusal,
        >(tree),
        0 <= i < ops.len(),
    ensures
        0 <= k < visibility.changes@.len() ==> tables.external(visibility.changes@[k]) is Some,
        locates(tables, ops[i].inode, found.0, found.1),
        ops[i].directory matches Some(directory) ==> directory == tables.directories.contains(
            found.0,
        ),
{
    let (plan, positions) = tree_laws::tree_is_made(tables, ops, visibility, tree, true);
    let at = ops[i].inode;
    let own = word_laws::plan_speaks(tables, ops, visibility.changes@, plan, at);
    assert(own.contains(ops[i]));
    let m = own.index_of(ops[i]);
    assert(own[m] == ops[i]);
    assert(positions.contains(at));
    let n = positions.index_of(at);
    let (state, resolved) = tree_laws::nth(tables, plan, positions, n);
    kinds_are_agreed(own, 0, None, at);
    let desired = pristine::first_value(plan, at)->0;
    assert(state == Some(desired));
    assert(own[m].directory is Some ==> desired.directory == own[m].directory);
    let cache = deferred_tree::cached_from(tables, 0, Seq::empty());
    assert(deferred_tree::resolve(
        tables,
        cache,
        pristine::first_value(plan, positions[n]),
        positions[n],
    ) is Ok);
    deferred_tree::cached_positions(cache).index_of_first_ensures(at);
    (resolved.inode, resolved.position)
}

/// Whether tables hold the dependencies of every change that they register.
pub open spec fn is_closed(tables: PristineModel) -> bool {
    forall|i: int|
        0 <= i < tables.changes.len() ==> {
            &&& (#[trigger] tables.changes[i]).dependencies is Some
            &&& forall|k: int|
                0 <= k < (tables.changes[i].dependencies->0).len() ==> tables.row(
                    #[trigger] tables.changes[i].dependencies->0[k],
                ) is Some
        }
}

proof fn search_succeeds(tables: PristineModel, i: int, k: int, ancestor: ContentHash)
    requires
        is_closed(tables),
        tables.dependency_first(),
        0 <= i < tables.changes.len(),
        0 <= k,
    ensures
        deferred_tree::reaches(tables, i, k, ancestor) is Ok,
    decreases
            i,
            (match tables.changes[i].dependencies {
                Some(list) => list.len() - k,
                None => 0int,
            }),
{
    let list = tables.changes[i].dependencies->0;
    assert(tables.changes[i].dependencies is Some);
    if k < list.len() && list[k] != ancestor {
        assert(tables.row(tables.changes[i].dependencies->0[k]) is Some);
        tables.hashes().index_of_first_ensures(list[k]);
        let j = tables.row(list[k])->0;
        if 0 <= j < i {
            search_succeeds(tables, j, 0, ancestor);
            search_succeeds(tables, i, k + 1, ancestor);
        }
    }
}

proof fn dependence_is_decided(tables: PristineModel, change: ContentHash, other: ContentHash)
    requires
        is_closed(tables),
        tables.dependency_first(),
        tables.row(change) is Some,
    ensures
        deferred_tree::depends_on(tables, change, other) is Ok,
{
    tables.hashes().index_of_first_ensures(change);
    search_succeeds(tables, tables.row(change)->0, 0, other);
}

/// Whether the tables register every change that operations are of.
spec fn are_registered(tables: PristineModel, ops: Seq<OpModel>) -> bool {
    forall|k: int| 0 <= k < ops.len() ==> tables.row((#[trigger] ops[k]).change) is Some
}

proof fn superseding_is_decided(tables: PristineModel, ops: Seq<OpModel>, i: int, j: int)
    requires
        is_closed(tables),
        tables.dependency_first(),
        are_registered(tables, ops),
        0 <= j,
        0 <= i < ops.len(),
    ensures
        deferred_tree::superseded(tables, ops, i, j) is Ok,
    decreases ops.len() - j,
{
    if j < ops.len() {
        dependence_is_decided(tables, ops[j].change, ops[i].change);
        superseding_is_decided(tables, ops, i, j + 1);
    }
}

proof fn maximal_is_decided(tables: PristineModel, ops: Seq<OpModel>, i: int, found: Seq<int>)
    requires
        is_closed(tables),
        tables.dependency_first(),
        are_registered(tables, ops),
        0 <= i,
    ensures
        deferred_tree::maximal(tables, ops, i, found) is Ok,
    decreases ops.len() - i,
{
    if i < ops.len() {
        superseding_is_decided(tables, ops, i, 0);
        maximal_is_decided(tables, ops, i + 1, found);
        maximal_is_decided(tables, ops, i + 1, found.push(i));
    }
}

proof fn preceding_is_decided(
    tables: PristineModel,
    ops: Seq<OpModel>,
    s: int,
    deletions: Seq<int>,
    d: int,
)
    requires
        is_closed(tables),
        tables.dependency_first(),
        are_registered(tables, ops),
        0 <= d,
        0 <= s < ops.len(),
        forall|k: int| 0 <= k < deletions.len() ==> 0 <= #[trigger] deletions[k] < ops.len(),
    ensures
        deferred_tree::precedes(tables, ops, s, deletions, d) is Ok,
    decreases deletions.len() - d,
{
    if d < deletions.len() {
        assert(0 <= deletions[d] < ops.len());
        dependence_is_decided(tables, ops[deletions[d]].change, ops[s].change);
        preceding_is_decided(tables, ops, s, deletions, d + 1);
    }
}

proof fn predecessors_are_decided(
    tables: PristineModel,
    ops: Seq<OpModel>,
    deletions: Seq<int>,
    s: int,
    found: Seq<OpModel>,
)
    requires
        is_closed(tables),
        tables.dependency_first(),
        are_registered(tables, ops),
        0 <= s,
        forall|k: int| 0 <= k < deletions.len() ==> 0 <= #[trigger] deletions[k] < ops.len(),
    ensures
        deferred_tree::predecessors(tables, ops, deletions, s, found) is Ok,
    decreases ops.len() - s,
{
    if s < ops.len() {
        preceding_is_decided(tables, ops, s, deletions, 0);
        predecessors_are_decided(tables, ops, deletions, s + 1, found);
        predecessors_are_decided(tables, ops, deletions, s + 1, found.push(ops[s]));
    }
}

/// Whether of any two changes that place the same inode one depends on the
/// other.
pub open spec fn placements_are_ordered(tables: PristineModel, ops: Seq<OpModel>) -> bool {
    forall|i: int, j: int|
        #![trigger ops[i], ops[j]]
        0 <= i < ops.len() && 0 <= j < ops.len() && ops[i].inode == ops[j].inode && ops[i].action
            is Place && ops[j].action is Place && ops[i].change != ops[j].change ==> descends(
            tables,
            ops[i].change,
            ops[j].change,
        ) || descends(tables, ops[j].change, ops[i].change)
}

proof fn ordered_placements_have_one_end(
    tables: PristineModel,
    placed: Seq<OpModel>,
    x: int,
    y: int,
)
    requires
        is_closed(tables),
        tables.dependency_first(),
        are_registered(tables, placed),
        placements_are_ordered(tables, placed),
        forall|k: int|
            0 <= k < placed.len() ==> (#[trigger] placed[k]).action is Place && placed[k].inode
                == placed[0].inode,
        0 <= x < placed.len(),
        0 <= y < placed.len(),
        planner_laws::is_last(tables, placed, x),
        planner_laws::is_last(tables, placed, y),
    ensures
        x == y,
{
    let a = placed[x].change;
    let b = placed[y].change;
    if a == b {
        assert(!planner_laws::supersedes(tables, placed, x, y));
        assert(!planner_laws::supersedes(tables, placed, y, x));
    } else {
        dependence_is_decided(tables, a, b);
        dependence_is_decided(tables, b, a);
        let forth = deferred_tree::depends_on(tables, a, b)->Ok_0;
        let back = deferred_tree::depends_on(tables, b, a)->Ok_0;
        word_laws::dependence_is_descent(tables, a, b, forth);
        word_laws::dependence_is_descent(tables, b, a, back);
        assert(!planner_laws::supersedes(tables, placed, x, y));
        assert(!planner_laws::supersedes(tables, placed, y, x));
    }
}

proof fn desired_is_decided(
    tables: PristineModel,
    ops: Seq<OpModel>,
    visible: Seq<ContentHash>,
    at: ExternalPosition,
)
    requires
        is_closed(tables),
        tables.dependency_first(),
        are_registered(tables, ops),
        placements_are_ordered(tables, ops),
        forall|k: int| 0 <= k < ops.len() ==> (#[trigger] ops[k]).inode == at,
        forall|j: int, k: int|
            #![trigger ops[j], ops[k]]
            0 <= j < ops.len() && 0 <= k < ops.len() && ops[j].directory is Some && ops[k].directory
                is Some ==> ops[j].directory == ops[k].directory,
    ensures
        deferred_tree::desired_for(tables, ops, visible, at) is Ok,
{
    let shows = |op: OpModel| visible.contains(op.change);
    let shown = ops.filter(shows);
    assert(shown == deferred_tree::visible_ops(ops, visible));
    kinds_are_agreed(ops, 0, None, at);
    assert forall|k: int| 0 <= k < shown.len() implies ops.contains(#[trigger] shown[k]) && tables.row(
        shown[k].change,
    ) is Some by {
        let m = planner_laws::kept_come_from(ops, shows, k);
        assert(ops[m] == shown[k]);
    }
    maximal_is_decided(tables, shown, 0, Seq::empty());
    planner_laws::maximal_is_exact(tables, shown, 0, Seq::empty());
    let last = deferred_tree::maximal(tables, shown, 0, Seq::empty())->Ok_0;
    predecessors_are_decided(tables, shown, last, 0, Seq::empty());
    word_laws::predecessors_are_placements(tables, shown, last, 0, Seq::empty());
    let placed = deferred_tree::predecessors(tables, shown, last, 0, Seq::empty())->Ok_0;
    assert forall|k: int| 0 <= k < placed.len() implies ops.contains(#[trigger] placed[k])
        && tables.row(placed[k].change) is Some && placed[k].inode == at by {
        assert(shown.contains(placed[k]));
        let n = shown.index_of(placed[k]);
        assert(shown[n] == placed[k]);
        let m = ops.index_of(shown[n]);
        assert(ops[m] == placed[k]);
    }
    assert(placements_are_ordered(tables, placed)) by {
        assert forall|i: int, j: int|
            #![trigger placed[i], placed[j]]
            0 <= i < placed.len() && 0 <= j < placed.len() && placed[i].inode == placed[j].inode
                && placed[i].action is Place && placed[j].action is Place && placed[i].change
                != placed[j].change implies descends(tables, placed[i].change, placed[j].change)
            || descends(tables, placed[j].change, placed[i].change) by {
            let m = ops.index_of(placed[i]);
            let n = ops.index_of(placed[j]);
            assert(ops[m] == placed[i] && ops[n] == placed[j]);
        }
    }
    maximal_is_decided(tables, placed, 0, Seq::empty());
    planner_laws::maximal_is_exact(tables, placed, 0, Seq::empty());
    let ends = deferred_tree::maximal(tables, placed, 0, Seq::empty())->Ok_0;
    assert forall|k: int| 0 < k < ends.len() implies #[trigger] placed[ends[k]].action
        == placed[ends[0]].action by {
        assert(0 <= ends[k] < placed.len() && 0 <= ends[0] < placed.len());
        ordered_placements_have_one_end(tables, placed, ends[k], ends[0]);
    }
}

proof fn plan_is_decided(
    tables: PristineModel,
    ops: Seq<OpModel>,
    visible: Seq<ContentHash>,
    inodes: Seq<ExternalPosition>,
    i: int,
    plan: Seq<(ExternalPosition, DesiredModel)>,
)
    requires
        0 <= i <= inodes.len(),
        forall|k: int|
            0 <= k < inodes.len() ==> deferred_tree::desired_for(
                tables,
                deferred_tree::ops_of(ops, #[trigger] inodes[k]),
                visible,
                inodes[k],
            ) is Ok,
    ensures
        deferred_tree::desired_from(tables, ops, visible, inodes, i, plan) is Ok,
    decreases inodes.len() - i,
{
    if i < inodes.len() {
        let desired = deferred_tree::desired_for(
            tables,
            deferred_tree::ops_of(ops, inodes[i]),
            visible,
            inodes[i],
        )->Ok_0;
        plan_is_decided(tables, ops, visible, inodes, i + 1, plan.push((inodes[i], desired)));
    }
}

proof fn hashes_are_found(
    tables: PristineModel,
    changes: Seq<NodeId>,
    i: int,
    hashes: Seq<ContentHash>,
)
    requires
        0 <= i <= changes.len(),
        forall|k: int| 0 <= k < changes.len() ==> tables.external(#[trigger] changes[k]) is Some,
    ensures
        deferred_tree::hashes_from(tables, changes, i, hashes) is Ok,
    decreases changes.len() - i,
{
    if i < changes.len() {
        hashes_are_found(tables, changes, i + 1, hashes.push(tables.external(changes[i])->0));
    }
}

proof fn projection_is_decided(
    tables: PristineModel,
    visibility: Visibility,
    cache: Seq<deferred_tree::CachedModel>,
    plan: Seq<(ExternalPosition, DesiredModel)>,
    positions: Seq<ExternalPosition>,
    i: int,
    projection: ProjectionModel,
)
    requires
        0 <= i <= positions.len(),
        forall|k: int|
            0 <= k < positions.len() ==> deferred_tree::resolve(
                tables,
                cache,
                pristine::first_value(plan, #[trigger] positions[k]),
                positions[k],
            ) is Ok,
    ensures
        deferred_tree::project_from(tables, visibility, cache, plan, positions, i, projection)
            is Ok,
    decreases positions.len() - i,
{
    if i < positions.len() {
        let state = pristine::first_value(plan, positions[i]);
        let resolved = deferred_tree::resolve(tables, cache, state, positions[i])->Ok_0;
        projection_is_decided(
            tables,
            visibility,
            cache,
            plan,
            positions,
            i + 1,
            deferred_tree::with_inode(projection, visibility, state, resolved),
        );
    }
}

proof fn kept_pair<T>(list: Seq<T>, keep: spec_fn(T) -> bool, m: int) -> (n: int)
    requires
        0 <= m < list.filter(keep).len(),
    ensures
        0 <= n < list.len(),
        list[n] == list.filter(keep)[m],
    decreases list.len(),
{
    reveal(Seq::filter);
    let rest = list.drop_last();
    if keep(list.last()) && m == rest.filter(keep).len() {
        list.len() - 1
    } else {
        kept_pair(rest, keep, m)
    }
}

/// Whether the tables know an operation's change, and its inode as the kind
/// that it says.
pub open spec fn is_known(tables: PristineModel, op: OpModel) -> bool {
    tables.row(op.change) is Some && exists|inode: Inode, position: Position| #[trigger]
        locates(tables, op.inode, inode, position) && (op.directory is Some ==> op.directory
            == Some(tables.directories.contains(inode)))
}

proof fn position_resolves(
    tables: PristineModel,
    ops: Seq<OpModel>,
    changes: Seq<NodeId>,
    plan: Seq<(ExternalPosition, DesiredModel)>,
    at: ExternalPosition,
)
    requires
        tables_agree(tables),
        deferred_tree::journal_plan(tables, ops, changes) == Ok::<_, TreeRefusal>(plan),
        forall|i: int| 0 <= i < ops.len() ==> is_known(tables, #[trigger] ops[i]),
        deferred_tree::cached_positions(
            deferred_tree::cached_from(tables, 0, Seq::empty()),
        ).contains(at) || plan.map_values(
            |e: (ExternalPosition, DesiredModel)| e.0,
        ).contains(at),
    ensures
        deferred_tree::resolve(
            tables,
            deferred_tree::cached_from(tables, 0, Seq::empty()),
            pristine::first_value(plan, at),
            at,
        ) is Ok,
{
    let cache = deferred_tree::cached_from(tables, 0, Seq::empty());
    let keys = deferred_tree::cached_positions(cache);
    keys.index_of_first_ensures(at);
    tree_laws::cache_is_of_rows(tables, 0, Seq::empty());
    let own = word_laws::plan_speaks(tables, ops, changes, plan, at);
    let state = pristine::first_value(plan, at);
    if own.len() > 0 {
        kinds_are_agreed(own, 0, None, at);
        let desired = state->0;
        let o = if desired.directory is Some {
            choose|o: int| 0 <= o < own.len() && (#[trigger] own[o]).directory == desired.directory
        } else {
            0
        };
        assert(own[o].inode == at);
        let m = ops.index_of(own[o]);
        assert(ops[m] == own[o]);
        assert(is_known(tables, ops[m]));
        let (inode, position) = choose|inode: Inode, position: Position| #[trigger]
            locates(tables, ops[m].inode, inode, position) && (ops[m].directory is Some
                ==> ops[m].directory == Some(tables.directories.contains(inode)));
        if let Some(c) = keys.index_of_first(at) {
            assert(keys[c] == cache[c].at);
            assert(tree_laws::is_cached(tables, cache[c]));
            assert(locates(tables, at, cache[c].inode, cache[c].position));
            tree_laws::locations_are_unique(
                tables,
                at,
                inode,
                position,
                at,
                cache[c].inode,
                cache[c].position,
            );
        } else {
            tables.ids().index_of_first_ensures(position.change);
            tables.hashes().index_of_first_ensures(at.change);
            let r = tables.ids().index_of_first(position.change)->0;
            assert(tables.hashes()[r] == at.change);
            assert(tables.row(at.change) == Some(r));
            assert(tables.ids()[r] == position.change);
            assert(tables.internal(at.change) == Some(position.change));
            assert(tables.position_inode(position) == Some(inode));
        }
    }
}

/// A journal over complete tables is projected under every visibility: where
/// each change that the tables register has its dependencies there, visible
/// changes have hashes, the journal's changes are registered, the inodes that it
/// speaks of were recorded as the kind that it says, and placements of one inode
/// know of each other, nothing is refused.
pub proof fn complete_tables_project(
    tables: PristineModel,
    ops: Seq<OpModel>,
    visibility: Visibility,
)
    requires
        tables_agree(tables),
        tables.dependency_first(),
        is_closed(tables),
        placements_are_ordered(tables, ops),
        forall|k: int|
            0 <= k < visibility.changes@.len() ==> tables.external(
                #[trigger] visibility.changes@[k],
            ) is Some,
        forall|i: int| 0 <= i < ops.len() ==> is_known(tables, #[trigger] ops[i]),
    ensures
        deferred_tree::projected_tree(tables, ops, visibility) is Ok,
{
    let changes = visibility.changes@;
    hashes_are_found(tables, changes, 0, Seq::empty());
    assert(hashes_of(tables, changes).take(0) =~= Seq::empty());
    word_laws::hashes_are_listed(tables, changes, 0, Seq::empty());
    let hashes = hashes_of(tables, changes);
    assert forall|k: int| 0 <= k < ops.len() implies planner_laws::is_indexed(
        tables,
        (#[trigger] ops[k]).change,
    ) by {
        assert(is_known(tables, ops[k]));
        tables.hashes().index_of_first_ensures(ops[k].change);
        let r = tables.row(ops[k].change)->0;
        assert(tables.changes[r].dependencies is Some);
    }
    planner_laws::ordered_tables_order_every_journal(tables, ops);
    let ordered = deferred_tree::causal_order(tables, ops)->Ok_0;
    deferred_tree::causal_order_permutes(tables, ops);
    assert forall|k: int| 0 <= k < ordered.len() implies ops.contains(#[trigger] ordered[k]) by {
        vstd::seq_lib::to_multiset_contains(ordered, ordered[k]);
        vstd::seq_lib::to_multiset_contains(ops, ordered[k]);
        assert(ordered.contains(ordered[k]));
    }
    let inodes = deferred_tree::inodes_of(ordered);
    assert forall|k: int| 0 <= k < inodes.len() implies deferred_tree::desired_for(
        tables,
        deferred_tree::ops_of(ordered, #[trigger] inodes[k]),
        hashes,
        inodes[k],
    ) is Ok by {
        let at = inodes[k];
        let of_inode = |op: OpModel| op.inode == at;
        let own = ordered.filter(of_inode);
        assert(own == deferred_tree::ops_of(ordered, at));
        assert forall|m: int| 0 <= m < own.len() implies (#[trigger] own[m]).inode == at
            && ops.contains(own[m]) by {
            let n = planner_laws::kept_come_from(ordered, of_inode, m);
            assert(ordered[n] == own[m]);
        }
        assert forall|m: int| 0 <= m < own.len() implies tables.row((#[trigger] own[m]).change)
            is Some by {
            let n = ops.index_of(own[m]);
            assert(ops[n] == own[m]);
            assert(is_known(tables, ops[n]));
        }
        assert forall|i: int, j: int|
            #![trigger own[i], own[j]]
            0 <= i < own.len() && 0 <= j < own.len() && own[i].inode == own[j].inode
                && own[i].action is Place && own[j].action is Place && own[i].change
                != own[j].change implies descends(tables, own[i].change, own[j].change)
            || descends(tables, own[j].change, own[i].change) by {
            let m = ops.index_of(own[i]);
            let n = ops.index_of(own[j]);
            assert(ops[m] == own[i] && ops[n] == own[j]);
        }
        assert forall|i: int, j: int|
            #![trigger own[i], own[j]]
            0 <= i < own.len() && 0 <= j < own.len() && own[i].directory is Some && own[j].directory
                is Some implies own[i].directory == own[j].directory by {
            let m = ops.index_of(own[i]);
            let n = ops.index_of(own[j]);
            assert(ops[m] == own[i] && ops[n] == own[j]);
            assert(is_known(tables, ops[m]) && is_known(tables, ops[n]));
            let (a, p) = choose|inode: Inode, position: Position| #[trigger]
                locates(tables, ops[m].inode, inode, position) && (ops[m].directory is Some
                    ==> ops[m].directory == Some(tables.directories.contains(inode)));
            let (b, q) = choose|inode: Inode, position: Position| #[trigger]
                locates(tables, ops[n].inode, inode, position) && (ops[n].directory is Some
                    ==> ops[n].directory == Some(tables.directories.contains(inode)));
            tree_laws::locations_are_unique(tables, at, a, p, at, b, q);
        }
        desired_is_decided(tables, own, hashes, at);
    }
    plan_is_decided(tables, ordered, hashes, inodes, 0, Seq::empty());
    let plan = deferred_tree::journal_plan(tables, ops, changes)->Ok_0;
    let cache = deferred_tree::cached_from(tables, 0, Seq::empty());
    let positions = deferred_tree::all_positions(cache, plan);
    assert forall|k: int| 0 <= k < positions.len() implies deferred_tree::resolve(
        tables,
        cache,
        pristine::first_value(plan, #[trigger] positions[k]),
        positions[k],
    ) is Ok by {
        let at = positions[k];
        let keys = deferred_tree::cached_positions(cache);
        let fresh = |e: (ExternalPosition, DesiredModel)| !keys.contains(e.0);
        let kept = plan.filter(fresh);
        let more = kept.map_values(|e: (ExternalPosition, DesiredModel)| e.0);
        assert(positions =~= keys + more);
        if k < keys.len() {
            assert(keys[k] == at);
        } else {
            let m = k - keys.len();
            assert(more[m] == at);
            let n = kept_pair(plan, fresh, m);
            let names = plan.map_values(|e: (ExternalPosition, DesiredModel)| e.0);
            assert(names[n] == at);
        }
        position_resolves(tables, ops, changes, plan, at);
    }
    projection_is_decided(
        tables,
        visibility,
        cache,
        plan,
        positions,
        0,
        deferred_tree::empty_projection(),
    );
}

proof fn plans_are_checked(
    tables: PristineModel,
    plan: Seq<(ExternalPosition, DesiredModel)>,
    i: int,
    k: int,
)
    requires
        0 <= i <= k < plan.len(),
        tree_alignment::check_plan(tables, plan, i) is Ok,
    ensures
        tree_alignment::locate(tables, plan[k].0) is Ok,
        plan[k].1.directory is Some ==> plan[k].1.directory == Some(
            tables.directories.contains(tree_alignment::locate(tables, plan[k].0)->Ok_0.1),
        ),
    decreases k - i,
{
    if i < k {
        plans_are_checked(tables, plan, i + 1, k);
    }
}

/// A journal that passes validation speaks only of inodes that the tables have
/// at the position meant, and tells their kinds as the tables do.
pub proof fn validated_journals_are_sound(
    tables: PristineModel,
    ops: Seq<OpModel>,
    changes: Seq<NodeId>,
    i: int,
) -> (inode: Inode)
    requires
        tree_alignment::validated(tables, ops, changes) is Ok,
        0 <= i < ops.len(),
    ensures
        tables.internal(ops[i].inode.change) is Some,
        tables.position_inode(
            Position {
                change: tables.internal(ops[i].inode.change)->0,
                pos: ops[i].inode.pos,
            },
        ) == Some(inode),
        ops[i].directory matches Some(directory) ==> directory == tables.directories.contains(
            inode,
        ),
{
    let plan = deferred_tree::journal_plan(tables, ops, changes)->Ok_0;
    let at = ops[i].inode;
    let own = word_laws::plan_speaks(tables, ops, changes, plan, at);
    assert(own.contains(ops[i]));
    let m = own.index_of(ops[i]);
    assert(own[m] == ops[i]);
    kinds_are_agreed(own, 0, None, at);
    let desired = pristine::first_value(plan, at)->0;
    assert(own[m].directory is Some ==> desired.directory == own[m].directory);
    let k = pristine::first_value_stands(plan, at);
    assert(plan[k] == (at, desired));
    plans_are_checked(tables, plan, 0, k);
    tree_alignment::locate(tables, at)->Ok_0.1
}

} // verus!
