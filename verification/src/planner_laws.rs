//! What holds of every plan of where journaled inodes belong.

use crate::deferred_tree;
use crate::deferred_tree::{ActionModel, OpModel, TreeRefusal};
use crate::pristine::PristineModel;
use crate::types::{ContentHash, ExternalPosition};
use vstd::prelude::*;

verus! {

/// Whether operation `j` supersedes operation `i`: it is a later one of the
/// same change, or its change depends on that of the other.
pub open spec fn supersedes(
    pristine: PristineModel,
    ops: Seq<OpModel>,
    j: int,
    i: int,
) -> bool {
    if ops[i].change == ops[j].change {
        j > i
    } else {
        deferred_tree::depends_on(pristine, ops[j].change, ops[i].change) == Ok::<
            bool,
            TreeRefusal,
        >(true)
    }
}

/// Where it can be decided, an operation is superseded exactly when another
/// one supersedes it.
pub(crate) proof fn superseded_has_witness(pristine: PristineModel, ops: Seq<OpModel>, i: int, j: int)
    requires
        0 <= j,
        deferred_tree::superseded(pristine, ops, i, j) is Ok,
    ensures
        deferred_tree::superseded(pristine, ops, i, j)->Ok_0 <==> exists|w: int|
            j <= w < ops.len() && #[trigger] supersedes(pristine, ops, w, i),
    decreases ops.len() - j,
{
    if j < ops.len() {
        if supersedes(pristine, ops, j, i) {
        } else {
            superseded_has_witness(pristine, ops, i, j + 1);
            if exists|w: int| j <= w < ops.len() && #[trigger] supersedes(pristine, ops, w, i) {
                let w = choose|w: int|
                    j <= w < ops.len() && #[trigger] supersedes(pristine, ops, w, i);
                assert(w != j);
            }
        }
    }
}

/// The causally maximal operations are those that are not superseded.
pub(crate) proof fn maximal_is_exact(
    pristine: PristineModel,
    ops: Seq<OpModel>,
    i: int,
    found: Seq<int>,
)
    requires
        0 <= i,
        deferred_tree::maximal(pristine, ops, i, found) is Ok,
    ensures
        deferred_tree::maximal(pristine, ops, i, found)->Ok_0.len() >= found.len(),
        forall|k: int|
            0 <= k < found.len() ==> #[trigger] deferred_tree::maximal(
                pristine,
                ops,
                i,
                found,
            )->Ok_0[k] == found[k],
        forall|k: int|
            found.len() <= k < deferred_tree::maximal(pristine, ops, i, found)->Ok_0.len() ==> i
                <= #[trigger] deferred_tree::maximal(pristine, ops, i, found)->Ok_0[k] < ops.len()
                && is_last(
                pristine,
                ops,
                deferred_tree::maximal(pristine, ops, i, found)->Ok_0[k],
            ),
        forall|at: int|
            i <= at < ops.len() && #[trigger] is_last(pristine, ops, at) ==> exists|k: int|
                found.len() <= k < deferred_tree::maximal(pristine, ops, i, found)->Ok_0.len()
                    && #[trigger] deferred_tree::maximal(pristine, ops, i, found)->Ok_0[k] == at,
    decreases ops.len() - i,
{
    if i < ops.len() {
        superseded_has_witness(pristine, ops, i, 0);
        let last = deferred_tree::maximal(pristine, ops, i, found)->Ok_0;
        if deferred_tree::superseded(pristine, ops, i, 0)->Ok_0 {
            maximal_is_exact(pristine, ops, i + 1, found);
        } else {
            let next = found.push(i);
            maximal_is_exact(pristine, ops, i + 1, next);
            assert(last == deferred_tree::maximal(pristine, ops, i + 1, next)->Ok_0);
            assert(last[found.len() as int] == next[found.len() as int]);
            assert forall|k: int| 0 <= k < found.len() implies #[trigger] last[k] == found[k] by {
                assert(last[k] == next[k]);
            }
            assert forall|at: int|
                i <= at < ops.len() && #[trigger] is_last(pristine, ops, at) implies exists|k: int|
                found.len() <= k < last.len() && #[trigger] last[k] == at by {
                if at == i {
                    assert(last[found.len() as int] == at);
                } else {
                    let k = choose|k: int|
                        next.len() <= k < last.len() && #[trigger] last[k] == at;
                    assert(last[k] == at);
                }
            }
        }
    }
}

/// Whether no operation supersedes the one at this place.
pub open spec fn is_last(pristine: PristineModel, ops: Seq<OpModel>, at: int) -> bool {
    forall|w: int| 0 <= w < ops.len() ==> !(#[trigger] supersedes(pristine, ops, w, at))
}

/// Two visible operations of which nothing supersedes either, and which say
/// different things, leave the inode without a path: neither wins by its place
/// in the journal.
pub proof fn unrelated_claims_are_ambiguous(
    pristine: PristineModel,
    ops: Seq<OpModel>,
    visible: Seq<ContentHash>,
    at: ExternalPosition,
    a: int,
    b: int,
)
    requires
        deferred_tree::desired_for(pristine, ops, visible, at) is Ok,
        0 <= a < deferred_tree::visible_ops(ops, visible).len(),
        0 <= b < deferred_tree::visible_ops(ops, visible).len(),
        is_last(pristine, deferred_tree::visible_ops(ops, visible), a),
        is_last(pristine, deferred_tree::visible_ops(ops, visible), b),
        deferred_tree::visible_ops(ops, visible)[a].action != deferred_tree::visible_ops(
            ops,
            visible,
        )[b].action,
    ensures
        ({
            let desired = deferred_tree::desired_for(pristine, ops, visible, at)->Ok_0;
            desired.ambiguous && desired.desired_path is None && !desired.deleted
                && desired.last_present_path == deferred_tree::first_baseline(ops)
        }),
{
    let shown = deferred_tree::visible_ops(ops, visible);
    maximal_is_exact(pristine, shown, 0, Seq::empty());
    let found = deferred_tree::maximal(pristine, shown, 0, Seq::empty())->Ok_0;
    let ka = choose|k: int| 0 <= k < found.len() && #[trigger] found[k] == a;
    let kb = choose|k: int| 0 <= k < found.len() && #[trigger] found[k] == b;
    if shown[a].action != shown[found[0]].action {
        assert(shown[found[ka]].action != shown[found[0]].action);
    } else {
        assert(shown[found[kb]].action != shown[found[0]].action);
    }
}

/// A change that depends on another stands below it in the tables.
pub(crate) proof fn reached_stands_above(pristine: PristineModel, i: int, k: int, ancestor: ContentHash)
    requires
        pristine.dependency_first(),
        0 <= i < pristine.changes.len(),
        0 <= k,
        deferred_tree::reaches(pristine, i, k, ancestor) == Ok::<bool, TreeRefusal>(true),
    ensures
        pristine.row(ancestor) matches Some(j) ==> j < i,
    decreases
            i,
            (match pristine.changes[i].dependencies {
                Some(list) => list.len() - k,
                None => 0int,
            }),
{
    let list = pristine.changes[i].dependencies->0;
    if k < list.len() && list[k] != ancestor {
        pristine.hashes().index_of_first_ensures(list[k]);
        if let Some(j) = pristine.row(list[k]) {
            if 0 <= j < i {
                if deferred_tree::reaches(pristine, j, 0, ancestor) == Ok::<bool, TreeRefusal>(
                    true,
                ) {
                    reached_stands_above(pristine, j, 0, ancestor);
                } else {
                    reached_stands_above(pristine, i, k + 1, ancestor);
                }
            }
        }
    } else if k < list.len() {
        assert(pristine.changes[i].dependencies->0[k] == ancestor);
    }
}

/// Two operations do not supersede each other.
proof fn superseding_is_one_way(pristine: PristineModel, ops: Seq<OpModel>, a: int, b: int)
    requires
        pristine.dependency_first(),
        supersedes(pristine, ops, a, b),
    ensures
        !supersedes(pristine, ops, b, a),
{
    if ops[a].change != ops[b].change && supersedes(pristine, ops, b, a) {
        pristine.hashes().index_of_first_ensures(ops[a].change);
        pristine.hashes().index_of_first_ensures(ops[b].change);
        reached_stands_above(pristine, pristine.row(ops[a].change)->0, 0, ops[b].change);
        reached_stands_above(pristine, pristine.row(ops[b].change)->0, 0, ops[a].change);
    }
}

/// How far down the tables the change of an operation stands.
spec fn depth(pristine: PristineModel, op: OpModel) -> int {
    match pristine.row(op.change) {
        Some(i) => i,
        None => -1,
    }
}

/// Among the first `n` operations, the last of those that stand lowest.
proof fn lowest(pristine: PristineModel, ops: Seq<OpModel>, n: int) -> (at: int)
    requires
        0 < n <= ops.len(),
    ensures
        0 <= at < n,
        forall|i: int|
            #![trigger ops[i]]
            0 <= i < n ==> depth(pristine, ops[i]) < depth(pristine, ops[at]) || (depth(
                pristine,
                ops[i],
            ) == depth(pristine, ops[at]) && i <= at),
    decreases n,
{
    if n == 1 {
        0
    } else {
        let best = lowest(pristine, ops, n - 1);
        if depth(pristine, ops[n - 1]) >= depth(pristine, ops[best]) {
            n - 1
        } else {
            best
        }
    }
}

/// Some operation is not superseded.
pub(crate) proof fn some_operation_is_last(pristine: PristineModel, ops: Seq<OpModel>) -> (at: int)
    requires
        pristine.dependency_first(),
        ops.len() > 0,
    ensures
        0 <= at < ops.len(),
        is_last(pristine, ops, at),
{
    let at = lowest(pristine, ops, ops.len() as int);
    assert forall|w: int| 0 <= w < ops.len() implies !(#[trigger] supersedes(
        pristine,
        ops,
        w,
        at,
    )) by {
        assert(depth(pristine, ops[w]) <= depth(pristine, ops[at]));
        if ops[w].change != ops[at].change && supersedes(pristine, ops, w, at) {
            pristine.hashes().index_of_first_ensures(ops[w].change);
            let i = pristine.row(ops[w].change)->0;
            reached_stands_above(pristine, i, 0, ops[at].change);
        }
    }
    at
}

/// The visible operation that supersedes all the others decides: a placement
/// puts the inode at its path, a deletion removes it. What the journal's order
/// or the hidden changes say does not matter.
pub proof fn causally_last_decides(
    pristine: PristineModel,
    ops: Seq<OpModel>,
    visible: Seq<ContentHash>,
    at: ExternalPosition,
    last: int,
)
    requires
        pristine.dependency_first(),
        deferred_tree::desired_for(pristine, ops, visible, at) is Ok,
        0 <= last < deferred_tree::visible_ops(ops, visible).len(),
        forall|i: int|
            0 <= i < deferred_tree::visible_ops(ops, visible).len() && i != last
                ==> #[trigger] supersedes(
                pristine,
                deferred_tree::visible_ops(ops, visible),
                last,
                i,
            ),
    ensures
        match deferred_tree::visible_ops(ops, visible)[last].action {
            ActionModel::Place { path } => {
                let desired = deferred_tree::desired_for(pristine, ops, visible, at)->Ok_0;
                desired.desired_path == Some(path) && desired.last_present_path == Some(path)
                    && !desired.deleted && !desired.ambiguous
            },
            ActionModel::Delete => {
                let desired = deferred_tree::desired_for(pristine, ops, visible, at)->Ok_0;
                desired.desired_path is None && desired.deleted && !desired.ambiguous
            },
        },
{
    let shown = deferred_tree::visible_ops(ops, visible);
    assert forall|w: int| 0 <= w < shown.len() implies !(#[trigger] supersedes(
        pristine,
        shown,
        w,
        last,
    )) by {
        if w != last {
            assert(supersedes(pristine, shown, last, w));
            superseding_is_one_way(pristine, shown, last, w);
        }
    }
    assert(is_last(pristine, shown, last));
    maximal_is_exact(pristine, shown, 0, Seq::empty());
    let found = deferred_tree::maximal(pristine, shown, 0, Seq::empty())->Ok_0;
    let k = choose|k: int| 0 <= k < found.len() && #[trigger] found[k] == last;
    assert forall|j: int| 0 <= j < found.len() implies #[trigger] found[j] == last by {
        assert(is_last(pristine, shown, found[j]));
        if found[j] != last {
            assert(supersedes(pristine, shown, last, found[j]));
        }
    }
    assert(found[0] == last);
}

/// What a filter keeps comes from the list.
pub(crate) proof fn kept_come_from(ops: Seq<OpModel>, keep: spec_fn(OpModel) -> bool, k: int) -> (i: int)
    requires
        0 <= k < ops.filter(keep).len(),
    ensures
        0 <= i < ops.len(),
        ops[i] == ops.filter(keep)[k],
        keep(ops[i]),
    decreases ops.len(),
{
    reveal(Seq::filter);
    let rest = ops.drop_last();
    if keep(ops.last()) && k == rest.filter(keep).len() {
        ops.len() - 1
    } else {
        kept_come_from(rest, keep, k)
    }
}

/// An inode is put where a visible change placed it or, where no visible change
/// speaks of it, at its baseline; a hidden change places nothing.
pub proof fn only_visible_changes_place(
    pristine: PristineModel,
    ops: Seq<OpModel>,
    visible: Seq<ContentHash>,
    at: ExternalPosition,
    path: Seq<char>,
)
    requires
        pristine.dependency_first(),
        deferred_tree::desired_for(pristine, ops, visible, at) matches Ok(desired)
            && desired.desired_path == Some(path),
    ensures
        (exists|i: int|
            0 <= i < ops.len() && visible.contains((#[trigger] ops[i]).change) && ops[i].action
                == ActionModel::Place { path }) || (deferred_tree::first_baseline(ops) == Some(path)
            && forall|i: int|
            0 <= i < ops.len() ==> !visible.contains((#[trigger] ops[i]).change)),
{
    broadcast use vstd::seq_lib::group_filter_ensures;

    let shown = deferred_tree::visible_ops(ops, visible);
    let keep = |op: OpModel| visible.contains(op.change);
    assert(shown == ops.filter(keep));
    maximal_is_exact(pristine, shown, 0, Seq::empty());
    let found = deferred_tree::maximal(pristine, shown, 0, Seq::empty())->Ok_0;
    if shown.len() > 0 {
        let last = some_operation_is_last(pristine, shown);
        assert(is_last(pristine, shown, last));
        assert(found.len() > 0);
        let i = kept_come_from(ops, keep, found[0]);
        assert(ops[i].action == ActionModel::Place { path });
    } else {
        assert forall|i: int| 0 <= i < ops.len() implies !visible.contains(
            (#[trigger] ops[i]).change,
        ) by {
            if visible.contains(ops[i].change) {
                assert(keep(ops[i]));
                assert(shown.contains(ops[i]));
            }
        }
    }
}

/// Whether a change can be visited with these changes being visited: they are
/// distinct, journaled, and stand below it in the tables.
spec fn open_visit(
    pristine: PristineModel,
    groups: Seq<ContentHash>,
    stack: Seq<ContentHash>,
    change: ContentHash,
) -> bool {
    &&& groups.contains(change)
    &&& stack.no_duplicates()
    &&& forall|k: int|
        0 <= k < stack.len() ==> groups.contains(#[trigger] stack[k]) && pristine.row(stack[k])
            is Some && (pristine.row(change) matches Some(c) ==> c < pristine.row(stack[k])->0)
}

/// Whether a change is registered with its dependencies.
pub open spec fn is_indexed(pristine: PristineModel, change: ContentHash) -> bool {
    pristine.row(change) matches Some(i) && pristine.changes[i].dependencies is Some
}

proof fn visit_finds_no_cycle(
    pristine: PristineModel,
    groups: Seq<ContentHash>,
    change: ContentHash,
    stack: Seq<ContentHash>,
    done: Seq<ContentHash>,
)
    requires
        pristine.dependency_first(),
        open_visit(pristine, groups, stack, change),
    ensures
        match deferred_tree::visit(pristine, groups, change, stack, done) {
            Ok(_) => true,
            Err(refusal) => refusal !is DependencyCycle && exists|k: int|
                0 <= k < groups.len() && !is_indexed(pristine, #[trigger] groups[k]),
        },
    decreases groups.len() - stack.len(), 0int,
{
    if !done.contains(change) {
        let inner = stack.push(change);
        assert forall|k: int| 0 <= k < stack.len() implies #[trigger] stack[k] != change by {}
        assert(inner.no_duplicates());
        assert forall|k: int| 0 <= k < inner.len() implies groups.contains(
            #[trigger] inner[k],
        ) by {
            if k < stack.len() {
                assert(inner[k] == stack[k]);
            }
        }
        deferred_tree::distinct_members_fit(inner, groups);
        let at = groups.index_of(change);
        assert(groups[at] == change);
        pristine.hashes().index_of_first_ensures(change);
        if is_indexed(pristine, change) {
            let i = pristine.row(change)->0;
            let list = pristine.changes[i].dependencies->0;
            assert forall|k: int| 0 <= k < inner.len() implies pristine.row(#[trigger] inner[k])
                is Some && pristine.row(inner[k])->0 >= i by {
                if k < stack.len() {
                    assert(inner[k] == stack[k]);
                }
            }
            visit_dependencies_finds_no_cycle(pristine, groups, i, 0, inner, done);
        }
    }
}

proof fn visit_dependencies_finds_no_cycle(
    pristine: PristineModel,
    groups: Seq<ContentHash>,
    i: int,
    k: int,
    stack: Seq<ContentHash>,
    done: Seq<ContentHash>,
)
    requires
        pristine.dependency_first(),
        0 <= i < pristine.changes.len(),
        pristine.changes[i].dependencies is Some,
        0 <= k,
        stack.no_duplicates(),
        stack.len() <= groups.len(),
        forall|j: int|
            0 <= j < stack.len() ==> groups.contains(#[trigger] stack[j]) && pristine.row(stack[j])
                is Some && pristine.row(stack[j])->0 >= i,
    ensures
        match deferred_tree::visit_dependencies(
            pristine,
            groups,
            pristine.changes[i].dependencies->0,
            k,
            stack,
            done,
        ) {
            Ok(_) => true,
            Err(refusal) => refusal !is DependencyCycle && exists|k: int|
                0 <= k < groups.len() && !is_indexed(pristine, #[trigger] groups[k]),
        },
    decreases
            groups.len() - stack.len(),
            pristine.changes[i].dependencies->0.len() - k + 1,
{
    let list = pristine.changes[i].dependencies->0;
    if k < list.len() {
        if !groups.contains(list[k]) {
            visit_dependencies_finds_no_cycle(pristine, groups, i, k + 1, stack, done);
        } else {
            assert(pristine.changes[i].dependencies->0[k] == list[k]);
            assert(open_visit(pristine, groups, stack, list[k]));
            visit_finds_no_cycle(pristine, groups, list[k], stack, done);
            if let Ok(more) = deferred_tree::visit(pristine, groups, list[k], stack, done) {
                visit_dependencies_finds_no_cycle(pristine, groups, i, k + 1, stack, more);
            }
        }
    }
}

proof fn visits_find_no_cycle(
    pristine: PristineModel,
    groups: Seq<ContentHash>,
    i: int,
    done: Seq<ContentHash>,
)
    requires
        pristine.dependency_first(),
        0 <= i,
    ensures
        match deferred_tree::visit_groups(pristine, groups, i, done) {
            Ok(_) => true,
            Err(refusal) => refusal !is DependencyCycle && exists|k: int|
                0 <= k < groups.len() && !is_indexed(pristine, #[trigger] groups[k]),
        },
    decreases groups.len() - i,
{
    if i < groups.len() {
        assert(open_visit(pristine, groups, Seq::empty(), groups[i]));
        visit_finds_no_cycle(pristine, groups, groups[i], Seq::empty(), done);
        if let Ok(more) = deferred_tree::visit(pristine, groups, groups[i], Seq::empty(), done) {
            visits_find_no_cycle(pristine, groups, i + 1, more);
        }
    }
}

/// A journal over tables whose dependencies end is never refused for a cycle;
/// where every journaled change is registered with its dependencies, it is
/// always put in order.
pub proof fn ordered_tables_order_every_journal(pristine: PristineModel, ops: Seq<OpModel>)
    requires
        pristine.dependency_first(),
    ensures
        deferred_tree::causal_order(pristine, ops) matches Err(refusal) ==> refusal
            !is DependencyCycle,
        (forall|k: int| 0 <= k < ops.len() ==> is_indexed(pristine, (#[trigger] ops[k]).change))
            ==> deferred_tree::causal_order(pristine, ops) is Ok,
{
    let groups = deferred_tree::changes_of(ops);
    visits_find_no_cycle(pristine, groups, 0, Seq::empty());
    if forall|k: int| 0 <= k < ops.len() ==> is_indexed(pristine, (#[trigger] ops[k]).change) {
        assert forall|k: int| 0 <= k < groups.len() implies is_indexed(
            pristine,
            #[trigger] groups[k],
        ) by {
            let at = listed_change_has_operation(ops, k);
            assert(ops[at].change == groups[k]);
        }
    }
}

/// Every listed change is that of an operation.
proof fn listed_change_has_operation(ops: Seq<OpModel>, k: int) -> (at: int)
    requires
        0 <= k < deferred_tree::changes_of(ops).len(),
    ensures
        0 <= at < ops.len(),
        ops[at].change == deferred_tree::changes_of(ops)[k],
    decreases ops.len(),
{
    let rest = ops.drop_last();
    if k < deferred_tree::changes_of(rest).len() {
        listed_change_has_operation(rest, k)
    } else {
        ops.len() - 1
    }
}

} // verus!
