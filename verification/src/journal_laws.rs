//! The order of a journal's changes does not matter.

use crate::deferred_tree;
use crate::deferred_tree::{ActionModel, DesiredModel, OpModel, TreeRefusal};
use crate::planner_laws;
use crate::planner_laws::{is_last, supersedes};
use crate::pristine::PristineModel;
use crate::types::{ContentHash, ExternalPosition};
use vstd::prelude::*;

verus! {

/// The operations of one change, in journal order.
pub open spec fn stream(ops: Seq<OpModel>, change: ContentHash) -> Seq<OpModel>
    decreases ops.len(),
{
    if ops.len() == 0 {
        Seq::empty()
    } else {
        let rest = stream(ops.drop_last(), change);
        if ops.last().change == change {
            rest.push(ops.last())
        } else {
            rest
        }
    }
}

/// The operations of one change on one inode, in journal order.
pub open spec fn inode_stream(
    ops: Seq<OpModel>,
    inode: ExternalPosition,
    change: ContentHash,
) -> Seq<OpModel>
    decreases ops.len(),
{
    if ops.len() == 0 {
        Seq::empty()
    } else {
        let rest = inode_stream(ops.drop_last(), inode, change);
        if ops.last().change == change && ops.last().inode == inode {
            rest.push(ops.last())
        } else {
            rest
        }
    }
}

/// Whether two journals have the same operations, and list those of one change
/// on one inode in the same order.
pub open spec fn reordered(a: Seq<OpModel>, b: Seq<OpModel>) -> bool {
    forall|inode: ExternalPosition, change: ContentHash| #[trigger]
        inode_stream(a, inode, change) == inode_stream(b, inode, change)
}

/// Whether two lists have the same operations, and list those of one change in
/// the same order.
spec fn shuffled(a: Seq<OpModel>, b: Seq<OpModel>) -> bool {
    forall|change: ContentHash| #[trigger] stream(a, change) == stream(b, change)
}

proof fn inode_part(ops: Seq<OpModel>, inode: ExternalPosition, change: ContentHash)
    ensures
        stream(deferred_tree::ops_of(ops, inode), change) == inode_stream(ops, inode, change),
    decreases ops.len(),
{
    reveal(Seq::filter);
    if ops.len() > 0 {
        inode_part(ops.drop_last(), inode, change);
        let rest = deferred_tree::ops_of(ops.drop_last(), inode);
        let whole = deferred_tree::ops_of(ops, inode);
        if ops.last().inode == inode {
            assert(whole == rest.push(ops.last()));
            assert(whole.drop_last() =~= rest);
        } else {
            assert(whole == rest);
        }
    }
}

proof fn visible_part(ops: Seq<OpModel>, visible: Seq<ContentHash>, change: ContentHash)
    ensures
        stream(deferred_tree::visible_ops(ops, visible), change) == if visible.contains(change) {
            stream(ops, change)
        } else {
            Seq::empty()
        },
    decreases ops.len(),
{
    reveal(Seq::filter);
    if ops.len() > 0 {
        visible_part(ops.drop_last(), visible, change);
        let rest = deferred_tree::visible_ops(ops.drop_last(), visible);
        let whole = deferred_tree::visible_ops(ops, visible);
        if visible.contains(ops.last().change) {
            assert(whole == rest.push(ops.last()));
            assert(whole.drop_last() =~= rest);
        } else {
            assert(whole == rest);
        }
    }
}

proof fn stands_in_stream(ops: Seq<OpModel>, k: int)
    requires
        0 <= k < ops.len(),
    ensures
        stream(ops, ops[k].change).contains(ops[k]),
    decreases ops.len(),
{
    let change = ops[k].change;
    let whole = stream(ops, change);
    let rest = stream(ops.drop_last(), change);
    if k == ops.len() - 1 {
        assert(whole[rest.len() as int] == ops[k]);
    } else {
        stands_in_stream(ops.drop_last(), k);
        let at = rest.index_of(ops[k]);
        assert(whole[at] == ops[k]);
    }
}

proof fn comes_from_list(ops: Seq<OpModel>, change: ContentHash, k: int) -> (at: int)
    requires
        0 <= k < stream(ops, change).len(),
    ensures
        0 <= at < ops.len(),
        ops[at] == stream(ops, change)[k],
    decreases ops.len(),
{
    let rest = stream(ops.drop_last(), change);
    if k == rest.len() {
        ops.len() - 1
    } else {
        comes_from_list(ops.drop_last(), change, k)
    }
}

proof fn shuffled_holds(a: Seq<OpModel>, b: Seq<OpModel>, k: int) -> (at: int)
    requires
        shuffled(a, b),
        0 <= k < a.len(),
    ensures
        0 <= at < b.len(),
        b[at] == a[k],
{
    stands_in_stream(a, k);
    let part = stream(a, a[k].change);
    comes_from_list(b, a[k].change, part.index_of(a[k]))
}

proof fn last_of_stream(ops: Seq<OpModel>, at: int)
    requires
        0 <= at < ops.len(),
        forall|w: int| at < w < ops.len() ==> (#[trigger] ops[w]).change != ops[at].change,
    ensures
        stream(ops, ops[at].change).len() > 0,
        stream(ops, ops[at].change).last() == ops[at],
    decreases ops.len(),
{
    if at < ops.len() - 1 {
        assert(ops[ops.len() - 1].change != ops[at].change);
        last_of_stream(ops.drop_last(), at);
    }
}

proof fn place_of_last(ops: Seq<OpModel>, change: ContentHash) -> (at: int)
    requires
        stream(ops, change).len() > 0,
    ensures
        0 <= at < ops.len(),
        ops[at].change == change,
        ops[at] == stream(ops, change).last(),
        forall|w: int| at < w < ops.len() ==> (#[trigger] ops[w]).change != change,
    decreases ops.len(),
{
    if ops.last().change == change {
        ops.len() - 1
    } else {
        let at = place_of_last(ops.drop_last(), change);
        assert forall|w: int| at < w < ops.len() implies (#[trigger] ops[w]).change != change by {
            if w < ops.len() - 1 {
                assert(ops.drop_last()[w] == ops[w]);
            }
        }
        at
    }
}

proof fn last_is_matched(pristine: PristineModel, a: Seq<OpModel>, b: Seq<OpModel>, at: int) -> (to:
    int)
    requires
        shuffled(a, b),
        0 <= at < a.len(),
        is_last(pristine, a, at),
    ensures
        0 <= to < b.len(),
        is_last(pristine, b, to),
        b[to] == a[at],
{
    let change = a[at].change;
    assert forall|w: int| at < w < a.len() implies (#[trigger] a[w]).change != change by {
        assert(!supersedes(pristine, a, w, at));
    }
    last_of_stream(a, at);
    assert(stream(a, change) == stream(b, change));
    let to = place_of_last(b, change);
    assert forall|w: int| 0 <= w < b.len() implies !(#[trigger] supersedes(
        pristine,
        b,
        w,
        to,
    )) by {
        if b[w].change != change {
            assert(shuffled(b, a));
            let v = shuffled_holds(b, a, w);
            assert(!supersedes(pristine, a, v, at));
        }
    }
    to
}

proof fn agreed_kind_is_mentioned(
    ops: Seq<OpModel>,
    i: int,
    kind: Option<bool>,
    at: ExternalPosition,
)
    requires
        0 <= i <= ops.len(),
        deferred_tree::agreed_kind(ops, i, kind, at) is Ok,
    ensures
        ({
            let agreed = deferred_tree::agreed_kind(ops, i, kind, at)->Ok_0;
            &&& kind is Some ==> agreed == kind
            &&& forall|k: int|
                i <= k < ops.len() && (#[trigger] ops[k]).directory is Some ==> agreed
                    == ops[k].directory
            &&& agreed is Some ==> agreed == kind || exists|k: int|
                i <= k < ops.len() && (#[trigger] ops[k]).directory == agreed
        }),
    decreases ops.len() - i,
{
    if i < ops.len() {
        let next = if ops[i].directory is Some {
            ops[i].directory
        } else {
            kind
        };
        agreed_kind_is_mentioned(ops, i + 1, next, at);
    }
}

proof fn kinds_agree(a: Seq<OpModel>, b: Seq<OpModel>, at: ExternalPosition)
    requires
        shuffled(a, b),
        deferred_tree::agreed_kind(a, 0, None, at) is Ok,
        deferred_tree::agreed_kind(b, 0, None, at) is Ok,
    ensures
        deferred_tree::agreed_kind(a, 0, None, at) == deferred_tree::agreed_kind(b, 0, None, at),
{
    agreed_kind_is_mentioned(a, 0, None, at);
    agreed_kind_is_mentioned(b, 0, None, at);
    let ours = deferred_tree::agreed_kind(a, 0, None, at)->Ok_0;
    let theirs = deferred_tree::agreed_kind(b, 0, None, at)->Ok_0;
    if ours is Some {
        let k = choose|k: int| 0 <= k < a.len() && (#[trigger] a[k]).directory == ours;
        let m = shuffled_holds(a, b, k);
        assert(b[m].directory == ours);
    } else if theirs is Some {
        let k = choose|k: int| 0 <= k < b.len() && (#[trigger] b[k]).directory == theirs;
        assert(shuffled(b, a));
        let m = shuffled_holds(b, a, k);
        assert(a[m].directory == theirs);
    }
}

proof fn mentions_are_shared(a: Seq<OpModel>, b: Seq<OpModel>)
    requires
        shuffled(a, b),
    ensures
        deferred_tree::mentioned_paths(a).subset_of(deferred_tree::mentioned_paths(b)),
{
    assert forall|path: Seq<char>| #[trigger]
        deferred_tree::mentioned_paths(a).contains(path) implies deferred_tree::mentioned_paths(
        b,
    ).contains(path) by {
        let i = choose|i: int|
            0 <= i < a.len() && (#[trigger] a[i].baseline_path == Some(path) || a[i].action
                == ActionModel::Place { path });
        let m = shuffled_holds(a, b, i);
        assert(b[m].baseline_path == a[i].baseline_path && b[m].action == a[i].action);
        assert(b[m].baseline_path == Some(path) || b[m].action == ActionModel::Place { path });
    }
}

/// Whether two plans put an inode at the same place.
pub open spec fn same_place(a: DesiredModel, b: DesiredModel) -> bool {
    &&& a.desired_path == b.desired_path
    &&& a.deleted == b.deleted
    &&& a.ambiguous == b.ambiguous
    &&& a.known_paths == b.known_paths
    &&& a.directory == b.directory
}

/// Whether the causally last of some operations say different things.
spec fn at_odds(pristine: PristineModel, ops: Seq<OpModel>) -> bool {
    exists|i: int, j: int|
        0 <= i < ops.len() && 0 <= j < ops.len() && #[trigger] is_last(pristine, ops, i)
            && #[trigger] is_last(pristine, ops, j) && ops[i].action != ops[j].action
}

proof fn odds_are_shared(pristine: PristineModel, a: Seq<OpModel>, b: Seq<OpModel>)
    requires
        shuffled(a, b),
        at_odds(pristine, a),
    ensures
        at_odds(pristine, b),
{
    let (i, j) = choose|i: int, j: int|
        0 <= i < a.len() && 0 <= j < a.len() && #[trigger] is_last(pristine, a, i)
            && #[trigger] is_last(pristine, a, j) && a[i].action != a[j].action;
    let x = last_is_matched(pristine, a, b, i);
    let y = last_is_matched(pristine, a, b, j);
    assert(is_last(pristine, b, x) && is_last(pristine, b, y));
}

/// What the causally last operations decide.
proof fn last_operations_decide(
    pristine: PristineModel,
    ops: Seq<OpModel>,
    visible: Seq<ContentHash>,
    at: ExternalPosition,
) -> (last: int)
    requires
        pristine.dependency_first(),
        deferred_tree::desired_for(pristine, ops, visible, at) is Ok,
        deferred_tree::visible_ops(ops, visible).len() > 0,
    ensures
        ({
            let desired = deferred_tree::desired_for(pristine, ops, visible, at)->Ok_0;
            let shown = deferred_tree::visible_ops(ops, visible);
            &&& 0 <= last < shown.len()
            &&& is_last(pristine, shown, last)
            &&& desired.ambiguous <==> at_odds(pristine, shown)
            &&& desired.ambiguous ==> desired.desired_path is None && !desired.deleted
            &&& !desired.ambiguous ==> (match shown[last].action {
                ActionModel::Place { path } => desired.desired_path == Some(path)
                    && !desired.deleted,
                ActionModel::Delete => desired.desired_path is None && desired.deleted,
            })
        }),
{
    let shown = deferred_tree::visible_ops(ops, visible);
    planner_laws::maximal_is_exact(pristine, shown, 0, Seq::empty());
    let found = deferred_tree::maximal(pristine, shown, 0, Seq::empty())->Ok_0;
    let some = planner_laws::some_operation_is_last(pristine, shown);
    let at_some = choose|k: int| 0 <= k < found.len() && #[trigger] found[k] == some;
    assert(found.len() > 0);
    assert(0 <= found[0] < shown.len() && is_last(pristine, shown, found[0]));
    if at_odds(pristine, shown) {
        let (i, j) = choose|i: int, j: int|
            0 <= i < shown.len() && 0 <= j < shown.len() && #[trigger] is_last(pristine, shown, i)
                && #[trigger] is_last(pristine, shown, j) && shown[i].action != shown[j].action;
        let ki = choose|k: int| 0 <= k < found.len() && #[trigger] found[k] == i;
        let kj = choose|k: int| 0 <= k < found.len() && #[trigger] found[k] == j;
        if shown[i].action != shown[found[0]].action {
            assert(shown[found[ki]].action != shown[found[0]].action);
        } else {
            assert(shown[found[kj]].action != shown[found[0]].action);
        }
    } else {
        assert forall|k: int| 0 < k < found.len() implies #[trigger] shown[found[k]].action
            == shown[found[0]].action by {
            assert(is_last(pristine, shown, found[k]));
        }
    }
    found[0]
}

proof fn shuffled_inode_stays(
    pristine: PristineModel,
    a: Seq<OpModel>,
    b: Seq<OpModel>,
    visible: Seq<ContentHash>,
    at: ExternalPosition,
)
    requires
        pristine.dependency_first(),
        shuffled(a, b),
        deferred_tree::desired_for(pristine, a, visible, at) is Ok,
        deferred_tree::desired_for(pristine, b, visible, at) is Ok,
        deferred_tree::visible_ops(a, visible).len() > 0,
    ensures
        same_place(
            deferred_tree::desired_for(pristine, a, visible, at)->Ok_0,
            deferred_tree::desired_for(pristine, b, visible, at)->Ok_0,
        ),
{
    let ours = deferred_tree::visible_ops(a, visible);
    let theirs = deferred_tree::visible_ops(b, visible);
    assert(shuffled(b, a));
    assert forall|change: ContentHash| #[trigger] stream(ours, change) == stream(
        theirs,
        change,
    ) by {
        visible_part(a, visible, change);
        visible_part(b, visible, change);
    }
    assert(shuffled(ours, theirs) && shuffled(theirs, ours));
    let some = shuffled_holds(ours, theirs, 0);
    let x = last_operations_decide(pristine, a, visible, at);
    let y = last_operations_decide(pristine, b, visible, at);
    if at_odds(pristine, ours) {
        odds_are_shared(pristine, ours, theirs);
    }
    if at_odds(pristine, theirs) {
        odds_are_shared(pristine, theirs, ours);
    }
    let z = last_is_matched(pristine, ours, theirs, x);
    assert(is_last(pristine, theirs, z) && is_last(pristine, theirs, y));
    kinds_agree(a, b, at);
    mentions_are_shared(a, b);
    mentions_are_shared(b, a);
    assert(deferred_tree::mentioned_paths(a) =~= deferred_tree::mentioned_paths(b));
}

pub(crate) proof fn planned_inodes(
    pristine: PristineModel,
    ops: Seq<OpModel>,
    visible: Seq<ContentHash>,
    inodes: Seq<ExternalPosition>,
    i: int,
    plan: Seq<(ExternalPosition, DesiredModel)>,
)
    requires
        0 <= i <= inodes.len(),
        plan.len() == i,
        forall|k: int|
            0 <= k < i ==> (#[trigger] plan[k]).0 == inodes[k] && deferred_tree::desired_for(
                pristine,
                deferred_tree::ops_of(ops, inodes[k]),
                visible,
                inodes[k],
            ) == Ok::<DesiredModel, TreeRefusal>(plan[k].1),
    ensures
        deferred_tree::desired_from(pristine, ops, visible, inodes, i, plan) matches Ok(all)
            ==> all.len() == inodes.len() && forall|k: int|
            0 <= k < all.len() ==> (#[trigger] all[k]).0 == inodes[k] && deferred_tree::desired_for(
                pristine,
                deferred_tree::ops_of(ops, inodes[k]),
                visible,
                inodes[k],
            ) == Ok::<DesiredModel, TreeRefusal>(all[k].1),
    decreases inodes.len() - i,
{
    if i < inodes.len() {
        if let Ok(desired) = deferred_tree::desired_for(
            pristine,
            deferred_tree::ops_of(ops, inodes[i]),
            visible,
            inodes[i],
        ) {
            planned_inodes(
                pristine,
                ops,
                visible,
                inodes,
                i + 1,
                plan.push((inodes[i], desired)),
            );
        }
    }
}

pub(crate) proof fn named_inodes(ops: Seq<OpModel>, inode: ExternalPosition)
    ensures
        deferred_tree::inodes_of(ops).contains(inode) <==> exists|k: int|
            0 <= k < ops.len() && (#[trigger] ops[k]).inode == inode,
    decreases ops.len(),
{
    if ops.len() > 0 {
        let rest = deferred_tree::inodes_of(ops.drop_last());
        let whole = deferred_tree::inodes_of(ops);
        named_inodes(ops.drop_last(), inode);
        if rest.contains(inode) {
            let m = rest.index_of(inode);
            assert(whole[m] == inode);
            let k = choose|k: int|
                0 <= k < ops.len() - 1 && (#[trigger] ops.drop_last()[k]).inode == inode;
            assert(ops[k].inode == inode);
        }
        if ops.last().inode == inode {
            assert(ops[ops.len() - 1].inode == inode);
            if !rest.contains(inode) {
                assert(whole[rest.len() as int] == inode);
            }
        }
        if whole.contains(inode) && ops.last().inode != inode {
            let m = whole.index_of(inode);
            assert(rest[m] == inode);
        }
        if exists|k: int| 0 <= k < ops.len() && (#[trigger] ops[k]).inode == inode {
            let k = choose|k: int| 0 <= k < ops.len() && (#[trigger] ops[k]).inode == inode;
            if k < ops.len() - 1 {
                assert(ops.drop_last()[k].inode == inode);
            }
        }
    }
}

proof fn named_in_other(a: Seq<OpModel>, b: Seq<OpModel>, inode: ExternalPosition)
    requires
        reordered(a, b),
        deferred_tree::inodes_of(a).contains(inode),
    ensures
        deferred_tree::inodes_of(b).contains(inode),
{
    named_inodes(a, inode);
    named_inodes(b, inode);
    let k = choose|k: int| 0 <= k < a.len() && (#[trigger] a[k]).inode == inode;
    let change = a[k].change;
    let ours = deferred_tree::ops_of(a, inode);
    let theirs = deferred_tree::ops_of(b, inode);
    assert(ours.contains(a[k])) by {
        a.lemma_filter_contains(|op: OpModel| op.inode == inode, k);
    }
    stands_in_stream(ours, ours.index_of(a[k]));
    inode_part(a, inode, change);
    inode_part(b, inode, change);
    assert(stream(theirs, change) == stream(ours, change));
    let m = comes_from_list(theirs, change, stream(ours, change).index_of(a[k]));
    let at = planner_laws::kept_come_from(b, |op: OpModel| op.inode == inode, m);
    assert(b[at].inode == inode);
}

/// The order of a journal between different changes does not matter: two
/// journals with the same operations, those of one change on one inode in the
/// same order, plan for the same inodes, and put each that a visible change
/// speaks of at the same place.
pub proof fn journal_order_does_not_matter(
    pristine: PristineModel,
    a: Seq<OpModel>,
    b: Seq<OpModel>,
    visible: Seq<ContentHash>,
    ours: Seq<(ExternalPosition, DesiredModel)>,
    theirs: Seq<(ExternalPosition, DesiredModel)>,
)
    requires
        pristine.dependency_first(),
        reordered(a, b),
        deferred_tree::desired_paths(pristine, a, visible) == Ok::<_, TreeRefusal>(ours),
        deferred_tree::desired_paths(pristine, b, visible) == Ok::<_, TreeRefusal>(theirs),
    ensures
        forall|inode: ExternalPosition|
            #![trigger deferred_tree::inodes_of(a).contains(inode)]
            deferred_tree::inodes_of(a).contains(inode) <==> deferred_tree::inodes_of(b).contains(
                inode,
            ),
        ours.map_values(|e: (ExternalPosition, DesiredModel)| e.0) == deferred_tree::inodes_of(a),
        theirs.map_values(|e: (ExternalPosition, DesiredModel)| e.0) == deferred_tree::inodes_of(b),
        forall|i: int, j: int|
            #![trigger ours[i], theirs[j]]
            0 <= i < ours.len() && 0 <= j < theirs.len() && ours[i].0 == theirs[j].0
                && deferred_tree::visible_ops(
                deferred_tree::ops_of(a, ours[i].0),
                visible,
            ).len() > 0 ==> same_place(ours[i].1, theirs[j].1),
{
    assert(reordered(b, a));
    assert forall|inode: ExternalPosition|
        #![trigger deferred_tree::inodes_of(a).contains(inode)]
        deferred_tree::inodes_of(a).contains(inode) <==> deferred_tree::inodes_of(b).contains(
            inode,
        ) by {
        if deferred_tree::inodes_of(a).contains(inode) {
            named_in_other(a, b, inode);
        }
        if deferred_tree::inodes_of(b).contains(inode) {
            named_in_other(b, a, inode);
        }
    }
    planned_inodes(pristine, a, visible, deferred_tree::inodes_of(a), 0, Seq::empty());
    planned_inodes(pristine, b, visible, deferred_tree::inodes_of(b), 0, Seq::empty());
    assert(ours.map_values(|e: (ExternalPosition, DesiredModel)| e.0)
        =~= deferred_tree::inodes_of(a));
    assert(theirs.map_values(|e: (ExternalPosition, DesiredModel)| e.0)
        =~= deferred_tree::inodes_of(b));
    assert forall|i: int, j: int|
        #![trigger ours[i], theirs[j]]
        0 <= i < ours.len() && 0 <= j < theirs.len() && ours[i].0 == theirs[j].0
            && deferred_tree::visible_ops(
            deferred_tree::ops_of(a, ours[i].0),
            visible,
        ).len() > 0 implies same_place(ours[i].1, theirs[j].1) by {
        let at = ours[i].0;
        let x = deferred_tree::ops_of(a, at);
        let y = deferred_tree::ops_of(b, at);
        assert forall|change: ContentHash| #[trigger] stream(x, change) == stream(y, change) by {
            inode_part(a, at, change);
            inode_part(b, at, change);
        }
        shuffled_inode_stays(pristine, x, y, visible, at);
    }
}

} // verus!
