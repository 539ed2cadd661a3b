//! Which change has the last word on where an inode belongs.

use crate::deferred_tree;
use crate::deferred_tree::{ActionModel, DesiredModel, OpModel, TreeRefusal};
use crate::journal_laws;
use crate::planner_laws;
use crate::pristine;
use crate::pristine::PristineModel;
use crate::types::{ContentHash, ExternalPosition, NodeId};
use vstd::prelude::*;

verus! {

/// Whether a change names another as its dependency.
pub open spec fn names(pristine: PristineModel, change: ContentHash, other: ContentHash) -> bool {
    pristine.row(change) matches Some(i) && pristine.changes[i].dependencies matches Some(list)
        && list.contains(other)
}

/// Whether each change of a list names the next as its dependency.
pub open spec fn is_descent(pristine: PristineModel, chain: Seq<ContentHash>) -> bool {
    chain.len() >= 2 && forall|k: int|
        0 <= k < chain.len() - 1 ==> names(pristine, #[trigger] chain[k], chain[k + 1])
}

/// Whether a change depends on another, directly or through others.
pub open spec fn descends(pristine: PristineModel, change: ContentHash, other: ContentHash) -> bool {
    exists|chain: Seq<ContentHash>| #[trigger]
        is_descent(pristine, chain) && chain[0] == change && chain.last() == other
}

proof fn descent_goes_up(pristine: PristineModel, chain: Seq<ContentHash>)
    requires
        pristine.dependency_first(),
        is_descent(pristine, chain),
    ensures
        pristine.row(chain[0]) matches Some(i) && 0 <= i < pristine.changes.len() && (pristine.row(
            chain.last(),
        ) matches Some(j) ==> j < i),
    decreases chain.len(),
{
    pristine.hashes().index_of_first_ensures(chain[0]);
    assert(names(pristine, chain[0], chain[1]));
    let i = pristine.row(chain[0])->0;
    let list = pristine.changes[i].dependencies->0;
    let k = list.index_of(chain[1]);
    assert(pristine.changes[i].dependencies->0[k] == chain[1]);
    if chain.len() > 2 {
        let rest = chain.drop_first();
        assert forall|m: int| 0 <= m < rest.len() - 1 implies names(
            pristine,
            #[trigger] rest[m],
            rest[m + 1],
        ) by {
            assert(names(pristine, chain[m + 1], chain[m + 2]));
        }
        descent_goes_up(pristine, rest);
        assert(rest.last() == chain.last());
    }
}

proof fn descent_is_reached(
    pristine: PristineModel,
    chain: Seq<ContentHash>,
    i: int,
    k: int,
    m: int,
)
    requires
        pristine.dependency_first(),
        is_descent(pristine, chain),
        pristine.row(chain[0]) == Some(i),
        0 <= i < pristine.changes.len(),
        0 <= k <= m < (pristine.changes[i].dependencies->0).len(),
        (pristine.changes[i].dependencies->0)[m] == chain[1],
        deferred_tree::reaches(pristine, i, k, chain.last()) is Ok,
    ensures
        deferred_tree::reaches(pristine, i, k, chain.last()) == Ok::<bool, TreeRefusal>(true),
    decreases chain.len(), m - k,
{
    assert(names(pristine, chain[0], chain[1]));
    let list = pristine.changes[i].dependencies->0;
    let other = chain.last();
    pristine.hashes().index_of_first_ensures(list[k]);
    if list[k] == other {
    } else if k < m {
        assert(pristine.changes[i].dependencies->0[k] == list[k]);
        let j = pristine.row(list[k])->0;
        assert(0 <= j < i);
        if deferred_tree::reaches(pristine, j, 0, other) == Ok::<bool, TreeRefusal>(false) {
            descent_is_reached(pristine, chain, i, k + 1, m);
        }
    } else {
        assert(chain.len() > 2);
        let rest = chain.drop_first();
        assert forall|n: int| 0 <= n < rest.len() - 1 implies names(
            pristine,
            #[trigger] rest[n],
            rest[n + 1],
        ) by {
            assert(names(pristine, chain[n + 1], chain[n + 2]));
        }
        assert(names(pristine, rest[0], rest[1]));
        let j = pristine.row(list[k])->0;
        assert(pristine.changes[i].dependencies->0[k] == list[k]);
        assert(0 <= j < i);
        let next = pristine.changes[j].dependencies->0;
        assert(rest.last() == other);
        descent_is_reached(pristine, rest, j, 0, next.index_of(rest[1]));
    }
}

proof fn reached_is_descent(
    pristine: PristineModel,
    change: ContentHash,
    i: int,
    k: int,
    other: ContentHash,
) -> (chain: Seq<ContentHash>)
    requires
        pristine.row(change) == Some(i),
        0 <= i < pristine.changes.len(),
        0 <= k,
        deferred_tree::reaches(pristine, i, k, other) == Ok::<bool, TreeRefusal>(true),
    ensures
        is_descent(pristine, chain),
        chain[0] == change,
        chain.last() == other,
    decreases
            i,
            (match pristine.changes[i].dependencies {
                Some(list) => list.len() - k,
                None => 0int,
            }),
{
    let list = pristine.changes[i].dependencies->0;
    if list[k] == other {
        let chain = seq![change, other];
        assert(list.contains(list[k]));
        assert(names(pristine, chain[0], chain[1]));
        chain
    } else {
        pristine.hashes().index_of_first_ensures(list[k]);
        let j = pristine.row(list[k])->0;
        if deferred_tree::reaches(pristine, j, 0, other) == Ok::<bool, TreeRefusal>(true) {
            let rest = reached_is_descent(pristine, list[k], j, 0, other);
            let chain = seq![change] + rest;
            assert(list.contains(list[k]));
            assert forall|n: int| 0 <= n < chain.len() - 1 implies names(
                pristine,
                #[trigger] chain[n],
                chain[n + 1],
            ) by {
                if n > 0 {
                    assert(names(pristine, rest[n - 1], rest[n]));
                }
            }
            assert(chain.last() == rest.last());
            chain
        } else {
            reached_is_descent(pristine, change, i, k + 1, other)
        }
    }
}

/// Where it can be decided, a change depends on another exactly when it is the
/// other or a chain of named dependencies leads from it to the other.
pub proof fn dependence_is_descent(
    pristine: PristineModel,
    change: ContentHash,
    other: ContentHash,
    answer: bool,
)
    requires
        pristine.dependency_first(),
        deferred_tree::depends_on(pristine, change, other) == Ok::<bool, TreeRefusal>(answer),
    ensures
        answer <==> change == other || descends(pristine, change, other),
{
    if change != other {
        pristine.hashes().index_of_first_ensures(change);
        let i = pristine.row(change)->0;
        if answer {
            let chain = reached_is_descent(pristine, change, i, 0, other);
            assert(is_descent(pristine, chain));
        }
        if descends(pristine, change, other) {
            let chain = choose|chain: Seq<ContentHash>| #[trigger]
                is_descent(pristine, chain) && chain[0] == change && chain.last() == other;
            assert(names(pristine, chain[0], chain[1]));
            let list = pristine.changes[i].dependencies->0;
            descent_is_reached(pristine, chain, i, 0, list.index_of(chain[1]));
        }
    }
}

/// What a change says of an inode in a journal, in order.
pub open spec fn words(ops: Seq<OpModel>, at: ExternalPosition, change: ContentHash) -> Seq<OpModel> {
    ops.filter(|op: OpModel| op.inode == at && op.change == change)
}

/// Whether a visible change speaks of an inode and depends on every other
/// visible change that does.
pub open spec fn has_last_word(
    pristine: PristineModel,
    ops: Seq<OpModel>,
    visible: Seq<ContentHash>,
    at: ExternalPosition,
    change: ContentHash,
) -> bool {
    &&& visible.contains(change)
    &&& words(ops, at, change).len() > 0
    &&& forall|i: int|
        0 <= i < ops.len() && (#[trigger] ops[i]).inode == at && visible.contains(ops[i].change)
            && ops[i].change != change ==> descends(pristine, change, ops[i].change)
}

proof fn filters_alike<T>(list: Seq<T>, p: spec_fn(T) -> bool, q: spec_fn(T) -> bool)
    requires
        forall|k: int| 0 <= k < list.len() ==> p(#[trigger] list[k]) == q(list[k]),
    ensures
        list.filter(p) == list.filter(q),
    decreases list.len(),
{
    reveal(Seq::filter);
    if list.len() > 0 {
        let rest = list.drop_last();
        assert forall|k: int| 0 <= k < rest.len() implies p(#[trigger] rest[k]) == q(rest[k]) by {
            assert(rest[k] == list[k]);
        }
        filters_alike(rest, p, q);
        assert(p(list[list.len() - 1]) == q(list[list.len() - 1]));
    }
}

proof fn filtered_twice<T>(
    list: Seq<T>,
    p: spec_fn(T) -> bool,
    q: spec_fn(T) -> bool,
    both: spec_fn(T) -> bool,
)
    requires
        forall|x: T| #[trigger] both(x) == (p(x) && q(x)),
    ensures
        list.filter(p).filter(q) == list.filter(both),
    decreases list.len(),
{
    reveal(Seq::filter);
    if list.len() > 0 {
        let rest = list.drop_last();
        filtered_twice(rest, p, q, both);
        let last = list.last();
        assert(both(last) == (p(last) && q(last)));
        if p(last) {
            let kept = rest.filter(p).push(last);
            assert(kept.drop_last() =~= rest.filter(p));
        }
    }
}

proof fn last_kept<T>(list: Seq<T>, keep: spec_fn(T) -> bool) -> (at: int)
    requires
        list.filter(keep).len() > 0,
    ensures
        0 <= at < list.len(),
        keep(list[at]),
        list[at] == list.filter(keep).last(),
        forall|j: int| at < j < list.len() ==> !keep(#[trigger] list[j]),
    decreases list.len(),
{
    reveal(Seq::filter);
    let rest = list.drop_last();
    if keep(list.last()) {
        list.len() - 1
    } else {
        let at = last_kept(rest, keep);
        assert forall|j: int| at < j < list.len() implies !keep(#[trigger] list[j]) by {
            if j < rest.len() {
                assert(rest[j] == list[j]);
            }
        }
        at
    }
}

proof fn grouped_words(
    ops: Seq<OpModel>,
    changes: Seq<ContentHash>,
    at: ExternalPosition,
    change: ContentHash,
)
    requires
        changes.no_duplicates(),
    ensures
        changes.contains(change) ==> words(deferred_tree::grouped(ops, changes), at, change)
            == words(ops, at, change),
        !changes.contains(change) ==> words(deferred_tree::grouped(ops, changes), at, change).len()
            == 0,
    decreases changes.len(),
{
    reveal(Seq::filter);
    let said = |op: OpModel| op.inode == at && op.change == change;
    if changes.len() > 0 {
        let rest = changes.drop_last();
        let last = changes.last();
        let own = |op: OpModel| op.change == last;
        grouped_words(ops, rest, at, change);
        let head = deferred_tree::grouped(ops, rest);
        let tail = deferred_tree::ops_of_change(ops, last);
        Seq::filter_distributes_over_add(head, tail, said);
        let both = |op: OpModel| own(op) && said(op);
        filtered_twice(ops, own, said, both);
        if last == change {
            filters_alike(ops, both, said);
            if rest.contains(change) {
                let k = rest.index_of(change);
                assert(changes[k] == changes[changes.len() - 1]);
            }
            assert(changes[changes.len() - 1] == change);
            assert(head.filter(said) + tail.filter(said) =~= words(ops, at, change));
        } else {
            let never = |op: OpModel| false;
            filters_alike(ops, both, never);
            nothing_kept(ops);
            assert(head.filter(said) + tail.filter(said) =~= head.filter(said));
            if changes.contains(change) {
                let k = changes.index_of(change);
                assert(rest[k] == change);
            }
            if rest.contains(change) {
                let k = rest.index_of(change);
                assert(changes[k] == change);
            }
        }
    }
}

proof fn nothing_kept<T>(list: Seq<T>)
    ensures
        list.filter(|x: T| false).len() == 0,
    decreases list.len(),
{
    reveal(Seq::filter);
    if list.len() > 0 {
        nothing_kept(list.drop_last());
    }
}


proof fn not_superseded(pristine: PristineModel, ops: Seq<OpModel>, i: int, j: int, w: int)
    requires
        0 <= j <= w < ops.len(),
        ops[w].change != ops[i].change,
        deferred_tree::superseded(pristine, ops, i, j) == Ok::<bool, TreeRefusal>(false),
    ensures
        deferred_tree::depends_on(pristine, ops[w].change, ops[i].change) == Ok::<
            bool,
            TreeRefusal,
        >(false),
    decreases w - j,
{
    if j < w {
        not_superseded(pristine, ops, i, j + 1, w);
    }
}

proof fn maximal_decides_each(
    pristine: PristineModel,
    ops: Seq<OpModel>,
    i: int,
    found: Seq<int>,
    x: int,
)
    requires
        0 <= i <= x < ops.len(),
        deferred_tree::maximal(pristine, ops, i, found) is Ok,
    ensures
        deferred_tree::superseded(pristine, ops, x, 0) is Ok,
    decreases x - i,
{
    if i < x {
        match deferred_tree::superseded(pristine, ops, i, 0) {
            Err(_) => {},
            Ok(true) => maximal_decides_each(pristine, ops, i + 1, found, x),
            Ok(false) => maximal_decides_each(pristine, ops, i + 1, found.push(i), x),
        }
    }
}

/// Among operations on one inode, of which one change depends on all the others,
/// the causally last one is the last of that change.
proof fn last_word_is_alone(
    pristine: PristineModel,
    shown: Seq<OpModel>,
    at: ExternalPosition,
    change: ContentHash,
) -> (last: int)
    requires
        pristine.dependency_first(),
        forall|i: int| 0 <= i < shown.len() ==> (#[trigger] shown[i]).inode == at,
        words(shown, at, change).len() > 0,
        forall|i: int|
            0 <= i < shown.len() && (#[trigger] shown[i]).change != change ==> descends(
                pristine,
                change,
                shown[i].change,
            ),
        deferred_tree::maximal(pristine, shown, 0, Seq::empty()) is Ok,
    ensures
        0 <= last < shown.len(),
        shown[last] == words(shown, at, change).last(),
        shown[last].change == change,
        ({
            let found = deferred_tree::maximal(pristine, shown, 0, Seq::empty())->Ok_0;
            found.len() > 0 && forall|j: int| 0 <= j < found.len() ==> #[trigger] found[j] == last
        }),
        forall|j: int| last < j < shown.len() ==> (#[trigger] shown[j]).change != change,
{
    let said = |op: OpModel| op.inode == at && op.change == change;
    let last = last_kept(shown, said);
    planner_laws::maximal_is_exact(pristine, shown, 0, Seq::empty());
    let found = deferred_tree::maximal(pristine, shown, 0, Seq::empty())->Ok_0;
    assert forall|x: int| 0 <= x < shown.len() implies (#[trigger] planner_laws::is_last(
        pristine,
        shown,
        x,
    )) == (x == last) by {
        maximal_decides_each(pristine, shown, 0, Seq::empty(), x);
        planner_laws::superseded_has_witness(pristine, shown, x, 0);
        if x != last {
            if shown[x].change == change {
                assert(said(shown[x]));
                assert(x < last);
                assert(planner_laws::supersedes(pristine, shown, last, x));
            } else {
                assert(descends(pristine, change, shown[x].change));
                if !deferred_tree::superseded(pristine, shown, x, 0)->Ok_0 {
                    not_superseded(pristine, shown, x, 0, last);
                    dependence_is_descent(pristine, change, shown[x].change, false);
                }
            }
        } else {
            assert forall|w: int| 0 <= w < shown.len() implies !(
            #[trigger] planner_laws::supersedes(pristine, shown, w, last)) by {
                if shown[w].change == change {
                    assert(said(shown[w]));
                } else if planner_laws::supersedes(pristine, shown, w, last) {
                    let chain = choose|chain: Seq<ContentHash>| #[trigger]
                        is_descent(pristine, chain) && chain[0] == change && chain.last()
                            == shown[w].change;
                    descent_goes_up(pristine, chain);
                    pristine.hashes().index_of_first_ensures(shown[w].change);
                    planner_laws::reached_stands_above(
                        pristine,
                        pristine.row(shown[w].change)->0,
                        0,
                        change,
                    );
                }
            }
        }
    }
    assert(planner_laws::is_last(pristine, shown, last));
    let k = choose|k: int| 0 <= k < found.len() && #[trigger] found[k] == last;
    assert forall|j: int| 0 <= j < found.len() implies #[trigger] found[j] == last by {
        assert(planner_laws::is_last(pristine, shown, found[j]));
    }
    assert forall|j: int| last < j < shown.len() implies (#[trigger] shown[j]).change != change by {
        if shown[j].change == change {
            assert(said(shown[j]));
        }
    }
    last
}

/// The visible operations of one inode, with those of one visible change.
proof fn shown_words(
    ops: Seq<OpModel>,
    visible: Seq<ContentHash>,
    at: ExternalPosition,
    change: ContentHash,
)
    requires
        visible.contains(change),
    ensures
        words(deferred_tree::visible_ops(ops, visible), at, change) == words(ops, at, change),
        forall|k: int|
            0 <= k < deferred_tree::visible_ops(ops, visible).len() ==> ops.contains(
                #[trigger] deferred_tree::visible_ops(ops, visible)[k],
            ) && visible.contains(deferred_tree::visible_ops(ops, visible)[k].change),
{
    let shows = |op: OpModel| visible.contains(op.change);
    let shown = ops.filter(shows);
    assert(shown == deferred_tree::visible_ops(ops, visible));
    let said = |op: OpModel| op.inode == at && op.change == change;
    let both = |op: OpModel| shows(op) && said(op);
    filtered_twice(ops, shows, said, both);
    filters_alike(ops, both, said);
    assert forall|k: int| 0 <= k < shown.len() implies ops.contains(#[trigger] shown[k])
        && visible.contains(shown[k].change) by {
        let m = planner_laws::kept_come_from(ops, shows, k);
        assert(ops[m] == shown[k]);
    }
}

/// Where the operations of one inode put it when one change has the last word
/// on it: where that change puts it last, or nowhere if it deletes it last.
pub(crate) proof fn last_word_decides(
    pristine: PristineModel,
    ops: Seq<OpModel>,
    visible: Seq<ContentHash>,
    at: ExternalPosition,
    change: ContentHash,
    desired: DesiredModel,
)
    requires
        pristine.dependency_first(),
        forall|i: int| 0 <= i < ops.len() ==> (#[trigger] ops[i]).inode == at,
        has_last_word(pristine, ops, visible, at, change),
        deferred_tree::desired_for(pristine, ops, visible, at) == Ok::<DesiredModel, TreeRefusal>(
            desired,
        ),
    ensures
        !desired.ambiguous,
        match words(ops, at, change).last().action {
            ActionModel::Place { path } => desired.desired_path == Some(path) && !desired.deleted
                && desired.last_present_path == Some(path),
            ActionModel::Delete => desired.desired_path is None && desired.deleted,
        },
{
    let shown = deferred_tree::visible_ops(ops, visible);
    shown_words(ops, visible, at, change);
    assert forall|i: int| 0 <= i < shown.len() implies (#[trigger] shown[i]).inode == at && (
    shown[i].change != change ==> descends(pristine, change, shown[i].change)) by {
        let m = ops.index_of(shown[i]);
        assert(ops[m] == shown[i]);
    }
    let last = last_word_is_alone(pristine, shown, at, change);
    let found = deferred_tree::maximal(pristine, shown, 0, Seq::empty())->Ok_0;
    assert(found[0] == last);
}

proof fn all_precede(
    pristine: PristineModel,
    ops: Seq<OpModel>,
    deletions: Seq<int>,
    last: int,
    change: ContentHash,
    s: int,
    found: Seq<OpModel>,
)
    requires
        pristine.dependency_first(),
        0 <= s <= ops.len(),
        0 <= last < ops.len(),
        ops[last].change == change,
        deletions.len() > 0,
        forall|d: int| 0 <= d < deletions.len() ==> #[trigger] deletions[d] == last,
        forall|i: int|
            0 <= i < ops.len() && (#[trigger] ops[i]).change != change ==> descends(
                pristine,
                change,
                ops[i].change,
            ),
        forall|i: int|
            0 <= i < ops.len() && (#[trigger] ops[i]).change == change ==> ops[i].action is Delete,
        deferred_tree::predecessors(pristine, ops, deletions, s, found) is Ok,
    ensures
        deferred_tree::predecessors(pristine, ops, deletions, s, found)->Ok_0 == found + ops.skip(
            s,
        ).filter(|op: OpModel| op.action is Place),
    decreases ops.len() - s,
{
    reveal(Seq::filter);
    let places = |op: OpModel| op.action is Place;
    let rest = ops.skip(s);
    if s == ops.len() {
        assert(rest =~= Seq::empty());
        assert(found + rest.filter(places) =~= found);
    } else {
        assert(rest =~= seq![ops[s]] + ops.skip(s + 1));
        let one = seq![ops[s]];
        Seq::filter_distributes_over_add(one, ops.skip(s + 1), places);
        assert(one.drop_last() =~= Seq::empty());
        reveal_with_fuel(Seq::filter, 2);
        if ops[s].action is Delete {
            assert(one.filter(places) =~= Seq::empty());
            all_precede(pristine, ops, deletions, last, change, s + 1, found);
            assert(rest.filter(places) =~= ops.skip(s + 1).filter(places));
        } else {
            assert(one.filter(places) =~= one);
            assert(deletions[0] == last);
            assert(ops[s].change != change);
            assert(descends(pristine, change, ops[s].change));
            match deferred_tree::depends_on(pristine, change, ops[s].change) {
                Ok(answer) => {
                    dependence_is_descent(pristine, change, ops[s].change, answer);
                },
                Err(_) => {},
            }
            let next = found.push(ops[s]);
            all_precede(pristine, ops, deletions, last, change, s + 1, next);
            assert(found + rest.filter(places) =~= next + ops.skip(s + 1).filter(places));
        }
    }
}

/// The path that a deleted inode last had is where the change that had the last
/// word before the deletion put it.
pub(crate) proof fn last_path_is_kept(
    pristine: PristineModel,
    ops: Seq<OpModel>,
    visible: Seq<ContentHash>,
    at: ExternalPosition,
    change: ContentHash,
    before: ContentHash,
    path: Seq<char>,
    desired: DesiredModel,
)
    requires
        pristine.dependency_first(),
        forall|i: int| 0 <= i < ops.len() ==> (#[trigger] ops[i]).inode == at,
        has_last_word(pristine, ops, visible, at, change),
        forall|i: int|
            0 <= i < ops.len() && (#[trigger] ops[i]).change == change ==> ops[i].action is Delete,
        visible.contains(before) && before != change,
        words(ops, at, before).len() > 0,
        words(ops, at, before).last().action == (ActionModel::Place { path }),
        forall|i: int|
            0 <= i < ops.len() && visible.contains((#[trigger] ops[i]).change) && ops[i].change
                != change && ops[i].change != before ==> descends(pristine, before, ops[i].change),
        deferred_tree::desired_for(pristine, ops, visible, at) == Ok::<DesiredModel, TreeRefusal>(
            desired,
        ),
    ensures
        desired.deleted && desired.last_present_path == Some(path),
{
    let shown = deferred_tree::visible_ops(ops, visible);
    shown_words(ops, visible, at, change);
    shown_words(ops, visible, at, before);
    assert forall|i: int| 0 <= i < shown.len() implies (#[trigger] shown[i]).inode == at && (
    shown[i].change != change ==> descends(pristine, change, shown[i].change)) && (shown[i].change
        == change ==> shown[i].action is Delete) && (shown[i].change != change && shown[i].change
        != before ==> descends(pristine, before, shown[i].change)) by {
        let m = ops.index_of(shown[i]);
        assert(ops[m] == shown[i]);
    }
    let last = last_word_is_alone(pristine, shown, at, change);
    let found = deferred_tree::maximal(pristine, shown, 0, Seq::empty())->Ok_0;
    assert(found[0] == last);
    all_precede(pristine, shown, found, last, change, 0, Seq::empty());
    let places = |op: OpModel| op.action is Place;
    let placed = shown.filter(places);
    assert(shown.skip(0) =~= shown);
    assert(Seq::<OpModel>::empty() + placed =~= placed);
    assert(deferred_tree::predecessors(pristine, shown, found, 0, Seq::empty())->Ok_0 == placed);
    let said = |op: OpModel| op.inode == at && op.change == before;
    let spot = last_kept(shown, said);
    assert(shown[spot] == words(ops, at, before).last());
    shown.lemma_filter_contains(places, spot);
    assert forall|i: int| 0 <= i < placed.len() implies (#[trigger] placed[i]).inode == at && (
    placed[i].change != before ==> descends(pristine, before, placed[i].change)) by {
        let m = planner_laws::kept_come_from(shown, places, i);
        assert(shown[m] == placed[i]);
    }
    let both = |op: OpModel| said(op) && places(op);
    let swapped = |op: OpModel| places(op) && said(op);
    filtered_twice(shown, said, places, both);
    filtered_twice(shown, places, said, swapped);
    filters_alike(shown, both, swapped);
    let said_list = shown.filter(said);
    assert(said_list == words(shown, at, before));
    assert(placed.filter(said) == said_list.filter(places));
    assert(words(placed, at, before) == placed.filter(said));
    kept_last(said_list, places);
    let end = last_word_is_alone(pristine, placed, at, before);
    let ends = deferred_tree::maximal(pristine, placed, 0, Seq::empty())->Ok_0;
    assert(ends[0] == end);
    assert(placed[end].action == (ActionModel::Place { path }));
}

proof fn kept_last<T>(list: Seq<T>, keep: spec_fn(T) -> bool)
    requires
        list.len() > 0,
        keep(list.last()),
    ensures
        list.filter(keep).len() > 0,
        list.filter(keep).last() == list.last(),
{
    reveal(Seq::filter);
}

/// Whether an operation on an inode names a path, as the one it had before or
/// as the one it gets.
pub open spec fn mentions(ops: Seq<OpModel>, at: ExternalPosition, path: Seq<char>) -> bool {
    exists|i: int|
        0 <= i < ops.len() && (#[trigger] ops[i]).inode == at && (ops[i].baseline_path == Some(path)
            || ops[i].action == ActionModel::Place { path })
}

proof fn baseline_is_mentioned(ops: Seq<OpModel>, at: ExternalPosition)
    requires
        forall|i: int| 0 <= i < ops.len() ==> (#[trigger] ops[i]).inode == at,
    ensures
        deferred_tree::first_baseline(ops) matches Some(path) ==> mentions(ops, at, path),
        deferred_tree::first_baseline(ops) is None ==> forall|i: int|
            0 <= i < ops.len() ==> (#[trigger] ops[i]).baseline_path is None,
    decreases ops.len(),
{
    if ops.len() > 0 {
        let rest = ops.drop_first();
        assert forall|i: int| 0 <= i < rest.len() implies (#[trigger] rest[i]).inode == at by {
            assert(rest[i] == ops[i + 1]);
        }
        baseline_is_mentioned(rest, at);
        if ops[0].baseline_path is None {
            if let Some(path) = deferred_tree::first_baseline(rest) {
                let i = choose|i: int|
                    0 <= i < rest.len() && (#[trigger] rest[i]).inode == at && (
                    rest[i].baseline_path == Some(path) || rest[i].action == ActionModel::Place {
                        path,
                    });
                assert(ops[i + 1] == rest[i]);
            }
            assert forall|i: int|
                0 <= i < ops.len() && deferred_tree::first_baseline(rest) is None implies (
            #[trigger] ops[i]).baseline_path is None by {
                if i > 0 {
                    assert(rest[i - 1] == ops[i]);
                }
            }
        }
    }
}

pub(crate) proof fn predecessors_are_placements(
    pristine: PristineModel,
    ops: Seq<OpModel>,
    deletions: Seq<int>,
    s: int,
    found: Seq<OpModel>,
)
    requires
        0 <= s,
        forall|k: int|
            0 <= k < found.len() ==> ops.contains(#[trigger] found[k]) && found[k].action is Place,
    ensures
        deferred_tree::predecessors(pristine, ops, deletions, s, found) matches Ok(placed)
            ==> forall|k: int|
            0 <= k < placed.len() ==> ops.contains(#[trigger] placed[k]) && placed[k].action
                is Place,
    decreases ops.len() - s,
{
    if s < ops.len() {
        if ops[s].action is Delete {
            predecessors_are_placements(pristine, ops, deletions, s + 1, found);
        } else {
            assert(ops.contains(ops[s]));
            predecessors_are_placements(pristine, ops, deletions, s + 1, found);
            predecessors_are_placements(pristine, ops, deletions, s + 1, found.push(ops[s]));
        }
    }
}

/// Every path that is planned for an inode is one that its operations mention,
/// and where no visible operation speaks of it its baseline stays.
pub(crate) proof fn planned_paths_are_mentioned(
    pristine: PristineModel,
    ops: Seq<OpModel>,
    visible: Seq<ContentHash>,
    at: ExternalPosition,
    desired: DesiredModel,
)
    requires
        pristine.dependency_first(),
        forall|i: int| 0 <= i < ops.len() ==> (#[trigger] ops[i]).inode == at,
        deferred_tree::desired_for(pristine, ops, visible, at) == Ok::<DesiredModel, TreeRefusal>(
            desired,
        ),
    ensures
        desired.desired_path matches Some(path) ==> mentions(ops, at, path),
        desired.last_present_path matches Some(path) ==> mentions(ops, at, path),
        forall|path: Seq<char>| #[trigger]
            desired.known_paths.contains(path) <==> mentions(ops, at, path),
        (forall|i: int| 0 <= i < ops.len() ==> !visible.contains((#[trigger] ops[i]).change))
            ==> desired.desired_path == deferred_tree::first_baseline(ops) && !desired.ambiguous,
        desired.ambiguous ==> desired.desired_path is None && !desired.deleted,
        desired.last_present_path is None ==> forall|i: int|
            0 <= i < ops.len() ==> (#[trigger] ops[i]).baseline_path is None,
{
    let shows = |op: OpModel| visible.contains(op.change);
    let shown = ops.filter(shows);
    assert(shown == deferred_tree::visible_ops(ops, visible));
    baseline_is_mentioned(ops, at);
    planner_laws::maximal_is_exact(pristine, shown, 0, Seq::empty());
    let last = deferred_tree::maximal(pristine, shown, 0, Seq::empty())->Ok_0;
    assert forall|path: Seq<char>| #[trigger] desired.known_paths.contains(path) <==> mentions(
        ops,
        at,
        path,
    ) by {
        if mentions(ops, at, path) {
            let i = choose|i: int|
                0 <= i < ops.len() && (#[trigger] ops[i]).inode == at && (ops[i].baseline_path
                    == Some(path) || ops[i].action == ActionModel::Place { path });
            assert(ops[i].baseline_path == Some(path) || ops[i].action == ActionModel::Place {
                path,
            });
        }
    }
    if last.len() > 0 {
        let from = planner_laws::kept_come_from(ops, shows, last[0]);
        assert(ops[from] == shown[last[0]]);
        if shown[last[0]].action is Delete && desired.deleted {
            predecessors_are_placements(pristine, shown, last, 0, Seq::empty());
            let placed = deferred_tree::predecessors(pristine, shown, last, 0, Seq::empty())->Ok_0;
            planner_laws::maximal_is_exact(pristine, placed, 0, Seq::empty());
            let ends = deferred_tree::maximal(pristine, placed, 0, Seq::empty())->Ok_0;
            if ends.len() > 0 {
                let op = placed[ends[0]];
                assert(shown.contains(op));
                let m = shown.index_of(op);
                let source = planner_laws::kept_come_from(ops, shows, m);
                assert(ops[source] == op);
            }
        }
    }
}

/// The hashes of visible changes.
pub open spec fn hashes_of(pristine: PristineModel, changes: Seq<NodeId>) -> Seq<ContentHash> {
    changes.map_values(|id: NodeId| pristine.external(id)->0)
}

pub(crate) proof fn hashes_are_listed(
    pristine: PristineModel,
    changes: Seq<NodeId>,
    i: int,
    hashes: Seq<ContentHash>,
)
    requires
        0 <= i <= changes.len(),
        hashes == hashes_of(pristine, changes).take(i),
    ensures
        deferred_tree::hashes_from(pristine, changes, i, hashes) matches Ok(all) ==> all
            == hashes_of(pristine, changes) && forall|k: int|
            i <= k < changes.len() ==> pristine.external(#[trigger] changes[k]) is Some,
    decreases changes.len() - i,
{
    let all = hashes_of(pristine, changes);
    if i < changes.len() {
        if let Some(hash) = pristine.external(changes[i]) {
            assert(all.take(i + 1) =~= all.take(i).push(hash));
            hashes_are_listed(pristine, changes, i + 1, hashes.push(hash));
        }
    } else {
        assert(all.take(i) =~= all);
    }
}

/// What a journal's plan holds: each inode that it speaks of, once, with what
/// the inode's own operations come to. These are, change by change, those of
/// the journal.
pub(crate) proof fn plan_speaks(
    pristine: PristineModel,
    ops: Seq<OpModel>,
    changes: Seq<NodeId>,
    plan: Seq<(ExternalPosition, DesiredModel)>,
    at: ExternalPosition,
) -> (own: Seq<OpModel>)
    requires
        deferred_tree::journal_plan(pristine, ops, changes) == Ok::<_, TreeRefusal>(plan),
    ensures
        forall|k: int| 0 <= k < changes.len() ==> pristine.external(#[trigger] changes[k]) is Some,
        forall|i: int| 0 <= i < own.len() ==> (#[trigger] own[i]).inode == at && ops.contains(
            own[i],
        ),
        forall|i: int| 0 <= i < ops.len() && (#[trigger] ops[i]).inode == at ==> own.contains(ops[i]),
        forall|change: ContentHash| #[trigger] words(own, at, change) == words(ops, at, change),
        own.len() > 0 ==> (pristine::first_value(plan, at) matches Some(desired)
            && deferred_tree::desired_for(pristine, own, hashes_of(pristine, changes), at) == Ok::<
            DesiredModel,
            TreeRefusal,
        >(desired)),
        own.len() == 0 ==> pristine::first_value(plan, at) is None,
        plan.map_values(|e: (ExternalPosition, DesiredModel)| e.0).contains(at) <==> own.len() > 0,
        plan.map_values(|e: (ExternalPosition, DesiredModel)| e.0).no_duplicates(),
{
    assert(hashes_of(pristine, changes).take(0) =~= Seq::empty());
    hashes_are_listed(pristine, changes, 0, Seq::empty());
    let hashes = hashes_of(pristine, changes);
    let ordered = deferred_tree::causal_order(pristine, ops)->Ok_0;
    deferred_tree::causal_order_puts_dependencies_first(pristine, ops);
    let order = choose|order: Seq<ContentHash>| #[trigger]
        deferred_tree::grouped(ops, order) == ordered && deferred_tree::dependencies_come_first(
            pristine,
            deferred_tree::changes_of(ops),
            order,
        ) && order.to_set() == deferred_tree::changes_of(ops).to_set();
    let own = deferred_tree::ops_of(ordered, at);
    let of_inode = |op: OpModel| op.inode == at;
    assert(own == ordered.filter(of_inode));
    deferred_tree::causal_order_permutes(pristine, ops);
    assert forall|i: int| 0 <= i < own.len() implies (#[trigger] own[i]).inode == at
        && ops.contains(own[i]) by {
        let k = planner_laws::kept_come_from(ordered, of_inode, i);
        vstd::seq_lib::to_multiset_contains(ordered, own[i]);
        vstd::seq_lib::to_multiset_contains(ops, own[i]);
        assert(ordered[k] == own[i]);
        assert(ordered.contains(own[i]));
    }
    assert forall|i: int| 0 <= i < ops.len() && (#[trigger] ops[i]).inode == at implies own.contains(
        ops[i],
    ) by {
        vstd::seq_lib::to_multiset_contains(ordered, ops[i]);
        vstd::seq_lib::to_multiset_contains(ops, ops[i]);
        assert(ops.contains(ops[i]));
        let k = ordered.index_of(ops[i]);
        ordered.lemma_filter_contains(of_inode, k);
    }
    assert forall|change: ContentHash| #[trigger] words(own, at, change) == words(
        ops,
        at,
        change,
    ) by {
        let said = |op: OpModel| op.inode == at && op.change == change;
        let both = |op: OpModel| of_inode(op) && said(op);
        filtered_twice(ordered, of_inode, said, both);
        filters_alike(ordered, both, said);
        grouped_words(ops, order, at, change);
        if !order.contains(change) {
            assert(!order.to_set().contains(change));
            assert(!deferred_tree::changes_of(ops).contains(change));
            deferred_tree::changes_of_lists_each_once(ops);
            let kept = words(ops, at, change);
            if kept.len() > 0 {
                let k = planner_laws::kept_come_from(ops, said, 0);
                assert(deferred_tree::changes_of(ops).contains(ops[k].change));
            }
            assert(words(own, at, change) =~= kept);
        }
    }
    let inodes = deferred_tree::inodes_of(ordered);
    journal_laws::planned_inodes(pristine, ordered, hashes, inodes, 0, Seq::empty());
    journal_laws::named_inodes(ordered, at);
    let keys = plan.map_values(|e: (ExternalPosition, DesiredModel)| e.0);
    assert(keys =~= inodes);
    inodes_are_listed_once(ordered);
    if own.len() > 0 {
        let k = planner_laws::kept_come_from(ordered, of_inode, 0);
        assert(ordered[k].inode == at);
        let m = inodes.index_of(at);
        assert(plan[m].0 == at);
        value_is_found(plan, at, m);
    } else {
        if inodes.contains(at) {
            let k = choose|k: int| 0 <= k < ordered.len() && (#[trigger] ordered[k]).inode == at;
            ordered.lemma_filter_contains(of_inode, k);
        }
        value_is_missing(plan, at);
    }
    own
}

proof fn inodes_are_listed_once(ops: Seq<OpModel>)
    ensures
        deferred_tree::inodes_of(ops).no_duplicates(),
    decreases ops.len(),
{
    if ops.len() > 0 {
        inodes_are_listed_once(ops.drop_last());
    }
}

pub(crate) proof fn value_is_found<K, V>(pairs: Seq<(K, V)>, key: K, m: int)
    requires
        0 <= m < pairs.len(),
        pairs[m].0 == key,
        pairs.map_values(|e: (K, V)| e.0).no_duplicates(),
    ensures
        pristine::first_value(pairs, key) == Some(pairs[m].1),
    decreases pairs.len(),
{
    let keys = pairs.map_values(|e: (K, V)| e.0);
    if m > 0 {
        assert(keys[0] != keys[m]);
        let rest = pairs.drop_first();
        assert(rest.map_values(|e: (K, V)| e.0) =~= keys.drop_first());
        assert(rest[m - 1] == pairs[m]);
        value_is_found(rest, key, m - 1);
    }
}

proof fn value_is_missing<K, V>(pairs: Seq<(K, V)>, key: K)
    requires
        !pairs.map_values(|e: (K, V)| e.0).contains(key),
    ensures
        pristine::first_value(pairs, key) is None,
    decreases pairs.len(),
{
    let keys = pairs.map_values(|e: (K, V)| e.0);
    if pairs.len() > 0 {
        assert(keys[0] == pairs[0].0);
        let rest = pairs.drop_first();
        assert(rest.map_values(|e: (K, V)| e.0) =~= keys.drop_first());
        if rest.map_values(|e: (K, V)| e.0).contains(key) {
            let m = rest.map_values(|e: (K, V)| e.0).index_of(key);
            assert(keys[m + 1] == key);
        }
        value_is_missing(rest, key);
    }
}


/// An inode of which no visible operation speaks stays at its baseline.
pub(crate) proof fn unspoken_stays(
    pristine: PristineModel,
    ops: Seq<OpModel>,
    visible: Seq<ContentHash>,
    at: ExternalPosition,
    desired: DesiredModel,
)
    requires
        forall|i: int| 0 <= i < ops.len() ==> !visible.contains((#[trigger] ops[i]).change),
        deferred_tree::desired_for(pristine, ops, visible, at) == Ok::<DesiredModel, TreeRefusal>(
            desired,
        ),
    ensures
        !desired.ambiguous,
        !desired.deleted,
        desired.desired_path == deferred_tree::first_baseline(ops),
        desired.last_present_path == deferred_tree::first_baseline(ops),
{
    let shows = |op: OpModel| visible.contains(op.change);
    let never = |op: OpModel| false;
    filters_alike(ops, shows, never);
    nothing_kept(ops);
    assert(deferred_tree::visible_ops(ops, visible) == ops.filter(shows));
}


/// Whether a visible change speaks of an inode and no other visible change that
/// does depends on it.
pub open spec fn has_open_word(
    pristine: PristineModel,
    ops: Seq<OpModel>,
    visible: Seq<ContentHash>,
    at: ExternalPosition,
    change: ContentHash,
) -> bool {
    &&& visible.contains(change)
    &&& words(ops, at, change).len() > 0
    &&& forall|i: int|
        0 <= i < ops.len() && (#[trigger] ops[i]).inode == at && visible.contains(ops[i].change)
            && ops[i].change != change ==> !descends(pristine, ops[i].change, change)
}

proof fn open_word_is_last(
    pristine: PristineModel,
    ops: Seq<OpModel>,
    visible: Seq<ContentHash>,
    at: ExternalPosition,
    change: ContentHash,
) -> (last: int)
    requires
        pristine.dependency_first(),
        forall|i: int| 0 <= i < ops.len() ==> (#[trigger] ops[i]).inode == at,
        has_open_word(pristine, ops, visible, at, change),
    ensures
        ({
            let shown = deferred_tree::visible_ops(ops, visible);
            &&& 0 <= last < shown.len()
            &&& shown[last] == words(ops, at, change).last()
            &&& planner_laws::is_last(pristine, shown, last)
        }),
{
    let shows = |op: OpModel| visible.contains(op.change);
    let shown = ops.filter(shows);
    assert(shown == deferred_tree::visible_ops(ops, visible));
    let said = |op: OpModel| op.inode == at && op.change == change;
    let both = |op: OpModel| shows(op) && said(op);
    filtered_twice(ops, shows, said, both);
    filters_alike(ops, both, said);
    let last = last_kept(shown, said);
    assert forall|w: int| 0 <= w < shown.len() implies !(#[trigger] planner_laws::supersedes(
        pristine,
        shown,
        w,
        last,
    )) by {
        let source = planner_laws::kept_come_from(ops, shows, w);
        assert(ops[source] == shown[w]);
        if shown[w].change == change {
            assert(said(shown[w]));
        } else if planner_laws::supersedes(pristine, shown, w, last) {
            dependence_is_descent(pristine, shown[w].change, change, true);
        }
    }
    last
}

/// Two open words that say different things leave the inode undecided.
pub(crate) proof fn open_words_disagree(
    pristine: PristineModel,
    ops: Seq<OpModel>,
    visible: Seq<ContentHash>,
    at: ExternalPosition,
    a: ContentHash,
    b: ContentHash,
    desired: DesiredModel,
)
    requires
        pristine.dependency_first(),
        forall|i: int| 0 <= i < ops.len() ==> (#[trigger] ops[i]).inode == at,
        has_open_word(pristine, ops, visible, at, a),
        has_open_word(pristine, ops, visible, at, b),
        words(ops, at, a).last().action != words(ops, at, b).last().action,
        deferred_tree::desired_for(pristine, ops, visible, at) == Ok::<DesiredModel, TreeRefusal>(
            desired,
        ),
    ensures
        desired.ambiguous,
        desired.desired_path is None,
        !desired.deleted,
        desired.last_present_path == deferred_tree::first_baseline(ops),
{
    let i = open_word_is_last(pristine, ops, visible, at, a);
    let j = open_word_is_last(pristine, ops, visible, at, b);
    planner_laws::unrelated_claims_are_ambiguous(pristine, ops, visible, at, i, j);
}

} // verus!
