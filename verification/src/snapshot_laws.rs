//! What holds of successive snapshots and of promotions.

use crate::pristine::PristineModel;
use crate::repository;
use crate::repository::{Repository, StoredChange, ViewScope, ViewState};
use crate::snapshot;
use crate::snapshot::{
    private_plan, private_view, promotion_plan, snapshot_plan, LifecycleModel, RecordOptions,
    StateModel, ViewAction,
};
use crate::types::{ContentHash, NodeId};
use vstd::prelude::*;

verus! {

/// Whether `after` is `repo` with the private view of a working copy put in
/// order.
pub open spec fn put_in_order(
    repo: Repository,
    after: Repository,
    id: Seq<char>,
    action: ViewAction,
) -> bool {
    let views = repo.views@;
    &&& after == (Repository { views: after.views, ..repo })
    &&& match action {
        ViewAction::Keep => after.views@ == views,
        ViewAction::Reparent { parent } => repo.view_at(private_view(id)) matches Some(own)
            && after.views@.len() == views.len() && (forall|k: int|
            0 <= k < views.len() && k != own ==> #[trigger] after.views@[k] == views[k])
            && after.views@[own] == (ViewState { parent: Some(parent), ..views[own] }),
        ViewAction::Create { parent } => after.views@.len() == views.len() + 1 && (forall|k: int|
            0 <= k < views.len() ==> #[trigger] after.views@[k] == views[k]) && ({
            let own = after.views@[views.len() as int];
            // A new view has an identifier of its own.
            own.name@ == private_view(id) && own.scope == ViewScope::Draft && own.parent == Some(
                parent,
            ) && own.changes@.len() == 0 && forall|w: int|
                0 <= w < repo.working_copies@.len() ==> (
                #[trigger] repo.working_copies@[w]).desired_view != own.id
        }),
    }
}

/// A view's log without a change.
pub open spec fn log_without(
    tables: PristineModel,
    changes: Seq<NodeId>,
    hash: ContentHash,
) -> Seq<NodeId> {
    changes.filter(|m: NodeId| tables.external(m) != Some(hash))
}

/// The log of a view after a change was recorded under a lifecycle: what the
/// lifecycle takes out of this view is gone, and the change stands last in the
/// view that it enters.
pub open spec fn log_after(
    tables: PristineModel,
    view: ViewState,
    lifecycle: LifecycleModel,
    baseline_view: Seq<char>,
    id: NodeId,
) -> Seq<NodeId> {
    let kept = match lifecycle.removed() {
        Some((name, hash)) => if name == view.name@ {
            log_without(tables, view.changes@, hash)
        } else {
            view.changes@
        },
        None => view.changes@,
    };
    if lifecycle.target(baseline_view) == view.name@ {
        kept.push(id)
    } else {
        kept
    }
}

/// Whether `after` is `before` with one change recorded under a lifecycle.
pub open spec fn recorded_into(
    before: Repository,
    after: Repository,
    lifecycle: LifecycleModel,
    baseline_view: Seq<char>,
    id: NodeId,
    hash: ContentHash,
) -> bool {
    let fresh = after.changes@[before.changes@.len() as int];
    &&& after == (Repository {
        views: after.views,
        changes: after.changes,
        pristine: after.pristine,
        ..before
    })
    &&& before.change_at(hash) is None
    &&& after.changes@.len() == before.changes@.len() + 1
    &&& forall|k: int|
        0 <= k < before.changes@.len() ==> #[trigger] after.changes@[k] == before.changes@[k]
    &&& fresh.hash == hash
    &&& fresh.kind.owner() == lifecycle.owner()
    &&& fresh.supersedes == lifecycle.superseded()
    &&& after.pristine@.external(id) == Some(hash)
    &&& after.views@.len() == before.views@.len()
    &&& forall|k: int|
        0 <= k < before.views@.len() ==> {
            let old = before.views@[k];
            let new = #[trigger] after.views@[k];
            new.id == old.id && new.name@ == old.name@ && new.scope == old.scope && new.parent
                == old.parent && new.changes@ == log_after(
                before.pristine@,
                old,
                lifecycle,
                baseline_view,
                id,
            )
        }
}

proof fn names_decide(a: Seq<ViewState>, b: Seq<ViewState>, name: Seq<char>, i: int)
    requires
        0 <= i,
        a.len() == b.len(),
        forall|k: int| 0 <= k < a.len() ==> (#[trigger] a[k]).name@ == b[k].name@,
    ensures
        repository::view_from(a, name, i) == repository::view_from(b, name, i),
    decreases a.len() - i,
{
    if i < a.len() {
        assert(a[i].name@ == b[i].name@);
        names_decide(a, b, name, i + 1);
    }
}

proof fn identifiers_decide(a: Seq<ViewState>, b: Seq<ViewState>, id: u64, i: int)
    requires
        0 <= i,
        a.len() == b.len(),
        forall|k: int| 0 <= k < a.len() ==> (#[trigger] a[k]).id == b[k].id,
    ensures
        repository::view_id_from(a, id, i) == repository::view_id_from(b, id, i),
        repository::view_id_from(a, id, i) matches Some(k) ==> 0 <= k < a.len(),
    decreases a.len() - i,
{
    if i < a.len() {
        assert(a[i].id == b[i].id);
        identifiers_decide(a, b, id, i + 1);
    }
}

proof fn one_more_identifier(a: Seq<ViewState>, b: Seq<ViewState>, id: u64, i: int)
    requires
        0 <= i <= a.len(),
        b.len() == a.len() + 1,
        forall|k: int| 0 <= k < a.len() ==> (#[trigger] b[k]) == a[k],
        b[a.len() as int].id != id,
    ensures
        repository::view_id_from(b, id, i) == repository::view_id_from(a, id, i),
        repository::view_id_from(a, id, i) matches Some(k) ==> 0 <= k < a.len(),
    decreases a.len() - i,
{
    if i < a.len() {
        assert(b[i] == a[i]);
        one_more_identifier(a, b, id, i + 1);
    } else {
        assert(repository::view_id_from(b, id, i + 1) is None);
    }
}

proof fn found_record(records: Seq<repository::WorkingCopyRecord>, id: Seq<char>, i: int)
    requires
        0 <= i,
    ensures
        repository::record_from(records, id, i) matches Some(k) ==> 0 <= k < records.len(),
    decreases records.len() - i,
{
    if i < records.len() {
        found_record(records, id, i + 1);
    }
}

proof fn baselines_agree(repo: Repository, after: Repository, id: Seq<char>)
    requires
        after.working_copy == repo.working_copy,
        after.working_copies == repo.working_copies,
        after.views@.len() == repo.views@.len(),
        forall|k: int|
            0 <= k < repo.views@.len() ==> (#[trigger] repo.views@[k]).id == after.views@[k].id
                && repo.views@[k].name@ == after.views@[k].name@,
    ensures
        snapshot::baseline(after, id) == snapshot::baseline(repo, id),
{
    if let Some(w) = repository::record_from(repo.working_copies@, id, 0) {
        identifiers_decide(repo.views@, after.views@, repo.working_copies@[w].desired_view, 0);
    }
}

proof fn found_view(views: Seq<ViewState>, name: Seq<char>, i: int)
    requires
        0 <= i,
    ensures
        repository::view_from(views, name, i) matches Some(k) ==> i <= k < views.len()
            && views[k].name@ == name,
    decreases views.len() - i,
{
    if i < views.len() {
        found_view(views, name, i + 1);
    }
}

proof fn one_more_view(a: Seq<ViewState>, b: Seq<ViewState>, name: Seq<char>, i: int)
    requires
        0 <= i <= a.len(),
        b.len() == a.len() + 1,
        forall|k: int| 0 <= k < a.len() ==> (#[trigger] b[k]) == a[k],
    ensures
        repository::view_from(b, name, i) == match repository::view_from(a, name, i) {
            Some(k) => Some(k),
            None => if b[a.len() as int].name@ == name {
                Some(a.len() as int)
            } else {
                None
            },
        },
    decreases a.len() - i,
{
    if i < a.len() {
        assert(b[i] == a[i]);
        one_more_view(a, b, name, i + 1);
    } else {
        assert(repository::view_from(b, name, i + 1) is None);
    }
}

proof fn fresh_change_is_found(
    a: Seq<StoredChange>,
    b: Seq<StoredChange>,
    hash: ContentHash,
    i: int,
)
    requires
        0 <= i <= a.len(),
        b.len() == a.len() + 1,
        forall|k: int| 0 <= k < a.len() ==> (#[trigger] b[k]) == a[k],
        b[a.len() as int].hash == hash,
        repository::change_from(a, hash, i) is None,
    ensures
        repository::change_from(b, hash, i) == Some(a.len() as int),
    decreases a.len() - i,
{
    if i < a.len() {
        assert(b[i] == a[i]);
        fresh_change_is_found(a, b, hash, i + 1);
    }
}

/// The private view, once put in order, stays as it is: an immediate second
/// inspection finds the same state, and nothing to do.
pub proof fn private_view_stays_in_order(
    repo: Repository,
    after: Repository,
    id: Seq<char>,
    state: StateModel,
    action: ViewAction,
)
    requires
        private_plan(repo, id) == Ok::<_, snapshot::SnapshotFault>((state, action)),
        put_in_order(repo, after, id, action),
    ensures
        private_plan(after, id) == Ok::<_, snapshot::SnapshotFault>((state, ViewAction::Keep)),
{
    let name = snapshot::baseline(repo, id)->Ok_0;
    found_view(repo.views@, name, 0);
    found_view(repo.views@, private_view(id), 0);
    assert(after.pristine@ == repo.pristine@);
    assert(after.changes@ == repo.changes@);
    match action {
        ViewAction::Keep => {},
        ViewAction::Reparent { parent } => {
            let own = repo.view_at(private_view(id))->0;
            assert forall|k: int| 0 <= k < repo.views@.len() implies (
            #[trigger] repo.views@[k]).name@ == after.views@[k].name@ by {
                if k != own {
                    assert(after.views@[k] == repo.views@[k]);
                }
            }
            assert forall|k: int| 0 <= k < repo.views@.len() implies (
            #[trigger] repo.views@[k]).id == after.views@[k].id && repo.views@[k].name@
                == after.views@[k].name@ by {
                if k != own {
                    assert(after.views@[k] == repo.views@[k]);
                }
            }
            baselines_agree(repo, after, id);
            names_decide(repo.views@, after.views@, name, 0);
            names_decide(repo.views@, after.views@, private_view(id), 0);
            let base = repo.view_at(name)->0;
            if base != own {
                assert(after.views@[base] == repo.views@[base]);
            }
        },
        ViewAction::Create { parent } => {
            found_record(repo.working_copies@, id, 0);
            let w = repository::record_from(repo.working_copies@, id, 0)->0;
            let wanted = repo.working_copies@[w].desired_view;
            one_more_identifier(repo.views@, after.views@, wanted, 0);
            assert(after.desired_view(id) == repo.desired_view(id)) by {
                if let Some(k) = repository::view_id_from(repo.views@, wanted, 0) {
                    assert(after.views@[k] == repo.views@[k]);
                }
            }
            one_more_view(repo.views@, after.views@, name, 0);
            one_more_view(repo.views@, after.views@, private_view(id), 0);
            let base = repo.view_at(name)->0;
            assert(after.views@[base] == repo.views@[base]);
        },
    }
}

proof fn only_change_goes(tables: PristineModel, changes: Seq<NodeId>, hash: ContentHash)
    requires
        changes.len() <= 1,
        changes.len() == 1 ==> tables.external(changes[0]) == Some(hash),
    ensures
        log_without(tables, changes, hash).len() == 0,
{
    let keep = |m: NodeId| tables.external(m) != Some(hash);
    reveal_with_fuel(Seq::filter, 2);
    if changes.len() == 1 {
        assert(changes.drop_last() =~= Seq::<NodeId>::empty());
        assert(!keep(changes.last()));
        assert(changes.drop_last().filter(keep).len() == 0);
        assert(changes.filter(keep) == changes.drop_last().filter(keep));
    }
}

proof fn private_log(repo: Repository, id: Seq<char>, state: StateModel) -> (own: int)
    requires
        private_plan(repo, id) == Ok::<_, snapshot::SnapshotFault>((state, ViewAction::Keep)),
    ensures
        repo.view_at(private_view(id)) == Some(own),
        0 <= own < repo.views@.len(),
        repo.views@[own].name@ == private_view(id),
        repo.views@[own].scope == ViewScope::Draft,
        repo.views@[own].changes@.len() <= 1,
        repo.views@[own].changes@.len() == 0 <==> state.head is None && state.remainder is None,
        repo.views@[own].changes@.len() == 1 ==> (state.head is None || state.remainder is None)
            && repo.pristine@.external(repo.views@[own].changes@[0]) == (if state.head is Some {
            state.head
        } else {
            state.remainder
        }),
        state.view == private_view(id),
{
    found_view(repo.views@, private_view(id), 0);
    repo.view_at(private_view(id))->0
}

/// After a snapshot was recorded, it alone stands in the private view, as the
/// working copy's own. A next snapshot supersedes it and takes it out.
pub proof fn snapshot_stands_alone(
    repo: Repository,
    after: Repository,
    id: Seq<char>,
    options: RecordOptions,
    change: NodeId,
    hash: ContentHash,
)
    requires
        private_plan(repo, id) matches Ok((_, ViewAction::Keep)),
        snapshot_plan(repo, id, options) matches Ok((_, baseline_view, lifecycle))
            && recorded_into(repo, after, lifecycle, baseline_view, change, hash),
    ensures
        after.view_at(private_view(id)) matches Some(own) && after.views@[own].changes@ == seq![
            change,
        ],
        private_plan(after, id) matches Ok((state, ViewAction::Keep)) && state.head == Some(hash)
            && state.remainder is None,
        snapshot_plan(after, id, options) matches Ok((ViewAction::Keep, _, next))
            && next.superseded() == Some(hash) && next.removed() == Some((private_view(id), hash))
            && next.owner() == Some(id),
        snapshot::supersedes(after, hash) == (private_plan(repo, id)->Ok_0).0.head,
        after.change_at(hash) matches Some(i) && after.changes@[i].kind.owner() == Some(id),
{
    let state = (private_plan(repo, id)->Ok_0).0;
    let (_, baseline_view, lifecycle) = snapshot_plan(repo, id, options)->Ok_0;
    let own = private_log(repo, id, state);
    let name = snapshot::baseline(repo, id)->Ok_0;
    found_view(repo.views@, name, 0);
    assert forall|k: int| 0 <= k < repo.views@.len() implies (#[trigger] repo.views@[k]).name@
        == after.views@[k].name@ by {
        assert(after.views@[k].name@ == repo.views@[k].name@);
    }
    assert forall|k: int| 0 <= k < repo.views@.len() implies (#[trigger] repo.views@[k]).id
        == after.views@[k].id && repo.views@[k].name@ == after.views@[k].name@ by {
        assert(after.views@[k].name@ == repo.views@[k].name@);
    }
    baselines_agree(repo, after, id);
    names_decide(repo.views@, after.views@, name, 0);
    names_decide(repo.views@, after.views@, private_view(id), 0);
    let held = repo.views@[own].changes@;
    let log = after.views@[own].changes@;
    assert(log == log_after(repo.pristine@, repo.views@[own], lifecycle, baseline_view, change));
    match lifecycle.removed() {
        Some((view, gone)) => {
            only_change_goes(repo.pristine@, held, gone);
            assert(log_without(repo.pristine@, held, gone) =~= Seq::<NodeId>::empty());
        },
        None => {
            assert(held =~= Seq::<NodeId>::empty());
        },
    }
    assert(log =~= seq![change]);
    fresh_change_is_found(repo.changes@, after.changes@, hash, 0);
    let base = repo.view_at(name)->0;
    assert(after.views@[base].id == repo.views@[base].id);
}

/// Two snapshots in a row: both are the working copy's own, the first
/// supersedes what was the head, the second supersedes the first, and the
/// second alone stays in the private view.
pub proof fn second_snapshot_supersedes_the_first(
    start: Repository,
    repo: Repository,
    middle: Repository,
    last: Repository,
    id: Seq<char>,
    options: RecordOptions,
    first: (NodeId, ContentHash),
    second: (NodeId, ContentHash),
)
    requires
        snapshot_plan(start, id, options) matches Ok((action, baseline_view, lifecycle))
            && put_in_order(start, repo, id, action) && recorded_into(
            repo,
            middle,
            lifecycle,
            baseline_view,
            first.0,
            first.1,
        ),
        snapshot_plan(middle, id, options) matches Ok((_, baseline_view, lifecycle))
            && recorded_into(middle, last, lifecycle, baseline_view, second.0, second.1),
    ensures
        snapshot::supersedes(middle, first.1) == (private_plan(start, id)->Ok_0).0.head,
        snapshot::supersedes(last, second.1) == Some(first.1),
        middle.change_at(first.1) matches Some(i) && middle.changes@[i].kind.owner() == Some(id),
        last.change_at(second.1) matches Some(i) && last.changes@[i].kind.owner() == Some(id),
        last.view_at(private_view(id)) matches Some(own) && last.views@[own].changes@ == seq![
            second.0,
        ],
{
    let (state, action) = private_plan(start, id)->Ok_0;
    private_view_stays_in_order(start, repo, id, state, action);
    snapshot_stands_alone(repo, middle, id, options, first.0, first.1);
    snapshot_stands_alone(middle, last, id, options, second.0, second.1);
}

/// A snapshot that was recorded against its durable baseline, so that it
/// depends on durable changes only, does not depend on the snapshot before it.
pub proof fn snapshots_do_not_depend_on_each_other(
    repo: Repository,
    after: Repository,
    id: Seq<char>,
    options: RecordOptions,
    first: (NodeId, ContentHash),
    next: StoredChange,
)
    requires
        private_plan(repo, id) matches Ok((_, ViewAction::Keep)),
        snapshot_plan(repo, id, options) matches Ok((_, baseline_view, lifecycle))
            && recorded_into(repo, after, lifecycle, baseline_view, first.0, first.1),
        forall|d: ContentHash| #[trigger]
            next.dependencies@.contains(d) ==> snapshot::durable(after, d),
    ensures
        !next.dependencies@.contains(first.1),
{
    snapshot_stands_alone(repo, after, id, options, first.0, first.1);
}

/// Recording that would not be saved and applied at once is refused, whatever
/// there is to record.
pub proof fn partial_recording_is_refused(repo: Repository, id: Seq<char>, options: RecordOptions)
    requires
        !options.save_to_store || !options.apply_after_record,
    ensures
        snapshot_plan(repo, id, options) is Err,
        promotion_plan(repo, id, options) is Err,
{
}

/// A promotion moves the snapshot's place to the baseline: the promoted change
/// is durable, supersedes nothing and stands last in the baseline view, and
/// the private view is empty.
pub proof fn promotion_empties_the_private_view(
    repo: Repository,
    after: Repository,
    id: Seq<char>,
    options: RecordOptions,
    change: NodeId,
    hash: ContentHash,
)
    requires
        private_plan(repo, id) matches Ok((state, ViewAction::Keep)) && state.baseline_view
            != private_view(id),
        promotion_plan(repo, id, options) matches Ok((_, baseline_view, lifecycle))
            && recorded_into(repo, after, lifecycle, baseline_view, change, hash),
    ensures
        after.view_at(private_view(id)) matches Some(own) && after.views@[own].changes@.len() == 0,
        private_plan(after, id) matches Ok((state, ViewAction::Keep)) && state.head is None
            && state.remainder is None,
        after.view_at((private_plan(repo, id)->Ok_0).0.baseline_view) matches Some(base)
            && after.views@[base].changes@ == repo.views@[base].changes@.push(change),
        after.change_at(hash) matches Some(i) && after.changes@[i].kind.owner() is None
            && after.changes@[i].supersedes is None,
{
    let state = (private_plan(repo, id)->Ok_0).0;
    let (_, baseline_view, lifecycle) = promotion_plan(repo, id, options)->Ok_0;
    let own = private_log(repo, id, state);
    let name = snapshot::baseline(repo, id)->Ok_0;
    found_view(repo.views@, name, 0);
    assert forall|k: int| 0 <= k < repo.views@.len() implies (#[trigger] repo.views@[k]).name@
        == after.views@[k].name@ by {
        assert(after.views@[k].name@ == repo.views@[k].name@);
    }
    assert forall|k: int| 0 <= k < repo.views@.len() implies (#[trigger] repo.views@[k]).id
        == after.views@[k].id && repo.views@[k].name@ == after.views@[k].name@ by {
        assert(after.views@[k].name@ == repo.views@[k].name@);
    }
    baselines_agree(repo, after, id);
    names_decide(repo.views@, after.views@, name, 0);
    names_decide(repo.views@, after.views@, private_view(id), 0);
    let held = repo.views@[own].changes@;
    let gone = (lifecycle.removed()->0).1;
    only_change_goes(repo.pristine@, held, gone);
    assert(after.views@[own].changes@ == log_after(
        repo.pristine@,
        repo.views@[own],
        lifecycle,
        baseline_view,
        change,
    ));
    let base = repo.view_at(name)->0;
    assert(after.views@[base].changes@ == log_after(
        repo.pristine@,
        repo.views@[base],
        lifecycle,
        baseline_view,
        change,
    ));
    fresh_change_is_found(repo.changes@, after.changes@, hash, 0);
}


/// A promotion that is planned at all is of a private snapshot, so a promoted
/// change that depends on durable changes only does not depend on it.
pub proof fn promoted_changes_do_not_depend_on_snapshots(
    repo: Repository,
    id: Seq<char>,
    options: RecordOptions,
    promoted: StoredChange,
)
    requires
        promotion_plan(repo, id, options) is Ok,
        forall|d: ContentHash| #[trigger]
            promoted.dependencies@.contains(d) ==> snapshot::durable(repo, d),
    ensures
        (private_plan(repo, id)->Ok_0).0.head matches Some(head) && !snapshot::durable(repo, head)
            && !promoted.dependencies@.contains(head),
{
}


/// What a private view holds: at most one change, which is its snapshot if it
/// is some working copy's own and a remainder otherwise. A view whose one change
/// is known is always read.
pub proof fn private_views_hold_a_snapshot_or_a_remainder(
    repo: Repository,
    changes: Seq<NodeId>,
    name: Seq<char>,
)
    ensures
        snapshot::private_contents(repo, changes, name) matches Ok((held, remainder)) ==> {
            &&& changes.len() <= 1
            &&& changes.len() == 0 ==> held is None && remainder is None
            &&& changes.len() == 1 ==> (repo.pristine@.external(changes[0]) matches Some(hash)
                && repo.change_at(hash) matches Some(i) && if repo.changes@[i].kind.owner() is Some {
                held == Some(hash) && remainder is None
            } else {
                held is None && remainder == Some(hash)
            })
        },
        changes.len() == 0 ==> snapshot::private_contents(repo, changes, name) is Ok,
        changes.len() == 1 && (repo.pristine@.external(changes[0]) matches Some(hash)
            && repo.change_at(hash) is Some) ==> snapshot::private_contents(repo, changes, name)
            is Ok,
        changes.len() > 1 ==> snapshot::private_contents(repo, changes, name) is Err,
{
    unnamed_is_first(repo, changes, 0);
}

proof fn unnamed_is_first(repo: Repository, changes: Seq<NodeId>, i: int)
    requires
        0 <= i <= changes.len(),
    ensures
        match snapshot::first_unnamed(repo, changes, i) {
            Some(change) => exists|k: int|
                i <= k < changes.len() && #[trigger] changes[k] == change
                    && repo.pristine@.external(changes[k]) is None,
            None => forall|k: int|
                i <= k < changes.len() ==> repo.pristine@.external(#[trigger] changes[k]) is Some,
        },
    decreases changes.len() - i,
{
    if i < changes.len() && repo.pristine@.external(changes[i]) is Some {
        unnamed_is_first(repo, changes, i + 1);
    }
}

/// A snapshot is taken only through the handle of the working copy that asks
/// for it, and of the view that this working copy's record wants shown.
pub proof fn snapshots_are_of_the_own_view(repo: Repository, id: Seq<char>, k: int)
    ensures
        snapshot::baseline(repo, id) is Ok ==> repo.working_copy is Some && repo.working_copy->0@
            == id,
        repo.working_copy is Some && repo.working_copy->0@ == id && 0 <= k
            < repo.working_copies@.len() && repo.working_copies@[k].id@ == id && (forall|j: int|
            0 <= j < k ==> (#[trigger] repo.working_copies@[j]).id@ != id) ==> snapshot::baseline(
            repo,
            id,
        ) == Ok::<Seq<char>, snapshot::SnapshotFault>(
            repo.view_name(repo.working_copies@[k].desired_view),
        ),
        (forall|j: int|
            0 <= j < repo.working_copies@.len() ==> (#[trigger] repo.working_copies@[j]).id@ != id)
            ==> snapshot::baseline(repo, id) is Err,
{
    record_is_first(repo, id, 0);
}

proof fn record_is_first(repo: Repository, id: Seq<char>, i: int)
    requires
        0 <= i <= repo.working_copies@.len(),
    ensures
        match repository::record_from(repo.working_copies@, id, i) {
            Some(k) => i <= k < repo.working_copies@.len() && repo.working_copies@[k].id@ == id
                && forall|j: int| i <= j < k ==> (#[trigger] repo.working_copies@[j]).id@ != id,
            None => forall|j: int|
                i <= j < repo.working_copies@.len() ==> (#[trigger] repo.working_copies@[j]).id@
                    != id,
        },
    decreases repo.working_copies@.len() - i,
{
    if i < repo.working_copies@.len() {
        record_is_first(repo, id, i + 1);
    }
}

/// A private view has the one change that its log holds, none where the log is
/// empty, and is refused where the log holds more.
pub proof fn private_views_have_one_change(
    repo: Repository,
    changes: Seq<NodeId>,
    name: Seq<char>,
    hash: ContentHash,
)
    ensures
        snapshot::sole_change(repo, changes, name) == Ok::<
            Option<ContentHash>,
            snapshot::SnapshotFault,
        >(None) <==> changes.len() == 0,
        snapshot::sole_change(repo, changes, name) == Ok::<
            Option<ContentHash>,
            snapshot::SnapshotFault,
        >(Some(hash)) <==> changes.len() == 1 && repo.pristine@.external(changes[0]) == Some(hash),
        changes.len() > 1 ==> snapshot::sole_change(repo, changes, name) is Err,
{
}

} // verus!
