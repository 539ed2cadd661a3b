//! The changes that a view projects: its own, those of its parents, and
//! everything that they depend on.

use crate::collections;
use crate::error::RepositoryError;
use crate::native_roots;
use crate::pristine::{Pristine, PristineModel, Visibility};
use crate::repository;
use crate::repository::{Repository, ViewState};
use crate::types::NodeId;
use vstd::prelude::*;

verus! {

/// The places of a parent and of its own parents, after those seen; none where
/// a parent is missing. A view that was seen ends the chain.
pub open spec fn parents_from(views: Seq<ViewState>, parent: Option<u64>, seen: Seq<int>) -> Option<
    Seq<int>,
>
    decreases views.len() - seen.len(),
{
    match parent {
        None => Some(seen),
        Some(id) => match repository::view_id_from(views, id, 0) {
            None => None,
            Some(j) => if seen.contains(j) || seen.len() >= views.len() {
                Some(seen)
            } else {
                parents_from(views, views[j].parent, seen.push(j))
            },
        },
    }
}

/// The logs of the first `n` of these views, the last view's first.
pub open spec fn logs(views: Seq<ViewState>, chain: Seq<int>, n: int) -> Seq<NodeId>
    decreases n,
{
    if n <= 0 {
        Seq::empty()
    } else {
        views[chain[n - 1]].changes@ + logs(views, chain, n - 1)
    }
}

/// The changes in the logs of a view's parents, the farthest first, and in its
/// own; none where a parent is missing.
pub open spec fn membership(views: Seq<ViewState>, view: ViewState) -> Option<Seq<NodeId>> {
    match parents_from(views, view.parent, Seq::empty()) {
        None => None,
        Some(chain) => Some(logs(views, chain, chain.len() as int) + view.changes@),
    }
}

/// Adds to `done` the members from the `i`-th on, each after the changes on
/// which it depends; none where one is not registered, lacks its dependencies,
/// or depends on itself.
pub open spec fn closure_from(
    tables: PristineModel,
    members: Seq<NodeId>,
    i: int,
    done: Seq<NodeId>,
) -> Option<Seq<NodeId>>
    decreases members.len() - i,
{
    if i < 0 || i >= members.len() {
        Some(done)
    } else if !tables.ids().contains(members[i]) {
        None
    } else {
        match native_roots::visit(tables, tables.ids(), members[i], Seq::empty(), done) {
            Err(_) => None,
            Ok(done) => closure_from(tables, members, i + 1, done),
        }
    }
}

/// The projection of a view, dependencies first.
pub open spec fn projection(repo: Repository, view: ViewState) -> Option<Seq<NodeId>> {
    match membership(repo.views@, view) {
        None => None,
        Some(members) => closure_from(repo.pristine@, members, 0, Seq::empty()),
    }
}

fn list_ids(tables: &Pristine) -> (ids: Vec<NodeId>)
    ensures
        ids@ == tables@.ids(),
{
    let mut ids: Vec<NodeId> = Vec::new();
    let mut i: usize = 0;
    while i < tables.changes.len()
        invariant
            i <= tables.changes.len(),
            ids@ =~= tables@.ids().take(i as int),
        decreases tables.changes.len() - i,
    {
        ids.push(tables.changes[i].id);
        i = i + 1;
    }
    assert(ids@ =~= tables@.ids());
    ids
}

fn append_log(out: &mut Vec<NodeId>, log: &Vec<NodeId>)
    ensures
        final(out)@ == old(out)@ + log@,
{
    let ghost start = out@;
    let mut i: usize = 0;
    while i < log.len()
        invariant
            i <= log.len(),
            out@ =~= start + log@.take(i as int),
        decreases log.len() - i,
    {
        out.push(log[i]);
        i = i + 1;
    }
    assert(log@.take(i as int) =~= log@);
}

fn list_members(views: &Vec<ViewState>, view: &ViewState) -> (members: Option<Vec<NodeId>>)
    ensures
        match membership(views@, *view) {
            None => members is None,
            Some(list) => members matches Some(found) && found@ == list,
        },
{
    let mut members: Vec<NodeId> = Vec::new();
    append_log(&mut members, &view.changes);
    assert(members@ =~= view.changes@);
    let mut seen: Vec<usize> = Vec::new();
    let ghost mut chain: Seq<int> = Seq::empty();
    let mut parent: Option<u64> = view.parent;
    assert(members@ =~= logs(views@, chain, 0) + view.changes@);
    while parent.is_some()
        invariant
            chain == seen@.map_values(|j: usize| j as int),
            forall|k: int| 0 <= k < seen@.len() ==> (#[trigger] seen@[k]) < views@.len(),
            seen@.no_duplicates(),
            seen@.len() <= views@.len(),
            parents_from(views@, view.parent, Seq::empty()) == parents_from(views@, parent, chain),
            members@ == logs(views@, chain, chain.len() as int) + view.changes@,
        decreases views@.len() - seen@.len() + if parent is Some { 1int } else { 0int },
    {
        let id: u64 = parent.unwrap();
        match repository::find_view_id(views, id) {
            None => {
                return None;
            },
            Some(j) => {
                if collections::contains(&seen, j) {
                    proof {
                        let at = seen@.index_of(j);
                        assert(chain[at] == j);
                        assert(chain.contains(j as int));
                    }
                    parent = None;
                } else {
                    proof {
                        places_fit(seen@.push(j), views@.len() as int);
                        if chain.contains(j as int) {
                            let at = chain.index_of(j as int);
                            assert(seen@[at] == j);
                        }
                        let longer = chain.push(j as int);
                        assert(logs(views@, longer, longer.len() as int)
                            =~= views@[j as int].changes@ + logs(
                            views@,
                            chain,
                            chain.len() as int,
                        )) by {
                            logs_ignore_the_rest(views@, chain, j as int, chain.len() as int);
                        }
                        chain = longer;
                    }
                    let mut grown: Vec<NodeId> = Vec::new();
                    append_log(&mut grown, &views[j].changes);
                    append_log(&mut grown, &members);
                    members = grown;
                    seen.push(j);
                    assert(chain =~= seen@.map_values(|j: usize| j as int));
                    assert(members@ =~= logs(views@, chain, chain.len() as int) + view.changes@);
                    parent = views[j].parent;
                }
            },
        }
    }
    Some(members)
}

/// Distinct places below `n` are at most `n`.
proof fn places_fit(places: Seq<usize>, n: int)
    requires
        0 <= n,
        places.no_duplicates(),
        forall|k: int| 0 <= k < places.len() ==> (#[trigger] places[k]) < n,
    ensures
        places.len() <= n,
{
    let all = vstd::set_lib::set_int_range(0, n);
    let ints = places.map_values(|p: usize| p as int);
    assert(ints.no_duplicates()) by {
        assert forall|i: int, j: int|
            0 <= i < ints.len() && 0 <= j < ints.len() && i != j implies ints[i] != ints[j] by {
            assert(places[i] != places[j]);
        }
    }
    ints.unique_seq_to_set();
    vstd::set_lib::lemma_int_range(0, n);
    assert(ints.to_set().subset_of(all)) by {
        assert forall|x: int| ints.to_set().contains(x) implies all.contains(x) by {
            let at = ints.index_of(x);
            assert(places[at] < n);
        }
    }
    vstd::set_lib::lemma_len_subset(ints.to_set(), all);
}

/// The logs of the first views do not depend on what follows.
proof fn logs_ignore_the_rest(views: Seq<ViewState>, chain: Seq<int>, next: int, n: int)
    requires
        0 <= n <= chain.len(),
    ensures
        logs(views, chain.push(next), n) == logs(views, chain, n),
    decreases n,
{
    if n > 0 {
        logs_ignore_the_rest(views, chain, next, n - 1);
    }
}

/// The members with everything they depend on, dependencies first; none where a
/// change or its dependencies are missing, or depend on each other in a circle.
pub fn close_members(tables: &Pristine, members: &Vec<NodeId>) -> (closed: Option<Vec<NodeId>>)
    ensures
        match closure_from(tables@, members@, 0, Seq::empty()) {
            Some(list) => closed matches Some(changes) && changes@ == list,
            None => closed is None,
        },
{
    let ids: Vec<NodeId> = list_ids(tables);
    let mut done: Vec<NodeId> = Vec::new();
    let mut i: usize = 0;
    while i < members.len()
        invariant
            i <= members.len(),
            ids@ == tables@.ids(),
            closure_from(tables@, members@, 0, Seq::empty()) == closure_from(
                tables@,
                members@,
                i as int,
                done@,
            ),
        decreases members.len() - i,
    {
        let id: NodeId = members[i];
        if !collections::contains(&ids, id) {
            return None;
        }
        let mut stack: Vec<NodeId> = Vec::new();
        assert(stack@ =~= Seq::empty());
        if native_roots::visit_reachable_change(tables, &ids, id, &mut stack, &mut done).is_err() {
            return None;
        }
        i = i + 1;
    }
    Some(done)
}

/// Builds the one visibility of a view: the changes in its log and in those of
/// its parents with everything they depend on, dependencies first. It fails
/// where a parent, a change or its dependencies are missing, and where changes
/// depend on each other in a circle.
pub fn effective_projection_closure(repository: &Repository, view: &ViewState) -> (found: Result<
    Vec<NodeId>,
    RepositoryError,
>)
    ensures
        match projection(*repository, *view) {
            Some(list) => found matches Ok(changes) && changes@ == list,
            None => found matches Err(RepositoryError::Database(_)),
        },
{
    match list_members(&repository.views, view) {
        None => Err(RepositoryError::Database("a parent view is missing".to_owned())),
        Some(members) => match close_members(&repository.pristine, &members) {
            None => Err(
                RepositoryError::Database(
                    "dependency metadata is missing, incomplete or cyclic".to_owned(),
                ),
            ),
            Some(changes) => Ok(changes),
        },
    }
}

/// Whether a set of changes has the dependencies of each of its changes.
pub open spec fn is_closed(tables: PristineModel, changes: Set<NodeId>) -> bool {
    forall|id: NodeId, on: NodeId|
        changes.contains(id) && #[trigger] native_roots::depends(tables, id, on)
            ==> changes.contains(on)
}

/// Whether a change is in every closed set that holds the members.
pub open spec fn is_needed(tables: PristineModel, members: Seq<NodeId>, id: NodeId) -> bool {
    forall|changes: Set<NodeId>|
        #![trigger is_closed(tables, changes)]
        is_closed(tables, changes) && (forall|k: int|
            0 <= k < members.len() ==> changes.contains(#[trigger] members[k]))
            ==> changes.contains(id)
}

/// Whether a change is registered, with dependencies that are registered too.
pub open spec fn is_complete(tables: PristineModel, id: NodeId) -> bool {
    native_roots::dependencies_of(tables, id) matches Some(list) && forall|d: int|
        0 <= d < list.len() ==> tables.internal(#[trigger] list[d]) is Some
}

/// Whether a list is the closure of the members: it holds each change once,
/// all the members, nothing that they do not need, only complete changes, and
/// every change after those on which it depends.
pub open spec fn is_closure(
    tables: PristineModel,
    members: Seq<NodeId>,
    list: Seq<NodeId>,
) -> bool {
    &&& list.no_duplicates()
    &&& forall|k: int| 0 <= k < members.len() ==> list.contains(#[trigger] members[k])
    &&& forall|k: int| 0 <= k < list.len() ==> is_complete(tables, #[trigger] list[k])
    &&& forall|k: int| 0 <= k < list.len() ==> is_needed(tables, members, #[trigger] list[k])
    &&& forall|k: int, on: NodeId|
        0 <= k < list.len() && #[trigger] native_roots::depends(tables, list[k], on) ==> list.take(
            k,
        ).contains(on)
}

/// A registered hash leads to a registered number.
proof fn internal_is_listed(tables: PristineModel, id: NodeId, on: NodeId)
    requires
        native_roots::depends(tables, id, on),
    ensures
        tables.ids().contains(on),
{
    let list = native_roots::dependencies_of(tables, id)->0;
    let d = choose|d: int| 0 <= d < list.len() && tables.internal(#[trigger] list[d]) == Some(on);
    tables.hashes().index_of_first_ensures(list[d]);
    let i = tables.row(list[d])->0;
    assert(tables.ids()[i] == on);
}

/// What a change that is needed depends on is needed too.
proof fn needs_carry(tables: PristineModel, members: Seq<NodeId>, id: NodeId, on: NodeId)
    requires
        is_needed(tables, members, id),
        native_roots::depends(tables, id, on),
    ensures
        is_needed(tables, members, on),
{
}

/// Visiting adds only complete changes that are needed.
proof fn visit_adds_what_is_needed(
    tables: PristineModel,
    members: Seq<NodeId>,
    id: NodeId,
    stack: Seq<NodeId>,
    done: Seq<NodeId>,
)
    requires
        is_needed(tables, members, id),
        forall|k: int|
            0 <= k < done.len() ==> is_complete(tables, #[trigger] done[k]) && is_needed(
                tables,
                members,
                done[k],
            ),
    ensures
        native_roots::visit(tables, tables.ids(), id, stack, done) matches Ok(out) ==> forall|k: int|
            0 <= k < out.len() ==> is_complete(tables, #[trigger] out[k]) && is_needed(
                tables,
                members,
                out[k],
            ),
    decreases tables.ids().len() - stack.len(), 0int,
{
    let out = native_roots::visit(tables, tables.ids(), id, stack, done);
    if out is Ok && !done.contains(id) {
        let list = native_roots::dependencies_of(tables, id)->0;
        visit_all_adds_what_is_needed(tables, members, id, 0, stack.push(id), done);
    }
}

proof fn visit_all_adds_what_is_needed(
    tables: PristineModel,
    members: Seq<NodeId>,
    id: NodeId,
    k: int,
    stack: Seq<NodeId>,
    done: Seq<NodeId>,
)
    requires
        is_needed(tables, members, id),
        native_roots::dependencies_of(tables, id) is Some,
        0 <= k,
        forall|d: int|
            0 <= d < k && d < native_roots::dependencies_of(tables, id)->0.len()
                ==> tables.internal(
                #[trigger] native_roots::dependencies_of(tables, id)->0[d],
            ) is Some,
        forall|k: int|
            0 <= k < done.len() ==> is_complete(tables, #[trigger] done[k]) && is_needed(
                tables,
                members,
                done[k],
            ),
    ensures
        native_roots::visit_all(
            tables,
            tables.ids(),
            id,
            native_roots::dependencies_of(tables, id)->0,
            k,
            stack,
            done,
        ) matches Ok(out) ==> is_complete(tables, id) && forall|k: int|
            0 <= k < out.len() ==> is_complete(tables, #[trigger] out[k]) && is_needed(
                tables,
                members,
                out[k],
            ),
    decreases
            tables.ids().len() - stack.len(),
            native_roots::dependencies_of(tables, id)->0.len() - k + 1,
{
    let list = native_roots::dependencies_of(tables, id)->0;
    let out = native_roots::visit_all(tables, tables.ids(), id, list, k, stack, done);
    if out is Ok && k < list.len() {
        let on = tables.internal(list[k])->0;
        assert(native_roots::depends(tables, id, on));
        internal_is_listed(tables, id, on);
        needs_carry(tables, members, id, on);
        visit_adds_what_is_needed(tables, members, on, stack, done);
        let mid = native_roots::visit(tables, tables.ids(), on, stack, done)->Ok_0;
        visit_all_adds_what_is_needed(tables, members, id, k + 1, stack, mid);
    }
}

pub(crate) proof fn closure_from_is_closed(
    tables: PristineModel,
    members: Seq<NodeId>,
    i: int,
    done: Seq<NodeId>,
)
    requires
        0 <= i <= members.len(),
        native_roots::replays_in_order(tables, tables.ids(), done),
        forall|k: int|
            0 <= k < done.len() ==> is_complete(tables, #[trigger] done[k]) && is_needed(
                tables,
                members,
                done[k],
            ),
        forall|k: int| 0 <= k < i ==> done.contains(#[trigger] members[k]),
    ensures
        closure_from(tables, members, i, done) matches Some(list) ==> is_closure(
            tables,
            members,
            list,
        ),
    decreases members.len() - i,
{
    if i < members.len() {
        if closure_from(tables, members, i, done) is Some {
            assert(is_needed(tables, members, members[i]));
            native_roots::visit_keeps_order(
                tables,
                tables.ids(),
                members[i],
                Seq::empty(),
                done,
            );
            visit_adds_what_is_needed(tables, members, members[i], Seq::empty(), done);
            let mid = native_roots::visit(
                tables,
                tables.ids(),
                members[i],
                Seq::empty(),
                done,
            )->Ok_0;
            assert forall|k: int| 0 <= k < i + 1 implies mid.contains(#[trigger] members[k]) by {
                if k < i {
                    let at = done.index_of(members[k]);
                    assert(done[at] == mid.subrange(0, done.len() as int)[at]);
                    assert(mid[at] == members[k]);
                }
            }
            closure_from_is_closed(tables, members, i + 1, mid);
        }
    } else {
        assert forall|k: int, on: NodeId|
            0 <= k < done.len() && #[trigger] native_roots::depends(
                tables,
                done[k],
                on,
            ) implies done.take(k).contains(on) by {
            internal_is_listed(tables, done[k], on);
        }
    }
}

/// The projection of a view holds the logs of the view and of its parents and
/// everything they depend on, nothing else, each change once and after those on
/// which it depends.
pub proof fn projection_is_the_closure(repo: Repository, view: ViewState)
    ensures
        projection(repo, view) matches Some(list) ==> membership(repo.views@, view) matches Some(
            members,
        ) && is_closure(repo.pristine@, members, list),
{
    if let Some(members) = membership(repo.views@, view) {
        closure_from_is_closed(repo.pristine@, members, 0, Seq::empty());
    }
}

/// Where a closure exists, visiting one of its changes succeeds.
proof fn visit_succeeds(
    tables: PristineModel,
    members: Seq<NodeId>,
    list: Seq<NodeId>,
    at: int,
    stack: Seq<NodeId>,
    done: Seq<NodeId>,
)
    requires
        is_closure(tables, members, list),
        0 <= at < list.len(),
        stack.no_duplicates(),
        forall|k: int|
            0 <= k < stack.len() ==> tables.ids().contains(#[trigger] stack[k]) && !list.take(
                at + 1,
            ).contains(stack[k]),
    ensures
        native_roots::visit(tables, tables.ids(), list[at], stack, done) is Ok,
    decreases tables.ids().len() - stack.len(), 0int,
{
    let id = list[at];
    if !done.contains(id) {
        assert(is_complete(tables, id));
        tables.ids().index_of_first_ensures(id);
        let row = tables.ids().index_of_first(id)->0;
        assert(tables.ids()[row] == id);
        let inner = stack.push(id);
        assert(list.take(at + 1)[at] == id);
        assert forall|k: int| 0 <= k < stack.len() implies #[trigger] stack[k] != id by {
            if stack[k] == id {
                assert(list.take(at + 1).contains(stack[k]));
            }
        }
        assert(inner.no_duplicates());
        assert forall|k: int| 0 <= k < inner.len() implies tables.ids().contains(
            #[trigger] inner[k],
        ) by {
            if k < stack.len() {
                assert(inner[k] == stack[k]);
            }
        }
        native_roots::members_fit(inner, tables.ids());
        assert(!stack.contains(id));
        assert forall|k: int| 0 <= k < inner.len() implies !list.take(at).contains(
            #[trigger] inner[k],
        ) by {
            if list.take(at).contains(inner[k]) {
                let e = list.take(at).index_of(inner[k]);
                assert(list[e] == inner[k]);
                if k < stack.len() {
                    assert(inner[k] == stack[k]);
                    assert(list.take(at + 1)[e] == stack[k]);
                } else {
                    assert(list[e] == list[at]);
                }
            }
        }
        visit_all_succeeds(tables, members, list, at, 0, inner, done);
    }
}

proof fn visit_all_succeeds(
    tables: PristineModel,
    members: Seq<NodeId>,
    list: Seq<NodeId>,
    at: int,
    k: int,
    stack: Seq<NodeId>,
    done: Seq<NodeId>,
)
    requires
        is_closure(tables, members, list),
        0 <= at < list.len(),
        0 <= k,
        stack.len() <= tables.ids().len(),
        stack.no_duplicates(),
        forall|k: int|
            0 <= k < stack.len() ==> tables.ids().contains(#[trigger] stack[k]) && !list.take(
                at,
            ).contains(stack[k]),
    ensures
        native_roots::visit_all(
            tables,
            tables.ids(),
            list[at],
            native_roots::dependencies_of(tables, list[at])->0,
            k,
            stack,
            done,
        ) is Ok,
    decreases
            tables.ids().len() - stack.len(),
            native_roots::dependencies_of(tables, list[at])->0.len() - k + 1,
{
    let needed = native_roots::dependencies_of(tables, list[at])->0;
    if k < needed.len() {
        assert(is_complete(tables, list[at]));
        assert(tables.internal(needed[k]) is Some);
        let on = tables.internal(needed[k])->0;
        assert(native_roots::depends(tables, list[at], on));
        internal_is_listed(tables, list[at], on);
        let e = list.take(at).index_of(on);
        assert(list.take(at)[e] == on);
        assert(list[e] == on);
        assert forall|j: int| 0 <= j < stack.len() implies !list.take(e + 1).contains(
            #[trigger] stack[j],
        ) by {
            if list.take(e + 1).contains(stack[j]) {
                let f = list.take(e + 1).index_of(stack[j]);
                assert(list.take(at)[f] == stack[j]);
                assert(list.take(at).contains(stack[j]));
            }
        }
        visit_succeeds(tables, members, list, e, stack, done);
        let mid = native_roots::visit(tables, tables.ids(), on, stack, done)->Ok_0;
        visit_all_succeeds(tables, members, list, at, k + 1, stack, mid);
    }
}

proof fn closure_from_succeeds(
    tables: PristineModel,
    members: Seq<NodeId>,
    list: Seq<NodeId>,
    i: int,
    done: Seq<NodeId>,
)
    requires
        is_closure(tables, members, list),
        0 <= i,
    ensures
        closure_from(tables, members, i, done) is Some,
    decreases members.len() - i,
{
    if i < members.len() {
        let at = list.index_of(members[i]);
        assert(list[at] == members[i]);
        assert(is_complete(tables, list[at]));
        tables.ids().index_of_first_ensures(members[i]);
        visit_succeeds(tables, members, list, at, Seq::empty(), done);
        let mid = native_roots::visit(
            tables,
            tables.ids(),
            members[i],
            Seq::empty(),
            done,
        )->Ok_0;
        closure_from_succeeds(tables, members, list, i + 1, mid);
    }
}

/// A projection fails only where there is none to give: a parent is missing, or
/// no list of changes is the closure of the logs, since a change or its
/// dependencies are missing or depend on each other in a circle.
pub proof fn projection_fails_closed(repo: Repository, view: ViewState)
    ensures
        projection(repo, view) is None ==> match membership(repo.views@, view) {
            None => true,
            Some(members) => forall|list: Seq<NodeId>|
                !(#[trigger] is_closure(repo.pristine@, members, list)),
        },
{
    if let Some(members) = membership(repo.views@, view) {
        assert forall|list: Seq<NodeId>| projection(repo, view) is None implies !(
        #[trigger] is_closure(repo.pristine@, members, list)) by {
            if is_closure(repo.pristine@, members, list) {
                closure_from_succeeds(repo.pristine@, members, list, 0, Seq::empty());
            }
        }
    }
}

/// Whether two lists of views have the same identifiers, parents and logs.
pub open spec fn same_logs(a: Seq<ViewState>, b: Seq<ViewState>) -> bool {
    &&& a.len() == b.len()
    &&& forall|k: int|
        #![trigger a[k]]
        #![trigger b[k]]
        0 <= k < a.len() ==> a[k].id == b[k].id && a[k].parent == b[k].parent && a[k].changes@
            == b[k].changes@
}

proof fn places_alike(a: Seq<ViewState>, b: Seq<ViewState>, id: u64, i: int)
    requires
        same_logs(a, b),
        0 <= i,
    ensures
        repository::view_id_from(a, id, i) == repository::view_id_from(b, id, i),
        repository::view_id_from(a, id, i) matches Some(k) ==> 0 <= k < a.len(),
    decreases a.len() - i,
{
    if i < a.len() {
        assert(a[i].id == b[i].id);
        places_alike(a, b, id, i + 1);
    }
}

proof fn parents_alike(
    a: Seq<ViewState>,
    b: Seq<ViewState>,
    parent: Option<u64>,
    seen: Seq<int>,
)
    requires
        same_logs(a, b),
        forall|k: int| 0 <= k < seen.len() ==> 0 <= #[trigger] seen[k] < a.len(),
    ensures
        parents_from(a, parent, seen) == parents_from(b, parent, seen),
        parents_from(a, parent, seen) matches Some(chain) ==> forall|k: int|
            0 <= k < chain.len() ==> 0 <= #[trigger] chain[k] < a.len(),
    decreases a.len() - seen.len(),
{
    if let Some(id) = parent {
        places_alike(a, b, id, 0);
        if let Some(j) = repository::view_id_from(a, id, 0) {
            if !(seen.contains(j) || seen.len() >= a.len()) {
                assert(a[j].parent == b[j].parent);
                parents_alike(a, b, a[j].parent, seen.push(j));
            }
        }
    }
}

proof fn logs_alike(a: Seq<ViewState>, b: Seq<ViewState>, chain: Seq<int>, n: int)
    requires
        same_logs(a, b),
        0 <= n <= chain.len(),
        forall|k: int| 0 <= k < chain.len() ==> 0 <= #[trigger] chain[k] < a.len(),
    ensures
        logs(a, chain, n) == logs(b, chain, n),
    decreases n,
{
    if n > 0 {
        logs_alike(a, b, chain, n - 1);
        assert(a[chain[n - 1]].changes@ == b[chain[n - 1]].changes@);
    }
}

/// What a view projects rests on the logs of views, not on what they show.
pub proof fn projection_rests_on_logs(
    repo: Repository,
    other: Repository,
    view: ViewState,
    alike: ViewState,
)
    requires
        repo.pristine@ == other.pristine@,
        same_logs(repo.views@, other.views@),
        view.parent == alike.parent,
        view.changes@ == alike.changes@,
    ensures
        projection(repo, view) == projection(other, alike),
{
    parents_alike(repo.views@, other.views@, view.parent, Seq::empty());
    if let Some(chain) = parents_from(repo.views@, view.parent, Seq::empty()) {
        logs_alike(repo.views@, other.views@, chain, chain.len() as int);
    }
}

/// Whether every view shows what it projects, as far as that could be told.
pub open spec fn views_are_projected(repo: Repository) -> bool {
    forall|k: int|
        0 <= k < repo.views@.len() ==> ((#[trigger] repo.views@[k]).visibility matches Ok(shown)
            ==> projection(repo, repo.views@[k]) == Some(shown.changes@))
}

/// Whether a view's visibility shows the changes that the view projects, in
/// whatever order.
pub open spec fn shows_its_projection(repo: Repository, view: ViewState) -> bool {
    view.visibility matches Ok(shown) ==> (projection(repo, view) matches Some(list)
        && list.to_set() == shown.changes@.to_set())
}

/// Whether one view is another, but for the order in which it shows changes.
pub open spec fn same_but_order(a: ViewState, b: ViewState) -> bool {
    &&& b == (ViewState { visibility: b.visibility, ..a })
    &&& match (a.visibility, b.visibility) {
        (Ok(old), Ok(new)) => new == (Visibility { changes: new.changes, ..old })
            && new.changes@.to_set() == old.changes@.to_set(),
        (old, new) => new == old,
    }
}

fn have_same_members(a: &Vec<NodeId>, b: &Vec<NodeId>) -> (answer: bool)
    ensures
        answer == (a@.to_set() == b@.to_set()),
{
    let mut i: usize = 0;
    while i < a.len()
        invariant
            i <= a.len(),
            forall|k: int| 0 <= k < i ==> b@.contains(#[trigger] a@[k]),
        decreases a.len() - i,
    {
        if !collections::contains(b, a[i]) {
            proof {
                assert(a@.to_set().contains(a@[i as int]));
                assert(!b@.to_set().contains(a@[i as int]));
            }
            return false;
        }
        i = i + 1;
    }
    let mut j: usize = 0;
    while j < b.len()
        invariant
            j <= b.len(),
            forall|k: int| 0 <= k < j ==> a@.contains(#[trigger] b@[k]),
        decreases b.len() - j,
    {
        if !collections::contains(a, b[j]) {
            proof {
                assert(b@.to_set().contains(b@[j as int]));
                assert(!a@.to_set().contains(b@[j as int]));
            }
            return false;
        }
        j = j + 1;
    }
    proof {
        assert forall|x: NodeId| a@.to_set().contains(x) <==> b@.to_set().contains(x) by {
            if a@.contains(x) {
                let k = a@.index_of(x);
                assert(b@.contains(a@[k]));
            }
            if b@.contains(x) {
                let k = b@.index_of(x);
                assert(a@.contains(b@[k]));
            }
        }
        assert(a@.to_set() =~= b@.to_set());
    }
    true
}

impl Repository {
    /// The repository with every view showing exactly what it projects,
    /// dependencies first. It fails where a view shows other changes, or where
    /// what it projects cannot be told.
    pub fn project_views(self) -> (settled: Result<Repository, RepositoryError>)
        ensures
            match settled {
                Ok(repo) => {
                    &&& views_are_projected(repo)
                    &&& repo == (Repository { views: repo.views, ..self })
                    &&& repo.views@.len() == self.views@.len()
                    &&& forall|k: int|
                        0 <= k < self.views@.len() ==> same_but_order(
                            #[trigger] self.views@[k],
                            repo.views@[k],
                        )
                    &&& forall|k: int|
                        0 <= k < self.views@.len() ==> shows_its_projection(
                            self,
                            #[trigger] self.views@[k],
                        )
                },
                Err(error) => error is Database && exists|k: int|
                    0 <= k < self.views@.len() && !shows_its_projection(
                        self,
                        #[trigger] self.views@[k],
                    ),
            },
    {
        let ghost start = self;
        let mut repo: Repository = self;
        let mut k: usize = 0;
        while k < repo.views.len()
            invariant
                k <= repo.views.len(),
                repo == (Repository { views: repo.views, ..start }),
                repo.views@.len() == start.views@.len(),
                start == self,
                forall|j: int|
                    k <= j < start.views@.len() ==> #[trigger] repo.views@[j] == start.views@[j],
                forall|j: int|
                    0 <= j < k ==> same_but_order(#[trigger] start.views@[j], repo.views@[j]),
                forall|j: int|
                    0 <= j < k ==> shows_its_projection(start, #[trigger] start.views@[j]),
                forall|j: int|
                    0 <= j < k ==> ((#[trigger] repo.views@[j]).visibility matches Ok(shown)
                        ==> projection(start, start.views@[j]) == Some(shown.changes@)),
            decreases start.views@.len() - k,
        {
            let ghost before = repo.views@;
            assert(repo.views@[k as int] == start.views@[k as int]);
            proof {
                alike_so_far(start, repo, k as int);
                projection_rests_on_logs(
                    start,
                    repo,
                    start.views@[k as int],
                    repo.views@[k as int],
                );
            }
            if let Ok(shown) = &repo.views[k].visibility {
                let closed: Vec<NodeId> = match effective_projection_closure(
                    &repo,
                    &repo.views[k],
                ) {
                    Ok(closed) => closed,
                    Err(error) => {
                        assert(!shows_its_projection(self, self.views@[k as int]));
                        return Err(error);
                    },
                };
                if !have_same_members(&closed, &shown.changes) {
                    assert(!shows_its_projection(self, self.views@[k as int]));
                    return Err(
                        RepositoryError::Database(
                            "a view shows other changes than it projects".to_owned(),
                        ),
                    );
                }
                let mut view: ViewState = repo.views.remove(k);
                let ghost old = view;
                if let Ok(shown) = view.visibility {
                    view.visibility = Ok(
                        Visibility {
                            changes: closed,
                            live: shown.live,
                            rendered: shown.rendered,
                            attributes: shown.attributes,
                        },
                    );
                } else {
                    view.visibility = Err(String::new());
                }
                let ghost new = view;
                repo.views.insert(k, view);
                proof {
                    assert(old == before[k as int]);
                    assert(repo.views@ =~= before.update(k as int, new));
                    assert(same_but_order(start.views@[k as int], new));
                }
            }
            k = k + 1;
        }
        proof {
            alike_so_far(start, repo, k as int);
            assert forall|j: int| 0 <= j < repo.views@.len() implies ((
            #[trigger] repo.views@[j]).visibility matches Ok(shown) ==> projection(
                repo,
                repo.views@[j],
            ) == Some(shown.changes@)) by {
                assert(same_but_order(start.views@[j], repo.views@[j]));
                projection_rests_on_logs(start, repo, start.views@[j], repo.views@[j]);
            }
        }
        Ok(repo)
    }
}

proof fn alike_so_far(start: Repository, repo: Repository, k: int)
    requires
        repo.views@.len() == start.views@.len(),
        0 <= k <= start.views@.len(),
        forall|j: int|
            k <= j < start.views@.len() ==> #[trigger] repo.views@[j] == start.views@[j],
        forall|j: int| 0 <= j < k ==> same_but_order(#[trigger] start.views@[j], repo.views@[j]),
    ensures
        same_logs(start.views@, repo.views@),
{
    assert forall|j: int|
        #![trigger start.views@[j]]
        #![trigger repo.views@[j]]
        0 <= j < start.views@.len() implies start.views@[j].id == repo.views@[j].id
        && start.views@[j].parent == repo.views@[j].parent && start.views@[j].changes@
        == repo.views@[j].changes@ by {
        if j < k {
            assert(same_but_order(start.views@[j], repo.views@[j]));
        } else {
            assert(repo.views@[j] == start.views@[j]);
        }
    }
}


proof fn longer_chain(
    views: Seq<ViewState>,
    parent: Option<u64>,
    seen: Seq<int>,
    j: int,
    chain: Seq<int>,
)
    requires
        parents_from(views, parent, seen) == Some(chain),
        !chain.contains(j),
        0 <= j < views.len(),
        seen.no_duplicates(),
        forall|k: int| 0 <= k < seen.len() ==> 0 <= #[trigger] seen[k] < views.len(),
    ensures
        parents_from(views, parent, seq![j] + seen) == Some(seq![j] + chain),
        seen.is_prefix_of(chain),
    decreases views.len() - seen.len(),
{
    let more = seq![j] + seen;
    if let Some(id) = parent {
        if let Some(n) = repository::view_id_from(views, id, 0) {
            found_view_stands(views, id, 0);
            if seen.contains(n) || seen.len() >= views.len() {
                if seen.contains(n) {
                    let k = seen.index_of(n);
                    assert(more[k + 1] == n);
                }
                assert(chain == seen);
            } else {
                let next = seen.push(n);
                longer_chain(views, views[n].parent, next, j, chain);
                assert(next[seen.len() as int] == n);
                assert(chain[seen.len() as int] == n);
                assert(chain.contains(n));
                assert(n != j);
                if more.contains(n) {
                    let k = more.index_of(n);
                    assert(seen[k - 1] == n);
                }
                let all = seq![j] + next;
                few_places(all, views.len() as int);
                assert(more.push(n) =~= all);
            }
        }
    }
}

proof fn found_view_stands(views: Seq<ViewState>, id: u64, i: int)
    requires
        0 <= i,
    ensures
        repository::view_id_from(views, id, i) matches Some(n) ==> i <= n < views.len()
            && views[n].id == id,
    decreases views.len() - i,
{
    if i < views.len() && views[i].id != id {
        found_view_stands(views, id, i + 1);
    }
}

proof fn few_places(places: Seq<int>, n: int)
    requires
        0 <= n,
        forall|k: int| 0 <= k < places.len() ==> 0 <= #[trigger] places[k] < n,
    ensures
        places.no_duplicates() ==> places.len() <= n,
{
    if places.no_duplicates() {
        places.unique_seq_to_set();
        vstd::set_lib::lemma_int_range(0, n);
        assert(places.to_set().subset_of(vstd::set_lib::set_int_range(0, n)));
        vstd::set_lib::lemma_len_subset(places.to_set(), vstd::set_lib::set_int_range(0, n));
    }
}

proof fn logs_after(views: Seq<ViewState>, j: int, chain: Seq<int>, n: int)
    requires
        0 <= n <= chain.len(),
    ensures
        logs(views, seq![j] + chain, n + 1) == logs(views, chain, n) + views[j].changes@,
    decreases n,
{
    let all = seq![j] + chain;
    if n == 0 {
        assert(logs(views, all, 0) =~= Seq::empty());
        assert(logs(views, all, 1) =~= views[j].changes@);
        assert(logs(views, chain, 0) + views[j].changes@ =~= views[j].changes@);
    } else {
        logs_after(views, j, chain, n - 1);
        assert(all[n] == chain[n - 1]);
        assert(logs(views, all, n + 1) =~= logs(views, chain, n) + views[j].changes@);
    }
}

/// A view has its parent's changes followed by its own, where its ancestors are
/// all there and do not come back to the parent; one without parent has its own
/// alone.
pub proof fn views_add_to_their_parents(views: Seq<ViewState>, view: ViewState, j: int)
    requires
        view.parent matches Some(id) ==> 0 <= j < views.len() && views[j].id == id && forall|k: int|
            0 <= k < j ==> (#[trigger] views[k]).id != id,
        view.parent is Some ==> (parents_from(views, views[j].parent, Seq::empty()) matches Some(
            chain,
        ) && !chain.contains(j)),
    ensures
        view.parent is None ==> membership(views, view) == Some(view.changes@),
        view.parent is Some ==> (membership(views, views[j]) matches Some(members) && membership(
            views,
            view,
        ) == Some(members + view.changes@)),
{
    if let Some(id) = view.parent {
        first_view_is_found(views, id, 0, j);
        let none = Seq::<int>::empty();
        assert(none.push(j) =~= seq![j] + none);
        match parents_from(views, views[j].parent, none) {
            Some(chain) => {
                longer_chain(views, views[j].parent, none, j, chain);
                logs_after(views, j, chain, chain.len() as int);
                let all = seq![j] + chain;
                assert(all.len() == chain.len() + 1);
                assert(membership(views, view) == Some(
                    logs(views, chain, chain.len() as int) + views[j].changes@ + view.changes@,
                ));
            },
            None => {},
        }
    } else {
        assert(logs(views, Seq::empty(), 0) + view.changes@ =~= view.changes@);
    }
}

proof fn first_view_is_found(views: Seq<ViewState>, id: u64, i: int, j: int)
    requires
        0 <= i <= j < views.len(),
        views[j].id == id,
        forall|k: int| i <= k < j ==> (#[trigger] views[k]).id != id,
    ensures
        repository::view_id_from(views, id, i) == Some(j),
    decreases j - i,
{
    if i < j {
        first_view_is_found(views, id, i + 1, j);
    }
}

} // verus!
