//! Which graph roots the reachable changes create, and which inodes own them.

use crate::collections;
use crate::pristine;
use crate::pristine::{Pristine, PristineModel};
use crate::repository::{GraphNode, Repository, ViewState};
use crate::types::{ContentHash, Inode, NodeId, Position};
use vstd::prelude::*;

verus! {

/// What a graph root is.
#[derive(Clone, Copy, Debug, PartialEq, Eq, Structural)]
pub enum PathClaimKind {
    File,
    Directory,
}

/// Why native indexes cannot be rebuilt.
#[derive(Clone, Copy, Debug, PartialEq, Eq, Structural)]
pub enum NativeRefusal {
    /// Reachable changes depend on each other.
    DependencyCycle { change: NodeId },
    /// A dependency is not registered.
    UnregisteredDependency { change: NodeId, dependency: ContentHash },
    /// Dependency metadata could not be read.
    DependenciesUnavailable { change: NodeId },
    /// A reachable change has no external hash.
    UnhashedChange { change: NodeId },
    /// A reachable change was not read.
    UnreadChange { change: NodeId },
    /// A root is both a file and a directory.
    RootKindChanged { position: Position },
    /// A root has no unique owner.
    AmbiguousOwner { position: Position, candidates: usize },
    /// A root's owner has no vertex in the graph.
    MissingVertex { position: Position, inode: Inode },
    /// A root is bound to another inode than its owner.
    OwnerMismatch { position: Position, inode: Inode, bound: Inode },
    /// An inode owns two roots.
    SharedInode { inode: Inode, first: Position, second: Position },
    /// A change behind a conflict has no external hash.
    UnhashedSide { change: NodeId },
}

/// Why paths and inodes cannot name each other.
#[derive(Debug)]
pub enum PathRefusal {
    /// A claim names a root without owner.
    UnownedClaim { path: String, claimant: Position },
    /// A path stands for two inodes.
    SharedPath { path: String, inode: Inode, other: Inode },
    /// An inode stands at two paths.
    InodeAtTwoPaths { inode: Inode, first: String, second: String },
    /// A staged path has a graph position.
    StagedBinding { path: String, inode: Inode },
    /// A staged path's inode does not name it.
    StagedNotBijective { path: String, inode: Inode },
    /// A staged directory has flags that no staged directory has.
    StagedFlags { inode: Inode, flags: u8 },
    /// A staged inode has a graph position.
    ReverseBinding { path: String, inode: Inode },
    /// A staged inode's path does not name it.
    ReverseNotBijective { path: String, inode: Inode },
}

/// What a [`PathRefusal`] says.
pub ghost enum PathRefusalModel {
    UnownedClaim { path: Seq<char>, claimant: Position },
    SharedPath { path: Seq<char>, inode: Inode, other: Inode },
    InodeAtTwoPaths { inode: Inode, first: Seq<char>, second: Seq<char> },
    StagedBinding { path: Seq<char>, inode: Inode },
    StagedNotBijective { path: Seq<char>, inode: Inode },
    StagedFlags { inode: Inode, flags: u8 },
    ReverseBinding { path: Seq<char>, inode: Inode },
    ReverseNotBijective { path: Seq<char>, inode: Inode },
}

impl View for PathRefusal {
    type V = PathRefusalModel;

    open spec fn view(&self) -> PathRefusalModel {
        match self {
            PathRefusal::UnownedClaim { path, claimant } => PathRefusalModel::UnownedClaim {
                path: path@,
                claimant: *claimant,
            },
            PathRefusal::SharedPath { path, inode, other } => PathRefusalModel::SharedPath {
                path: path@,
                inode: *inode,
                other: *other,
            },
            PathRefusal::InodeAtTwoPaths { inode, first, second } => {
                PathRefusalModel::InodeAtTwoPaths {
                    inode: *inode,
                    first: first@,
                    second: second@,
                }
            },
            PathRefusal::StagedBinding { path, inode } => PathRefusalModel::StagedBinding {
                path: path@,
                inode: *inode,
            },
            PathRefusal::StagedNotBijective { path, inode } => {
                PathRefusalModel::StagedNotBijective { path: path@, inode: *inode }
            },
            PathRefusal::StagedFlags { inode, flags } => PathRefusalModel::StagedFlags {
                inode: *inode,
                flags: *flags,
            },
            PathRefusal::ReverseBinding { path, inode } => PathRefusalModel::ReverseBinding {
                path: path@,
                inode: *inode,
            },
            PathRefusal::ReverseNotBijective { path, inode } => {
                PathRefusalModel::ReverseNotBijective { path: path@, inode: *inode }
            },
        }
    }
}

/// Why native indexes cannot be rebuilt.
#[derive(Debug)]
pub enum NativeFault {
    /// The facts forbid it.
    Refused(NativeRefusal),
    /// Paths and inodes do not name each other.
    Unpaired(PathRefusal),
    /// Stored facts cannot be read.
    Database(String),
    /// Content cannot be rendered.
    Output(String),
    /// A view is missing.
    ViewNotFound(String),
}

/// What a [`NativeFault`] says.
pub ghost enum FaultModel {
    Refused(NativeRefusal),
    Unpaired(PathRefusalModel),
    Database(Seq<char>),
    Output(Seq<char>),
    ViewNotFound(Seq<char>),
}

impl View for NativeFault {
    type V = FaultModel;

    open spec fn view(&self) -> FaultModel {
        match self {
            NativeFault::Refused(refusal) => FaultModel::Refused(*refusal),
            NativeFault::Unpaired(refusal) => FaultModel::Unpaired(refusal@),
            NativeFault::Database(message) => FaultModel::Database(message@),
            NativeFault::Output(message) => FaultModel::Output(message@),
            NativeFault::ViewNotFound(name) => FaultModel::ViewNotFound(name@),
        }
    }
}

/// `found` with the changes among the first `n` that are not the root and not
/// in it yet.
pub open spec fn with_reachable(changes: Seq<NodeId>, n: int, found: Seq<NodeId>) -> Seq<NodeId>
    decreases n,
{
    if n <= 0 {
        found
    } else {
        let rest = with_reachable(changes, n - 1, found);
        let id = changes[n - 1];
        if id.spec_is_root() || rest.contains(id) {
            rest
        } else {
            rest.push(id)
        }
    }
}

/// Adds to `found` the changes that the views from the `i`-th on show.
pub open spec fn reachable_from(views: Seq<ViewState>, i: int, found: Seq<NodeId>) -> Result<
    Seq<NodeId>,
    FaultModel,
>
    decreases views.len() - i,
{
    if i < 0 || i >= views.len() {
        Ok(found)
    } else {
        match views[i].visibility {
            Err(message) => Err(FaultModel::Database(message@)),
            Ok(visibility) => reachable_from(
                views,
                i + 1,
                with_reachable(visibility.changes@, visibility.changes@.len() as int, found),
            ),
        }
    }
}

/// The changes that some view shows.
pub fn reachable_changes(views: &Vec<ViewState>) -> (found: Result<Vec<NodeId>, NativeFault>)
    ensures
        match reachable_from(views@, 0, Seq::empty()) {
            Err(model) => found matches Err(fault) && fault@ == model,
            Ok(list) => found matches Ok(ids) && ids@ == list,
        },
{
    let mut ids: Vec<NodeId> = Vec::new();
    let mut i: usize = 0;
    while i < views.len()
        invariant
            i <= views.len(),
            reachable_from(views@, 0, Seq::empty()) == reachable_from(views@, i as int, ids@),
        decreases views.len() - i,
    {
        match &views[i].visibility {
            Err(message) => {
                return Err(NativeFault::Database(message.clone()));
            },
            Ok(visibility) => {
                let ghost start = ids@;
                let mut n: usize = 0;
                while n < visibility.changes.len()
                    invariant
                        n <= visibility.changes.len(),
                        ids@ == with_reachable(visibility.changes@, n as int, start),
                    decreases visibility.changes.len() - n,
                {
                    let id: NodeId = visibility.changes[n];
                    if !id.is_root() && !collections::contains(&ids, id) {
                        ids.push(id);
                    }
                    n = n + 1;
                }
            },
        }
        i = i + 1;
    }
    Ok(ids)
}

/// The recorded dependencies of a change, by number.
pub open spec fn dependencies_of(tables: PristineModel, id: NodeId) -> Option<Seq<ContentHash>> {
    match tables.ids().index_of_first(id) {
        Some(i) => tables.changes[i].dependencies,
        None => None,
    }
}

/// Adds a change to `done`, after the reachable changes that it depends on.
/// `stack` holds the changes being visited.
pub open spec fn visit(
    tables: PristineModel,
    reachable: Seq<NodeId>,
    id: NodeId,
    stack: Seq<NodeId>,
    done: Seq<NodeId>,
) -> Result<Seq<NodeId>, NativeRefusal>
    decreases reachable.len() - stack.len(), 0int,
{
    if done.contains(id) {
        Ok(done)
    } else if stack.contains(id) || stack.len() >= reachable.len() {
        Err(NativeRefusal::DependencyCycle { change: id })
    } else {
        match dependencies_of(tables, id) {
            None => Err(NativeRefusal::DependenciesUnavailable { change: id }),
            Some(list) => match visit_all(tables, reachable, id, list, 0, stack.push(id), done) {
                Err(refusal) => Err(refusal),
                Ok(done) => Ok(done.push(id)),
            },
        }
    }
}

/// Visits the reachable dependencies of `id` from the `k`-th on.
pub open spec fn visit_all(
    tables: PristineModel,
    reachable: Seq<NodeId>,
    id: NodeId,
    list: Seq<ContentHash>,
    k: int,
    stack: Seq<NodeId>,
    done: Seq<NodeId>,
) -> Result<Seq<NodeId>, NativeRefusal>
    decreases reachable.len() - stack.len(), list.len() - k + 1,
{
    if k < 0 || k >= list.len() {
        Ok(done)
    } else {
        match tables.internal(list[k]) {
            None => Err(
                NativeRefusal::UnregisteredDependency { change: id, dependency: list[k] },
            ),
            Some(dependency) => if !reachable.contains(dependency) {
                visit_all(tables, reachable, id, list, k + 1, stack, done)
            } else {
                match visit(tables, reachable, dependency, stack, done) {
                    Err(refusal) => Err(refusal),
                    Ok(done) => visit_all(tables, reachable, id, list, k + 1, stack, done),
                }
            },
        }
    }
}

/// Visits the reachable changes from the `i`-th on.
pub open spec fn replay_from(
    tables: PristineModel,
    reachable: Seq<NodeId>,
    i: int,
    done: Seq<NodeId>,
) -> Result<Seq<NodeId>, NativeRefusal>
    decreases reachable.len() - i,
{
    if i < 0 || i >= reachable.len() {
        Ok(done)
    } else {
        match visit(tables, reachable, reachable[i], Seq::empty(), done) {
            Err(refusal) => Err(refusal),
            Ok(done) => replay_from(tables, reachable, i + 1, done),
        }
    }
}

/// Distinct members of a list are no more than the list has.
pub proof fn members_fit(members: Seq<NodeId>, reachable: Seq<NodeId>)
    requires
        members.no_duplicates(),
        forall|k: int| 0 <= k < members.len() ==> reachable.contains(#[trigger] members[k]),
    ensures
        members.len() <= reachable.len(),
{
    members.unique_seq_to_set();
    reachable.lemma_cardinality_of_set();
    assert(members.to_set().subset_of(reachable.to_set()));
    vstd::set_lib::lemma_len_subset(members.to_set(), reachable.to_set());
}

fn find_dependencies(tables: &Pristine, id: NodeId) -> (row: Option<usize>)
    ensures
        match row {
            Some(i) => i < tables.changes@.len() && tables@.ids().index_of_first(id) == Some(
                i as int,
            ),
            None => tables@.ids().index_of_first(id) is None,
        },
{
    let ghost ids = tables@.ids();
    proof {
        ids.index_of_first_ensures(id);
    }
    let mut i: usize = 0;
    while i < tables.changes.len()
        invariant
            i <= tables.changes.len(),
            ids == tables@.ids(),
            ids.len() == tables.changes@.len(),
            forall|j: int| 0 <= j < i ==> ids[j] != id,
            match ids.index_of_first(id) {
                Some(k) => 0 <= k < ids.len() && ids[k] == id && forall|j: int|
                    0 <= j < k ==> ids[j] != id,
                None => forall|j: int| 0 <= j < ids.len() ==> ids[j] != id,
            },
        decreases tables.changes.len() - i,
    {
        assert(ids[i as int] == tables.changes@[i as int].id);
        if tables.changes[i].id == id {
            return Some(i);
        }
        i = i + 1;
    }
    None
}

/// Adds a change to those done, after the reachable changes that it depends on.
pub fn visit_reachable_change(
    tables: &Pristine,
    reachable: &Vec<NodeId>,
    id: NodeId,
    stack: &mut Vec<NodeId>,
    done: &mut Vec<NodeId>,
) -> (visited: Result<(), NativeRefusal>)
    requires
        old(stack)@.no_duplicates(),
        forall|k: int| 0 <= k < old(stack)@.len() ==> reachable@.contains(#[trigger] old(stack)@[k]),
        reachable@.contains(id),
    ensures
        match visited {
            Ok(_) => final(stack)@ == old(stack)@ && visit(
                tables@,
                reachable@,
                id,
                old(stack)@,
                old(done)@,
            ) == Ok::<Seq<NodeId>, NativeRefusal>(final(done)@),
            Err(refusal) => visit(tables@, reachable@, id, old(stack)@, old(done)@) == Err::<
                Seq<NodeId>,
                NativeRefusal,
            >(refusal),
        },
    decreases reachable@.len() - old(stack)@.len(),
{
    if collections::contains(done, id) {
        return Ok(());
    }
    if collections::contains(stack, id) {
        return Err(NativeRefusal::DependencyCycle { change: id });
    }
    proof {
        members_fit(stack@.push(id), reachable@);
    }
    let row: usize = match find_dependencies(tables, id) {
        None => {
            return Err(NativeRefusal::DependenciesUnavailable { change: id });
        },
        Some(row) => row,
    };
    assert(tables@.changes[row as int] == tables.changes@[row as int]@);
    match &tables.changes[row].dependencies {
        None => Err(NativeRefusal::DependenciesUnavailable { change: id }),
        Some(list) => {
            stack.push(id);
            let ghost inner = stack@;
            let ghost start = done@;
            let mut k: usize = 0;
            while k < list.len()
                invariant
                    k <= list.len(),
                    inner.no_duplicates(),
                    inner == old(stack)@.push(id),
                    stack@ == inner,
                    start == old(done)@,
                    reachable@.len() > old(stack)@.len(),
                    forall|j: int| 0 <= j < inner.len() ==> reachable@.contains(#[trigger] inner[j]),
                    !old(done)@.contains(id),
                    !old(stack)@.contains(id),
                    dependencies_of(tables@, id) == Some(list@),
                    visit_all(tables@, reachable@, id, list@, 0, inner, start) == visit_all(
                        tables@,
                        reachable@,
                        id,
                        list@,
                        k as int,
                        inner,
                        done@,
                    ),
                decreases list.len() - k,
            {
                match tables.get_internal(list[k]) {
                    None => {
                        return Err(
                            NativeRefusal::UnregisteredDependency { change: id, dependency: list[k] },
                        );
                    },
                    Some(dependency) => {
                        if collections::contains(reachable, dependency) {
                            match visit_reachable_change(
                                tables,
                                reachable,
                                dependency,
                                stack,
                                done,
                            ) {
                                Err(refusal) => {
                                    return Err(refusal);
                                },
                                Ok(_) => {},
                            }
                        }
                    },
                }
                k = k + 1;
            }
            stack.pop();
            assert(stack@ =~= old(stack)@);
            done.push(id);
            Ok(())
        },
    }
}

/// The reachable changes, every one after the reachable changes that it
/// depends on.
pub fn replay_order(tables: &Pristine, reachable: &Vec<NodeId>) -> (ordered: Result<
    Vec<NodeId>,
    NativeRefusal,
>)
    ensures
        match replay_from(tables@, reachable@, 0, Seq::empty()) {
            Err(refusal) => ordered == Err::<Vec<NodeId>, NativeRefusal>(refusal),
            Ok(list) => ordered matches Ok(ids) && ids@ == list,
        },
{
    let mut done: Vec<NodeId> = Vec::new();
    let mut i: usize = 0;
    while i < reachable.len()
        invariant
            i <= reachable.len(),
            replay_from(tables@, reachable@, 0, Seq::empty()) == replay_from(
                tables@,
                reachable@,
                i as int,
                done@,
            ),
        decreases reachable.len() - i,
    {
        let mut stack: Vec<NodeId> = Vec::new();
        let id: NodeId = reachable[i];
        assert(reachable@.contains(id));
        assert(stack@ =~= Seq::empty());
        match visit_reachable_change(tables, reachable, id, &mut stack, &mut done) {
            Err(refusal) => {
                return Err(refusal);
            },
            Ok(_) => {},
        }
        i = i + 1;
    }
    Ok(done)
}

/// The reachable dependencies of a change, by number.
pub open spec fn depends(tables: PristineModel, id: NodeId, on: NodeId) -> bool {
    dependencies_of(tables, id) matches Some(list) && exists|d: int|
        0 <= d < list.len() && tables.internal(#[trigger] list[d]) == Some(on)
}

/// Lists changes once each, every one after the reachable changes on which it
/// directly depends.
pub open spec fn replays_in_order(
    tables: PristineModel,
    reachable: Seq<NodeId>,
    done: Seq<NodeId>,
) -> bool {
    &&& done.no_duplicates()
    &&& forall|k: int| 0 <= k < done.len() ==> reachable.contains(#[trigger] done[k])
    &&& forall|k: int, on: NodeId|
        0 <= k < done.len() && #[trigger] depends(tables, done[k], on) && reachable.contains(on)
            ==> done.take(k).contains(on)
}

/// Visiting a change keeps what was visited in order, and adds the change.
pub proof fn visit_keeps_order(
    tables: PristineModel,
    reachable: Seq<NodeId>,
    id: NodeId,
    stack: Seq<NodeId>,
    done: Seq<NodeId>,
)
    requires
        reachable.contains(id),
        replays_in_order(tables, reachable, done),
    ensures
        match visit(tables, reachable, id, stack, done) {
            Ok(out) => {
                &&& replays_in_order(tables, reachable, out)
                &&& out.contains(id)
                &&& done.is_prefix_of(out)
                &&& forall|x: NodeId|
                    #[trigger] stack.contains(x) && !done.contains(x) ==> !out.contains(x)
            },
            Err(_) => true,
        },
    decreases reachable.len() - stack.len(), 0int,
{
    let out = visit(tables, reachable, id, stack, done);
    if out is Ok && !done.contains(id) {
        let list = dependencies_of(tables, id)->0;
        let inner = stack.push(id);
        visit_all_keeps_order(tables, reachable, id, list, 0, inner, done);
        let mid = visit_all(tables, reachable, id, list, 0, inner, done)->Ok_0;
        assert(inner[stack.len() as int] == id);
        assert(inner.contains(id));
        assert(!mid.contains(id));
        let end = mid.push(id);
        assert(out->Ok_0 == end);
        assert(end[mid.len() as int] == id);
        assert forall|k: int, on: NodeId|
            0 <= k < end.len() && #[trigger] depends(tables, end[k], on) && reachable.contains(
                on,
            ) implies end.take(k).contains(on) by {
            if k < mid.len() {
                assert(end.take(k) =~= mid.take(k));
                assert(end[k] == mid[k]);
                assert(depends(tables, mid[k], on));
            } else {
                assert(end.take(k) =~= mid);
                let d = choose|d: int|
                    0 <= d < list.len() && tables.internal(#[trigger] list[d]) == Some(on);
                assert(mid.contains(on));
            }
        }
        assert forall|x: NodeId| #[trigger] stack.contains(x) && !done.contains(
            x,
        ) implies !end.contains(x) by {
            let at = stack.index_of(x);
            assert(inner[at] == x);
            assert(inner.contains(x));
            assert(x != id);
            if end.contains(x) {
                let e = end.index_of(x);
                assert(end[e] == x);
                assert(mid[e] == x);
            }
        }
        assert(done =~= end.subrange(0, done.len() as int));
    } else if out is Ok {
        assert(done =~= done.subrange(0, done.len() as int));
    }
}

proof fn visit_all_keeps_order(
    tables: PristineModel,
    reachable: Seq<NodeId>,
    id: NodeId,
    list: Seq<ContentHash>,
    k: int,
    stack: Seq<NodeId>,
    done: Seq<NodeId>,
)
    requires
        0 <= k <= list.len(),
        replays_in_order(tables, reachable, done),
    ensures
        match visit_all(tables, reachable, id, list, k, stack, done) {
            Ok(out) => {
                &&& replays_in_order(tables, reachable, out)
                &&& done.is_prefix_of(out)
                &&& forall|d: int|
                    #![trigger list[d]]
                    k <= d < list.len() && reachable.contains(tables.internal(list[d])->0)
                        ==> out.contains(tables.internal(list[d])->0)
                &&& forall|x: NodeId|
                    #[trigger] stack.contains(x) && !done.contains(x) ==> !out.contains(x)
            },
            Err(_) => true,
        },
    decreases reachable.len() - stack.len(), list.len() - k + 1,
{
    let out = visit_all(tables, reachable, id, list, k, stack, done);
    if out is Ok {
        let end = out->Ok_0;
        if k == list.len() {
            assert(done =~= done.subrange(0, done.len() as int));
        } else {
            let dependency = tables.internal(list[k])->0;
            if !reachable.contains(dependency) {
                visit_all_keeps_order(tables, reachable, id, list, k + 1, stack, done);
            } else {
                visit_keeps_order(tables, reachable, dependency, stack, done);
                let mid = visit(tables, reachable, dependency, stack, done)->Ok_0;
                visit_all_keeps_order(tables, reachable, id, list, k + 1, stack, mid);
                assert(done =~= end.subrange(0, done.len() as int)) by {
                    assert forall|j: int| 0 <= j < done.len() implies done[j] == end[j] by {
                        assert(mid[j] == end.subrange(0, mid.len() as int)[j]);
                        assert(done[j] == mid.subrange(0, done.len() as int)[j]);
                    }
                }
                assert(end.contains(dependency)) by {
                    let at = mid.index_of(dependency);
                    assert(mid[at] == end.subrange(0, mid.len() as int)[at]);
                    assert(end[at] == dependency);
                }
            }
        }
    }
}

proof fn replay_from_keeps_order(
    tables: PristineModel,
    reachable: Seq<NodeId>,
    i: int,
    done: Seq<NodeId>,
)
    requires
        0 <= i <= reachable.len(),
        replays_in_order(tables, reachable, done),
        forall|k: int| 0 <= k < i ==> done.contains(#[trigger] reachable[k]),
    ensures
        match replay_from(tables, reachable, i, done) {
            Ok(out) => {
                &&& replays_in_order(tables, reachable, out)
                &&& forall|k: int|
                    0 <= k < reachable.len() ==> out.contains(#[trigger] reachable[k])
            },
            Err(_) => true,
        },
    decreases reachable.len() - i,
{
    if i < reachable.len() && visit(tables, reachable, reachable[i], Seq::empty(), done) is Ok {
        visit_keeps_order(tables, reachable, reachable[i], Seq::empty(), done);
        let mid = visit(tables, reachable, reachable[i], Seq::empty(), done)->Ok_0;
        assert forall|k: int| 0 <= k < i + 1 implies mid.contains(#[trigger] reachable[k]) by {
            if k < i {
                let at = done.index_of(reachable[k]);
                assert(done[at] == mid.subrange(0, done.len() as int)[at]);
                assert(mid[at] == reachable[k]);
            }
        }
        replay_from_keeps_order(tables, reachable, i + 1, mid);
    }
}

/// Changes are replayed once each, every one after the reachable changes on
/// which it directly depends, and none is left out.
pub proof fn replay_puts_dependencies_first(tables: PristineModel, reachable: Seq<NodeId>)
    ensures
        replay_from(tables, reachable, 0, Seq::empty()) matches Ok(list) ==> replays_in_order(
            tables,
            reachable,
            list,
        ) && list.to_set() == reachable.to_set(),
{
    replay_from_keeps_order(tables, reachable, 0, Seq::empty());
    if let Ok(list) = replay_from(tables, reachable, 0, Seq::empty()) {
        assert(list.to_set() =~= reachable.to_set()) by {
            assert forall|x: NodeId| reachable.contains(x) implies #[trigger] list.contains(x) by {
                let at = reachable.index_of(x);
                assert(reachable[at] == x);
            }
            assert forall|x: NodeId| #[trigger] list.contains(x) implies reachable.contains(x) by {
                let at = list.index_of(x);
                assert(list[at] == x);
            }
        }
    }
}

/// The roots that a change creates, in the order of its operations, or why it
/// could not be loaded.
#[derive(Debug)]
pub struct ChangeRoots {
    pub change: NodeId,
    /// The change's hash as it is written out.
    pub name: String,
    pub roots: Result<Vec<(u64, PathClaimKind)>, String>,
}

/// What is said of a change that could not be loaded.
pub open spec fn unloaded_text(name: Seq<char>, cause: Seq<char>) -> Seq<char> {
    "cannot load reachable change "@ + name + " while rebuilding native indexes: "@ + cause
}

/// The graph as far as roots go.
#[derive(Debug)]
pub struct NativeGraph {
    /// INODE_GRAPH keys.
    pub keys: Vec<(Inode, GraphNode)>,
    /// GRAPH vertices.
    pub vertices: Vec<GraphNode>,
}

/// Order of positions: change, then place.
pub open spec fn position_before(a: Position, b: Position) -> bool {
    if a.change.0 != b.change.0 {
        a.change.0 < b.change.0
    } else {
        a.pos < b.pos
    }
}

/// Where a position goes among ordered roots, from the `i`-th on.
pub open spec fn root_place(roots: Seq<(Position, PathClaimKind)>, position: Position, i: int) -> int
    decreases roots.len() - i,
{
    if i < 0 || i >= roots.len() {
        roots.len() as int
    } else if position_before(position, roots[i].0) {
        i
    } else {
        root_place(roots, position, i + 1)
    }
}

/// Ordered roots with one more; a root keeps its kind.
pub open spec fn with_root(
    roots: Seq<(Position, PathClaimKind)>,
    position: Position,
    kind: PathClaimKind,
) -> Result<Seq<(Position, PathClaimKind)>, NativeRefusal> {
    match pristine::first_value(roots, position) {
        Some(known) => if known != kind {
            Err(NativeRefusal::RootKindChanged { position })
        } else {
            Ok(roots)
        },
        None => Ok(roots.insert(root_place(roots, position, 0), (position, kind))),
    }
}

/// Adds the roots of a change from the `k`-th on.
pub open spec fn with_change_roots(
    change: NodeId,
    list: Seq<(u64, PathClaimKind)>,
    k: int,
    roots: Seq<(Position, PathClaimKind)>,
) -> Result<Seq<(Position, PathClaimKind)>, NativeRefusal>
    decreases list.len() - k,
{
    if k < 0 || k >= list.len() {
        Ok(roots)
    } else {
        match with_root(roots, Position { change, pos: list[k].0 }, list[k].1) {
            Err(refusal) => Err(refusal),
            Ok(roots) => with_change_roots(change, list, k + 1, roots),
        }
    }
}

/// Place of what was loaded of a change, from the `i`-th on.
pub open spec fn loaded_from(loaded: Seq<ChangeRoots>, change: NodeId, i: int) -> Option<int>
    decreases loaded.len() - i,
{
    if i < 0 || i >= loaded.len() {
        None
    } else if loaded[i].change == change {
        Some(i)
    } else {
        loaded_from(loaded, change, i + 1)
    }
}

/// Adds the roots of the ordered changes from the `i`-th on.
pub open spec fn roots_from(
    tables: PristineModel,
    loaded: Seq<ChangeRoots>,
    ordered: Seq<NodeId>,
    i: int,
    roots: Seq<(Position, PathClaimKind)>,
) -> Result<Seq<(Position, PathClaimKind)>, FaultModel>
    decreases ordered.len() - i,
{
    if i < 0 || i >= ordered.len() {
        Ok(roots)
    } else if tables.external(ordered[i]) is None {
        Err(FaultModel::Refused(NativeRefusal::UnhashedChange { change: ordered[i] }))
    } else {
        match loaded_from(loaded, ordered[i], 0) {
            None => Err(FaultModel::Refused(NativeRefusal::UnreadChange { change: ordered[i] })),
            Some(at) => match loaded[at].roots {
                Err(cause) => Err(FaultModel::Database(unloaded_text(loaded[at].name@, cause@))),
                Ok(list) => match with_change_roots(ordered[i], list@, 0, roots) {
                    Err(refusal) => Err(FaultModel::Refused(refusal)),
                    Ok(roots) => roots_from(tables, loaded, ordered, i + 1, roots),
                },
            },
        }
    }
}

fn is_position_before(a: Position, b: Position) -> (answer: bool)
    ensures
        answer == position_before(a, b),
{
    if a.change.0 != b.change.0 {
        a.change.0 < b.change.0
    } else {
        a.pos < b.pos
    }
}

fn add_root(
    roots: &mut Vec<(Position, PathClaimKind)>,
    position: Position,
    kind: PathClaimKind,
) -> (added: Result<(), NativeRefusal>)
    ensures
        match with_root(old(roots)@, position, kind) {
            Err(refusal) => added == Err::<(), NativeRefusal>(refusal),
            Ok(list) => added is Ok && final(roots)@ == list,
        },
{
    match pristine::find_value(roots, position) {
        Some(known) => {
            if known != kind {
                return Err(NativeRefusal::RootKindChanged { position });
            }
        },
        None => {
            let ghost before = roots@;
            let mut at: usize = 0;
            while at < roots.len() && !is_position_before(position, roots[at].0)
                invariant
                    at <= roots.len(),
                    roots@ == before,
                    root_place(before, position, 0) == root_place(before, position, at as int),
                decreases roots.len() - at,
            {
                at = at + 1;
            }
            assert(root_place(before, position, 0) == at);
            roots.insert(at, (position, kind));
        },
    }
    Ok(())
}

/// The roots that the ordered changes create, in position order.
pub fn collect_roots(tables: &Pristine, loaded: &Vec<ChangeRoots>, ordered: &Vec<NodeId>) -> (found:
    Result<Vec<(Position, PathClaimKind)>, NativeFault>)
    ensures
        match roots_from(tables@, loaded@, ordered@, 0, Seq::empty()) {
            Err(model) => found matches Err(fault) && fault@ == model,
            Ok(list) => found matches Ok(roots) && roots@ == list,
        },
{
    let mut roots: Vec<(Position, PathClaimKind)> = Vec::new();
    let mut i: usize = 0;
    while i < ordered.len()
        invariant
            i <= ordered.len(),
            roots_from(tables@, loaded@, ordered@, 0, Seq::empty()) == roots_from(
                tables@,
                loaded@,
                ordered@,
                i as int,
                roots@,
            ),
        decreases ordered.len() - i,
    {
        let change: NodeId = ordered[i];
        if tables.get_external(change).is_none() {
            return Err(NativeFault::Refused(NativeRefusal::UnhashedChange { change }));
        }
        let mut at: usize = 0;
        while at < loaded.len() && loaded[at].change != change
            invariant
                at <= loaded.len(),
                loaded_from(loaded@, change, 0) == loaded_from(loaded@, change, at as int),
            decreases loaded.len() - at,
        {
            at = at + 1;
        }
        if at == loaded.len() {
            return Err(NativeFault::Refused(NativeRefusal::UnreadChange { change }));
        }
        match &loaded[at].roots {
            Err(cause) => {
                let mut message: String = "cannot load reachable change ".to_owned();
                message.append(loaded[at].name.as_str());
                message.append(" while rebuilding native indexes: ");
                message.append(cause.as_str());
                return Err(NativeFault::Database(message));
            },
            Ok(list) => {
                let ghost start = roots@;
                let mut k: usize = 0;
                while k < list.len()
                    invariant
                        k <= list.len(),
                        i < ordered.len(),
                        change == ordered@[i as int],
                        at < loaded.len(),
                        tables@.external(change) is Some,
                        loaded_from(loaded@, change, 0) == Some(at as int),
                        loaded@[at as int].roots == Ok::<Vec<(u64, PathClaimKind)>, String>(*list),
                        roots_from(tables@, loaded@, ordered@, 0, Seq::empty()) == roots_from(
                            tables@,
                            loaded@,
                            ordered@,
                            i as int,
                            start,
                        ),
                        with_change_roots(change, list@, 0, start) == with_change_roots(
                            change,
                            list@,
                            k as int,
                            roots@,
                        ),
                    decreases list.len() - k,
                {
                    match add_root(&mut roots, Position { change, pos: list[k].0 }, list[k].1) {
                        Err(refusal) => {
                            return Err(NativeFault::Refused(refusal));
                        },
                        Ok(_) => {},
                    }
                    k = k + 1;
                }
            },
        }
        i = i + 1;
    }
    Ok(roots)
}

/// The empty node at which a root stands.
pub open spec fn root_node(position: Position) -> GraphNode {
    GraphNode { change: position.change, start: position.pos, end: position.pos }
}

/// The inodes among the first `n` graph keys that hold a root, once each.
pub open spec fn owners(keys: Seq<(Inode, GraphNode)>, position: Position, n: int) -> Seq<Inode>
    decreases n,
{
    if n <= 0 {
        Seq::empty()
    } else {
        let rest = owners(keys, position, n - 1);
        if keys[n - 1].1 == root_node(position) && !rest.contains(keys[n - 1].0) {
            rest.push(keys[n - 1].0)
        } else {
            rest
        }
    }
}

/// The inode that owns a root. Where the graph leaves several, or none, the
/// stored binding decides, if it is one of them.
pub open spec fn owner_of(
    keys: Seq<(Inode, GraphNode)>,
    vertices: Seq<GraphNode>,
    rev_inodes: Seq<(Position, Inode)>,
    position: Position,
) -> Result<Inode, NativeRefusal> {
    let candidates = owners(keys, position, keys.len() as int);
    let bound = pristine::first_value(rev_inodes, position);
    let chosen = if candidates.len() == 1 {
        Some(candidates[0])
    } else if bound is Some && candidates.contains(bound->0) {
        bound
    } else {
        None
    };
    match chosen {
        None => Err(
            NativeRefusal::AmbiguousOwner { position, candidates: candidates.len() as usize },
        ),
        Some(inode) => if !vertices.contains(root_node(position)) {
            Err(NativeRefusal::MissingVertex { position, inode })
        } else if bound is Some && bound->0 != inode {
            Err(NativeRefusal::OwnerMismatch { position, inode, bound: bound->0 })
        } else {
            Ok(inode)
        },
    }
}

fn find_owner(graph: &NativeGraph, rev_inodes: &Vec<(Position, Inode)>, position: Position) -> (owner:
    Result<Inode, NativeRefusal>)
    ensures
        owner == owner_of(graph.keys@, graph.vertices@, rev_inodes@, position),
{
    let node = GraphNode { change: position.change, start: position.pos, end: position.pos };
    let mut candidates: Vec<Inode> = Vec::new();
    let mut n: usize = 0;
    while n < graph.keys.len()
        invariant
            n <= graph.keys.len(),
            node == root_node(position),
            candidates@ == owners(graph.keys@, position, n as int),
        decreases graph.keys.len() - n,
    {
        if graph.keys[n].1 == node && !collections::contains(&candidates, graph.keys[n].0) {
            candidates.push(graph.keys[n].0);
        }
        n = n + 1;
    }
    let bound: Option<Inode> = pristine::find_value(rev_inodes, position);
    let inode: Inode = if candidates.len() == 1 {
        candidates[0]
    } else {
        match bound {
            Some(existing) => if collections::contains(&candidates, existing) {
                existing
            } else {
                return Err(
                    NativeRefusal::AmbiguousOwner { position, candidates: candidates.len() },
                );
            },
            None => {
                return Err(
                    NativeRefusal::AmbiguousOwner { position, candidates: candidates.len() },
                );
            },
        }
    };
    if !collections::contains(&graph.vertices, node) {
        return Err(NativeRefusal::MissingVertex { position, inode });
    }
    if let Some(existing) = bound {
        if existing != inode {
            return Err(NativeRefusal::OwnerMismatch { position, inode, bound: existing });
        }
    }
    Ok(inode)
}

/// The owners of the roots from the `i`-th on, after `found`.
pub open spec fn bindings_from(
    keys: Seq<(Inode, GraphNode)>,
    vertices: Seq<GraphNode>,
    rev_inodes: Seq<(Position, Inode)>,
    roots: Seq<(Position, PathClaimKind)>,
    i: int,
    found: Seq<(Position, Inode)>,
) -> Result<Seq<(Position, Inode)>, NativeRefusal>
    decreases roots.len() - i,
{
    if i < 0 || i >= roots.len() {
        Ok(found)
    } else {
        match owner_of(keys, vertices, rev_inodes, roots[i].0) {
            Err(refusal) => Err(refusal),
            Ok(inode) => bindings_from(
                keys,
                vertices,
                rev_inodes,
                roots,
                i + 1,
                found.push((roots[i].0, inode)),
            ),
        }
    }
}

fn bind_roots(
    graph: &NativeGraph,
    rev_inodes: &Vec<(Position, Inode)>,
    roots: &Vec<(Position, PathClaimKind)>,
) -> (bindings: Result<Vec<(Position, Inode)>, NativeRefusal>)
    ensures
        match bindings_from(
            graph.keys@,
            graph.vertices@,
            rev_inodes@,
            roots@,
            0,
            Seq::empty(),
        ) {
            Err(refusal) => bindings == Err::<Vec<(Position, Inode)>, NativeRefusal>(refusal),
            Ok(list) => bindings matches Ok(found) && found@ == list,
        },
{
    let mut found: Vec<(Position, Inode)> = Vec::new();
    let mut i: usize = 0;
    while i < roots.len()
        invariant
            i <= roots.len(),
            bindings_from(graph.keys@, graph.vertices@, rev_inodes@, roots@, 0, Seq::empty())
                == bindings_from(
                graph.keys@,
                graph.vertices@,
                rev_inodes@,
                roots@,
                i as int,
                found@,
            ),
        decreases roots.len() - i,
    {
        match find_owner(graph, rev_inodes, roots[i].0) {
            Err(refusal) => {
                return Err(refusal);
            },
            Ok(inode) => {
                found.push((roots[i].0, inode));
            },
        }
        i = i + 1;
    }
    Ok(found)
}

/// What claims are replayed from: the changes in order, and who owns the roots
/// that they create.
#[derive(Debug)]
pub struct NativeRoots {
    pub ordered: Vec<NodeId>,
    /// Roots with their owners, in position order.
    pub bindings: Vec<(Position, Inode)>,
}

/// The changes in order, and who owns the roots that they create.
pub open spec fn native_roots(repo: Repository, loaded: Seq<ChangeRoots>, graph: NativeGraph) -> Result<
    (Seq<NodeId>, Seq<(Position, Inode)>),
    FaultModel,
> {
    match reachable_from(repo.views@, 0, Seq::empty()) {
        Err(fault) => Err(fault),
        Ok(reachable) => match replay_from(repo.pristine@, reachable, 0, Seq::empty()) {
            Err(refusal) => Err(FaultModel::Refused(refusal)),
            Ok(ordered) => match roots_from(repo.pristine@, loaded, ordered, 0, Seq::empty()) {
                Err(fault) => Err(fault),
                Ok(roots) => match bindings_from(
                    graph.keys@,
                    graph.vertices@,
                    repo.pristine@.rev_inodes,
                    roots,
                    0,
                    Seq::empty(),
                ) {
                    Err(refusal) => Err(FaultModel::Refused(refusal)),
                    Ok(bindings) => Ok((ordered, bindings)),
                },
            },
        },
    }
}

impl Repository {
    /// The changes that some view shows, in replay order, and who owns the
    /// roots that they create. `loaded` is what was loaded of them.
    pub fn find_native_roots(&self, loaded: &Vec<ChangeRoots>, graph: &NativeGraph) -> (found: Result<
        NativeRoots,
        NativeFault,
    >)
        ensures
            match native_roots(*self, loaded@, *graph) {
                Err(model) => found matches Err(fault) && fault@ == model,
                Ok((ordered, bindings)) => found matches Ok(roots) && roots.ordered@ == ordered
                    && roots.bindings@ == bindings && in_position_order(roots.bindings@),
            },
    {
        let reachable: Vec<NodeId> = match reachable_changes(&self.views) {
            Err(fault) => {
                return Err(fault);
            },
            Ok(reachable) => reachable,
        };
        let ordered: Vec<NodeId> = match replay_order(&self.pristine, &reachable) {
            Err(refusal) => {
                return Err(NativeFault::Refused(refusal));
            },
            Ok(ordered) => ordered,
        };
        let roots: Vec<(Position, PathClaimKind)> = match collect_roots(
            &self.pristine,
            loaded,
            &ordered,
        ) {
            Err(fault) => {
                return Err(fault);
            },
            Ok(roots) => roots,
        };
        proof {
            bindings_are_in_order(*self, loaded@, *graph);
        }
        match bind_roots(graph, &self.pristine.rev_inodes, &roots) {
            Err(refusal) => Err(NativeFault::Refused(refusal)),
            Ok(bindings) => Ok(NativeRoots { ordered, bindings }),
        }
    }
}

/// Pairs in the order of their positions, each position once.
pub open spec fn in_position_order<V>(pairs: Seq<(Position, V)>) -> bool {
    forall|i: int, j: int|
        #![trigger pairs[i], pairs[j]]
        0 <= i < j < pairs.len() ==> position_before(pairs[i].0, pairs[j].0)
}

proof fn root_place_fits(roots: Seq<(Position, PathClaimKind)>, position: Position, i: int)
    requires
        0 <= i <= roots.len(),
    ensures
        i <= root_place(roots, position, i) <= roots.len(),
        forall|k: int|
            i <= k < root_place(roots, position, i) ==> !position_before(
                position,
                (#[trigger] roots[k]).0,
            ),
        root_place(roots, position, i) < roots.len() ==> position_before(
            position,
            roots[root_place(roots, position, i)].0,
        ),
    decreases roots.len() - i,
{
    if i < roots.len() && !position_before(position, roots[i].0) {
        root_place_fits(roots, position, i + 1);
    }
}

proof fn with_root_keeps_order(
    roots: Seq<(Position, PathClaimKind)>,
    position: Position,
    kind: PathClaimKind,
)
    requires
        in_position_order(roots),
    ensures
        with_root(roots, position, kind) matches Ok(grown) ==> in_position_order(grown),
{
    if pristine::first_value(roots, position) is None {
        let at = root_place(roots, position, 0);
        root_place_fits(roots, position, 0);
        let grown = roots.insert(at, (position, kind));
        assert forall|i: int, j: int|
            #![trigger grown[i], grown[j]]
            0 <= i < j < grown.len() implies position_before(grown[i].0, grown[j].0) by {
            let a = if i < at {
                i
            } else {
                i - 1
            };
            let b = if j < at {
                j
            } else {
                j - 1
            };
            if i == at {
                assert(grown[j] == roots[b]);
                assert(position_before(position, roots[at].0));
                if b > at {
                    assert(position_before(roots[at].0, roots[b].0));
                }
            } else {
                assert(grown[i] == roots[a]);
                if j == at {
                    pristine::no_first_value(roots, position, a);
                } else {
                    assert(grown[j] == roots[b]);
                }
            }
        }
    }
}

proof fn with_change_roots_keeps_order(
    change: NodeId,
    list: Seq<(u64, PathClaimKind)>,
    k: int,
    roots: Seq<(Position, PathClaimKind)>,
)
    requires
        in_position_order(roots),
    ensures
        with_change_roots(change, list, k, roots) matches Ok(grown) ==> in_position_order(grown),
    decreases list.len() - k,
{
    if 0 <= k < list.len() {
        let position = Position { change, pos: list[k].0 };
        with_root_keeps_order(roots, position, list[k].1);
        if let Ok(grown) = with_root(roots, position, list[k].1) {
            with_change_roots_keeps_order(change, list, k + 1, grown);
        }
    }
}

proof fn roots_from_keeps_order(
    tables: PristineModel,
    loaded: Seq<ChangeRoots>,
    ordered: Seq<NodeId>,
    i: int,
    roots: Seq<(Position, PathClaimKind)>,
)
    requires
        in_position_order(roots),
    ensures
        roots_from(tables, loaded, ordered, i, roots) matches Ok(grown) ==> in_position_order(grown),
    decreases ordered.len() - i,
{
    if 0 <= i < ordered.len() && tables.external(ordered[i]) is Some {
        if let Some(at) = loaded_from(loaded, ordered[i], 0) {
            if let Ok(list) = loaded[at].roots {
                with_change_roots_keeps_order(ordered[i], list@, 0, roots);
                if let Ok(grown) = with_change_roots(ordered[i], list@, 0, roots) {
                    roots_from_keeps_order(tables, loaded, ordered, i + 1, grown);
                }
            }
        }
    }
}

proof fn bindings_keep_positions(
    keys: Seq<(Inode, GraphNode)>,
    vertices: Seq<GraphNode>,
    rev_inodes: Seq<(Position, Inode)>,
    roots: Seq<(Position, PathClaimKind)>,
    i: int,
    found: Seq<(Position, Inode)>,
)
    requires
        0 <= i <= roots.len(),
        found.len() == i,
        forall|k: int| 0 <= k < i ==> (#[trigger] found[k]).0 == roots[k].0,
    ensures
        bindings_from(keys, vertices, rev_inodes, roots, i, found) matches Ok(list) ==> list.len()
            == roots.len() && forall|k: int|
            0 <= k < list.len() ==> (#[trigger] list[k]).0 == roots[k].0,
    decreases roots.len() - i,
{
    if i < roots.len() {
        if let Ok(inode) = owner_of(keys, vertices, rev_inodes, roots[i].0) {
            bindings_keep_positions(
                keys,
                vertices,
                rev_inodes,
                roots,
                i + 1,
                found.push((roots[i].0, inode)),
            );
        }
    }
}

/// Roots are bound in the order of their positions, each position once.
pub proof fn bindings_are_in_order(repo: Repository, loaded: Seq<ChangeRoots>, graph: NativeGraph)
    ensures
        native_roots(repo, loaded, graph) matches Ok((_, bindings)) ==> in_position_order(bindings),
{
    if let Ok((ordered, bindings)) = native_roots(repo, loaded, graph) {
        roots_from_keeps_order(repo.pristine@, loaded, ordered, 0, Seq::empty());
        let roots = roots_from(repo.pristine@, loaded, ordered, 0, Seq::empty())->Ok_0;
        bindings_keep_positions(
            graph.keys@,
            graph.vertices@,
            repo.pristine@.rev_inodes,
            roots,
            0,
            Seq::empty(),
        );
        assert forall|i: int, j: int|
            #![trigger bindings[i], bindings[j]]
            0 <= i < j < bindings.len() implies position_before(bindings[i].0, bindings[j].0) by {
            assert(position_before(roots[i].0, roots[j].0));
        }
    }
}

} // verus!
