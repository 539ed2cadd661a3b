//! What a view shows at each path.

use crate::deferred_tree;
use crate::deferred_tree::{
    ActionModel, CachedModel, DesiredModel, OpModel, ProjectionModel, ResolvedModel, TreeItem,
    TreeRefusal,
};
use crate::pristine;
use crate::pristine::{PristineModel, Visibility};
use crate::types::{ContentHash, ExternalPosition, Inode, Position};
use crate::word_laws;
use crate::word_laws::{has_last_word, hashes_of, mentions, words};
use vstd::prelude::*;

verus! {

/// Whether the tables say the same both ways: changes are registered once, and
/// TREE with REV_TREE and INODES with REV_INODES hold the same pairs.
pub open spec fn tables_agree(tables: PristineModel) -> bool {
    &&& tables.hashes().no_duplicates()
    &&& tables.ids().no_duplicates()
    &&& forall|inode: Inode, position: Position|
        #![trigger tables.inode_position(inode), tables.position_inode(position)]
        tables.inode_position(inode) == Some(position) <==> tables.position_inode(position)
            == Some(inode)
    &&& forall|path: Seq<char>, inode: Inode|
        #![trigger tables.tree.contains((path, inode))]
        tables.tree.contains((path, inode)) <==> tables.path(inode) == Some(path)
}

/// Whether an inode was recorded at a stable position, which is this one in
/// the graph.
pub open spec fn locates(
    tables: PristineModel,
    at: ExternalPosition,
    inode: Inode,
    position: Position,
) -> bool {
    tables.external(position.change) == Some(at.change) && position.pos == at.pos
        && tables.inode_position(inode) == Some(position)
}

pub(crate) proof fn internal_is_external(tables: PristineModel, at: ExternalPosition)
    requires
        tables.ids().no_duplicates(),
    ensures
        tables.internal(at.change) matches Some(id) ==> tables.external(id) == Some(at.change),
{
    tables.hashes().index_of_first_ensures(at.change);
    if let Some(i) = tables.row(at.change) {
        let id = tables.changes[i].id;
        tables.ids().index_of_first_ensures(id);
        assert(tables.ids()[i] == id);
        assert(tables.hashes()[i] == at.change);
    }
}

pub(crate) proof fn locations_are_unique(
    tables: PristineModel,
    at: ExternalPosition,
    inode: Inode,
    position: Position,
    at2: ExternalPosition,
    inode2: Inode,
    position2: Position,
)
    requires
        tables_agree(tables),
        locates(tables, at, inode, position),
        locates(tables, at2, inode2, position2),
    ensures
        inode == inode2 ==> at == at2 && position == position2,
        at == at2 ==> inode == inode2 && position == position2,
{
    tables.ids().index_of_first_ensures(position.change);
    tables.ids().index_of_first_ensures(position2.change);
    if at == at2 {
        let i = tables.ids().index_of_first(position.change)->0;
        let j = tables.ids().index_of_first(position2.change)->0;
        assert(tables.hashes()[i] == at.change);
        assert(tables.hashes()[j] == at.change);
        assert(i == j);
        assert(tables.position_inode(position) == Some(inode));
        assert(tables.position_inode(position2) == Some(inode2));
    }
}

/// Whether an entry is what some row of the tree cache says.
pub(crate) open spec fn is_cached(tables: PristineModel, entry: CachedModel) -> bool {
    tables.tree.contains((entry.path, entry.inode)) && deferred_tree::cached_entry(
        tables,
        entry.path,
        entry.inode,
    ) == Some(entry)
}

pub(crate) proof fn cache_is_of_rows(tables: PristineModel, i: int, entries: Seq<CachedModel>)
    requires
        0 <= i <= tables.tree.len(),
        forall|k: int| 0 <= k < entries.len() ==> is_cached(tables, #[trigger] entries[k]),
    ensures
        ({
            let all = deferred_tree::cached_from(tables, i, entries);
            &&& forall|k: int| 0 <= k < all.len() ==> is_cached(tables, #[trigger] all[k])
            &&& forall|at: ExternalPosition| #[trigger]
                deferred_tree::cached_positions(entries).contains(at)
                    ==> deferred_tree::cached_positions(all).contains(at)
            &&& forall|r: int|
                i <= r < tables.tree.len() ==> (deferred_tree::cached_entry(
                    tables,
                    (#[trigger] tables.tree[r]).0,
                    tables.tree[r].1,
                ) matches Some(entry) ==> deferred_tree::cached_positions(all).contains(entry.at))
        }),
    decreases tables.tree.len() - i,
{
    if i < tables.tree.len() {
        let (path, inode) = tables.tree[i];
        match deferred_tree::cached_entry(tables, path, inode) {
            None => {
                cache_is_of_rows(tables, i + 1, entries);
                assert(deferred_tree::cached_from(tables, i, entries)
                    == deferred_tree::cached_from(tables, i + 1, entries));
            },
            Some(entry) => {
                let keys = deferred_tree::cached_positions(entries);
                keys.index_of_first_ensures(entry.at);
                let next = deferred_tree::put_cached(entries, entry);
                let more = deferred_tree::cached_positions(next);
                assert(tables.tree.contains(tables.tree[i]));
                assert(entry.path == path && entry.inode == inode);
                assert(is_cached(tables, entry));
                match keys.index_of_first(entry.at) {
                    Some(k) => {
                        assert(keys[k] == entries[k].at);
                        assert(more =~= keys);
                        assert(more[k] == entry.at);
                        assert forall|m: int| 0 <= m < next.len() implies is_cached(
                            tables,
                            #[trigger] next[m],
                        ) by {
                            if m != k {
                                assert(next[m] == entries[m]);
                            }
                        }
                    },
                    None => {
                        assert(more =~= keys.push(entry.at));
                        assert(more[keys.len() as int] == entry.at);
                        assert forall|at: ExternalPosition| #[trigger]
                            keys.contains(at) implies more.contains(at) by {
                            let m = keys.index_of(at);
                            assert(more[m] == at);
                        }
                        assert forall|m: int| 0 <= m < next.len() implies is_cached(
                            tables,
                            #[trigger] next[m],
                        ) by {
                            if m < entries.len() {
                                assert(next[m] == entries[m]);
                            }
                        }
                    },
                }
                cache_is_of_rows(tables, i + 1, next);
                let all = deferred_tree::cached_from(tables, i, entries);
                assert(all == deferred_tree::cached_from(tables, i + 1, next));
                assert(forall|k: int| 0 <= k < all.len() ==> is_cached(tables, #[trigger] all[k]));
                assert(deferred_tree::cached_positions(next).contains(entry.at));
                assert(deferred_tree::cached_positions(all).contains(entry.at));
                assert forall|at: ExternalPosition| #[trigger]
                    keys.contains(at) implies deferred_tree::cached_positions(all).contains(at) by {
                    assert(deferred_tree::cached_positions(next).contains(at));
                }
                assert forall|r: int| i <= r < tables.tree.len() implies (
                deferred_tree::cached_entry(
                    tables,
                    (#[trigger] tables.tree[r]).0,
                    tables.tree[r].1,
                ) matches Some(told) ==> deferred_tree::cached_positions(all).contains(
                    told.at,
                )) by {
                    if r > i {
                        assert(i + 1 <= r);
                    }
                }
            },
        }
    }
}

/// What an inode resolves to is what the tables say of it.
proof fn resolved_is_located(
    tables: PristineModel,
    state: Option<DesiredModel>,
    at: ExternalPosition,
    resolved: ResolvedModel,
)
    requires
        tables_agree(tables),
        deferred_tree::resolve(
            tables,
            deferred_tree::cached_from(tables, 0, Seq::empty()),
            state,
            at,
        ) == Ok::<ResolvedModel, TreeRefusal>(resolved),
    ensures
        locates(tables, at, resolved.inode, resolved.position),
        resolved.path == tables.path(resolved.inode),
        resolved.is_directory == tables.directories.contains(resolved.inode),
{
    let cache = deferred_tree::cached_from(tables, 0, Seq::empty());
    cache_is_of_rows(tables, 0, Seq::empty());
    let keys = deferred_tree::cached_positions(cache);
    keys.index_of_first_ensures(at);
    match keys.index_of_first(at) {
        Some(i) => {
            assert(keys[i] == cache[i].at);
            assert(is_cached(tables, cache[i]));
        },
        None => {
            internal_is_external(tables, at);
            assert(tables.position_inode(resolved.position) == Some(resolved.inode));
            assert(tables.inode_position(resolved.inode) == Some(resolved.position));
        },
    }
}

/// Where a resolved inode goes under a visibility.
pub(crate) open spec fn goes_to(
    visibility: Visibility,
    state: Option<DesiredModel>,
    resolved: ResolvedModel,
) -> Option<Seq<char>> {
    if !visibility.changes@.contains(resolved.position.change) {
        None
    } else {
        match state {
            None => resolved.path,
            Some(desired) => deferred_tree::projected_path(
                desired,
                resolved.path,
                resolved.is_directory,
                visibility.live@.contains(resolved.position),
            ),
        }
    }
}

/// The absences of files, or those of files and directories.
pub open spec fn absences(tree: ProjectionModel, files: bool) -> Map<Seq<char>, Inode> {
    if files {
        tree.absent
    } else {
        tree.absent_metadata
    }
}

/// Whether an inode is told absent at a path.
pub(crate) open spec fn is_gone_at(
    visibility: Visibility,
    state: Option<DesiredModel>,
    resolved: ResolvedModel,
    path: Seq<char>,
    files: bool,
) -> bool {
    &&& visibility.changes@.contains(resolved.position.change)
    &&& goes_to(visibility, state, resolved) is None
    &&& files ==> !resolved.is_directory
    &&& state matches Some(desired) && (desired.known_paths.contains(path) || resolved.path == Some(
        path,
    ))
}

/// The `k`-th position of a list with what it resolves to.
pub(crate) open spec fn nth(
    tables: PristineModel,
    plan: Seq<(ExternalPosition, DesiredModel)>,
    positions: Seq<ExternalPosition>,
    k: int,
) -> (Option<DesiredModel>, ResolvedModel) {
    let state = pristine::first_value(plan, positions[k]);
    (
        state,
        deferred_tree::resolve(
            tables,
            deferred_tree::cached_from(tables, 0, Seq::empty()),
            state,
            positions[k],
        )->Ok_0,
    )
}

proof fn projection_holds(
    tables: PristineModel,
    visibility: Visibility,
    plan: Seq<(ExternalPosition, DesiredModel)>,
    positions: Seq<ExternalPosition>,
    i: int,
    start: ProjectionModel,
    end: ProjectionModel,
    files: bool,
)
    requires
        0 <= i <= positions.len(),
        deferred_tree::project_from(
            tables,
            visibility,
            deferred_tree::cached_from(tables, 0, Seq::empty()),
            plan,
            positions,
            i,
            start,
        ) == Ok::<ProjectionModel, TreeRefusal>(end),
    ensures
        forall|k: int|
            i <= k < positions.len() ==> deferred_tree::resolve(
                tables,
                deferred_tree::cached_from(tables, 0, Seq::empty()),
                pristine::first_value(plan, #[trigger] positions[k]),
                positions[k],
            ) is Ok,
        forall|path: Seq<char>| #[trigger]
            start.present.dom().contains(path) ==> end.present.dom().contains(path),
        forall|k: int, path: Seq<char>|
            #![trigger nth(tables, plan, positions, k), end.present.dom().contains(path)]
            i <= k < positions.len() && goes_to(
                visibility,
                nth(tables, plan, positions, k).0,
                nth(tables, plan, positions, k).1,
            ) == Some(path) ==> end.present.dom().contains(path),
        forall|path: Seq<char>| #[trigger]
            end.present.dom().contains(path) ==> (start.present.dom().contains(path)
                && end.present[path] == start.present[path]) || exists|k: int|
                #![trigger nth(tables, plan, positions, k)]
                i <= k < positions.len() && goes_to(
                    visibility,
                    nth(tables, plan, positions, k).0,
                    nth(tables, plan, positions, k).1,
                ) == Some(path) && end.present[path] == deferred_tree::item_of(
                    nth(tables, plan, positions, k).1,
                ),
        forall|path: Seq<char>| #[trigger]
            absences(start, files).dom().contains(path) ==> absences(end, files).dom().contains(path),
        forall|k: int, path: Seq<char>|
            #![trigger nth(tables, plan, positions, k), absences(end, files).dom().contains(path)]
            i <= k < positions.len() && is_gone_at(
                visibility,
                nth(tables, plan, positions, k).0,
                nth(tables, plan, positions, k).1,
                path,
 files,
            ) ==> absences(end, files).dom().contains(path),
        forall|path: Seq<char>| #[trigger]
            absences(end, files).dom().contains(path) ==> (absences(start, files).dom().contains(path)
                && absences(end, files)[path] == absences(start, files)[path]) || exists|k: int|
                #![trigger nth(tables, plan, positions, k)]
                i <= k < positions.len() && is_gone_at(
                    visibility,
                    nth(tables, plan, positions, k).0,
                    nth(tables, plan, positions, k).1,
                    path,
 files,
                ) && absences(end, files)[path] == nth(tables, plan, positions, k).1.inode,
    decreases positions.len() - i,
{
    if i < positions.len() {
        let (state, resolved) = nth(tables, plan, positions, i);
        let next = deferred_tree::with_inode(start, visibility, state, resolved);
        projection_holds(tables, visibility, plan, positions, i + 1, next, end, files);
        let to = goes_to(visibility, state, resolved);
        assert(next.present == (match to {
            Some(path) => start.present.insert(path, deferred_tree::item_of(resolved)),
            None => start.present,
        }));
        assert forall|path: Seq<char>| #[trigger]
            absences(next, files).dom().contains(path) <==> absences(start, files).dom().contains(path) || is_gone_at(
                visibility,
                state,
                resolved,
                path, files
            ) by {}
        assert forall|path: Seq<char>| #[trigger]
            absences(next, files).dom().contains(path) implies absences(next, files)[path] == (if is_gone_at(
            visibility,
            state,
            resolved,
            path, files
        ) {
            resolved.inode
        } else {
            absences(start, files)[path]
        }) by {}
        assert forall|path: Seq<char>| #[trigger]
            start.present.dom().contains(path) implies end.present.dom().contains(path) by {
            assert(next.present.dom().contains(path));
        }
        assert forall|path: Seq<char>| #[trigger]
            absences(start, files).dom().contains(path) implies absences(end, files).dom().contains(path) by {
            assert(absences(next, files).dom().contains(path));
        }
        assert forall|k: int, path: Seq<char>|
            #![trigger nth(tables, plan, positions, k), end.present.dom().contains(path)]
            i <= k < positions.len() && goes_to(
                visibility,
                nth(tables, plan, positions, k).0,
                nth(tables, plan, positions, k).1,
            ) == Some(path) implies end.present.dom().contains(path) by {
            if k == i {
                assert(next.present.dom().contains(path));
            }
        }
        assert forall|k: int, path: Seq<char>|
            #![trigger nth(tables, plan, positions, k), absences(end, files).dom().contains(path)]
            i <= k < positions.len() && is_gone_at(
                visibility,
                nth(tables, plan, positions, k).0,
                nth(tables, plan, positions, k).1,
                path,
 files,
            ) implies absences(end, files).dom().contains(path) by {
            if k == i {
                assert(absences(next, files).dom().contains(path));
            }
        }
        assert forall|path: Seq<char>| #[trigger] end.present.dom().contains(path) implies (
        start.present.dom().contains(path) && end.present[path] == start.present[path]) || exists|
            k: int,
        |
            #![trigger nth(tables, plan, positions, k)]
            i <= k < positions.len() && goes_to(
                visibility,
                nth(tables, plan, positions, k).0,
                nth(tables, plan, positions, k).1,
            ) == Some(path) && end.present[path] == deferred_tree::item_of(
                nth(tables, plan, positions, k).1,
            ) by {
            if next.present.dom().contains(path) && end.present[path] == next.present[path] {
                if to == Some(path) {
                    assert(goes_to(
                        visibility,
                        nth(tables, plan, positions, i).0,
                        nth(tables, plan, positions, i).1,
                    ) == Some(path));
                }
            }
        }
        assert forall|path: Seq<char>| #[trigger] absences(end, files).dom().contains(path) implies (
        absences(start, files).dom().contains(path) && absences(end, files)[path] == absences(start, files)[path]) || exists|
            k: int,
        |
            #![trigger nth(tables, plan, positions, k)]
            i <= k < positions.len() && is_gone_at(
                visibility,
                nth(tables, plan, positions, k).0,
                nth(tables, plan, positions, k).1,
                path,
 files,
            ) && absences(end, files)[path] == nth(tables, plan, positions, k).1.inode by {
            if absences(next, files).dom().contains(path) && absences(end, files)[path] == absences(next, files)[path] {
                if is_gone_at(visibility, state, resolved, path, files) {
                    assert(is_gone_at(
                        visibility,
                        nth(tables, plan, positions, i).0,
                        nth(tables, plan, positions, i).1,
                        path,
 files,
                    ));
                }
            }
        }
    }
}


/// What a projected tree is made of: the plan of its journal, and the
/// positions that were projected.
pub(crate) proof fn tree_is_made(
    tables: PristineModel,
    ops: Seq<OpModel>,
    visibility: Visibility,
    tree: ProjectionModel,
    files: bool,
) -> (made: (Seq<(ExternalPosition, DesiredModel)>, Seq<ExternalPosition>))
    requires
        tables_agree(tables),
        deferred_tree::projected_tree(tables, ops, visibility) == Ok::<
            ProjectionModel,
            TreeRefusal,
        >(tree),
    ensures
        deferred_tree::journal_plan(tables, ops, visibility.changes@) == Ok::<_, TreeRefusal>(
            made.0,
        ),
        forall|k: int|
            0 <= k < made.1.len() ==> {
                let resolved = (#[trigger] nth(tables, made.0, made.1, k)).1;
                &&& nth(tables, made.0, made.1, k).0 == pristine::first_value(made.0, made.1[k])
                &&& locates(tables, made.1[k], resolved.inode, resolved.position)
                &&& resolved.path == tables.path(resolved.inode)
                &&& resolved.is_directory == tables.directories.contains(resolved.inode)
            },
        forall|k: int|
            0 <= k < made.1.len() ==> deferred_tree::resolve(
                tables,
                deferred_tree::cached_from(tables, 0, Seq::empty()),
                pristine::first_value(made.0, #[trigger] made.1[k]),
                made.1[k],
            ) is Ok,
        forall|at: ExternalPosition|
            #![trigger made.1.contains(at)]
            pristine::first_value(made.0, at) is Some ==> made.1.contains(at),
        forall|at: ExternalPosition, inode: Inode, position: Position|
            #![trigger locates(tables, at, inode, position)]
            locates(tables, at, inode, position) && tables.path(inode) is Some
                && position.change.0 != 0 ==> made.1.contains(at),
        forall|k: int, path: Seq<char>|
            #![trigger nth(tables, made.0, made.1, k), tree.present.dom().contains(path)]
            0 <= k < made.1.len() && goes_to(
                visibility,
                nth(tables, made.0, made.1, k).0,
                nth(tables, made.0, made.1, k).1,
            ) == Some(path) ==> tree.present.dom().contains(path),
        forall|path: Seq<char>| #[trigger]
            tree.present.dom().contains(path) ==> exists|k: int|
                #![trigger nth(tables, made.0, made.1, k)]
                0 <= k < made.1.len() && goes_to(
                    visibility,
                    nth(tables, made.0, made.1, k).0,
                    nth(tables, made.0, made.1, k).1,
                ) == Some(path) && tree.present[path] == deferred_tree::item_of(
                    nth(tables, made.0, made.1, k).1,
                ),
        forall|k: int, path: Seq<char>|
            #![trigger nth(tables, made.0, made.1, k), absences(tree, files).dom().contains(path)]
            0 <= k < made.1.len() && is_gone_at(
                visibility,
                nth(tables, made.0, made.1, k).0,
                nth(tables, made.0, made.1, k).1,
                path,
                files,
            ) && !tree.present.dom().contains(path) ==> absences(tree, files).dom().contains(path),
        forall|path: Seq<char>| #[trigger]
            absences(tree, files).dom().contains(path) ==> !tree.present.dom().contains(path)
                && exists|k: int|
                #![trigger nth(tables, made.0, made.1, k)]
                0 <= k < made.1.len() && is_gone_at(
                    visibility,
                    nth(tables, made.0, made.1, k).0,
                    nth(tables, made.0, made.1, k).1,
                    path,
                    files,
                ) && absences(tree, files)[path] == nth(tables, made.0, made.1, k).1.inode,
{
    let plan = deferred_tree::journal_plan(tables, ops, visibility.changes@)->Ok_0;
    let cache = deferred_tree::cached_from(tables, 0, Seq::empty());
    let positions = deferred_tree::all_positions(cache, plan);
    let none = deferred_tree::empty_projection();
    let end = deferred_tree::project_from(
        tables,
        visibility,
        cache,
        plan,
        positions,
        0,
        none,
    )->Ok_0;
    projection_holds(tables, visibility, plan, positions, 0, none, end, files);
    assert forall|k: int| 0 <= k < positions.len() implies {
        let resolved = (#[trigger] nth(tables, plan, positions, k)).1;
        &&& nth(tables, plan, positions, k).0 == pristine::first_value(plan, positions[k])
        &&& locates(tables, positions[k], resolved.inode, resolved.position)
        &&& resolved.path == tables.path(resolved.inode)
        &&& resolved.is_directory == tables.directories.contains(resolved.inode)
    } by {
        let (state, resolved) = nth(tables, plan, positions, k);
        assert(deferred_tree::resolve(
            tables,
            cache,
            pristine::first_value(plan, positions[k]),
            positions[k],
        ) is Ok);
        resolved_is_located(tables, state, positions[k], resolved);
    }
    let keys = deferred_tree::cached_positions(cache);
    let fresh = |e: (ExternalPosition, DesiredModel)| !keys.contains(e.0);
    let more = plan.filter(fresh).map_values(|e: (ExternalPosition, DesiredModel)| e.0);
    assert(positions =~= keys + more);
    assert forall|at: ExternalPosition|
        #![trigger positions.contains(at)]
        pristine::first_value(plan, at) is Some implies positions.contains(at) by {
        if keys.contains(at) {
            let m = keys.index_of(at);
            assert(positions[m] == at);
        } else {
            let m = value_has_place(plan, at);
            plan.lemma_filter_contains(fresh, m);
            let n = plan.filter(fresh).index_of(plan[m]);
            assert(more[n] == at);
            assert(positions[keys.len() + n] == at);
        }
    }
    cache_is_of_rows(tables, 0, Seq::empty());
    assert forall|at: ExternalPosition, inode: Inode, position: Position|
        #![trigger locates(tables, at, inode, position)]
        locates(tables, at, inode, position) && tables.path(inode) is Some && position.change.0
            != 0 implies positions.contains(at) by {
        let path = tables.path(inode)->0;
        assert(tables.tree.contains((path, inode)));
        let r = tables.tree.index_of((path, inode));
        assert(tables.tree[r] == (path, inode));
        let entry = deferred_tree::cached_entry(tables, path, inode)->0;
        assert(entry.at == at);
        assert(keys.contains(at));
        let m = keys.index_of(at);
        assert(positions[m] == at);
    }
    assert(tree.present == end.present);
    assert(absences(tree, files) == absences(end, files).remove_keys(end.present.dom()));
    assert forall|k: int, path: Seq<char>|
        #![trigger nth(tables, plan, positions, k), absences(tree, files).dom().contains(path)]
        0 <= k < positions.len() && is_gone_at(
            visibility,
            nth(tables, plan, positions, k).0,
            nth(tables, plan, positions, k).1,
            path,
            files,
        ) && !tree.present.dom().contains(path) implies absences(tree, files).dom().contains(
        path,
    ) by {
        assert(absences(end, files).dom().contains(path));
    }
    assert forall|path: Seq<char>| #[trigger]
        absences(tree, files).dom().contains(path) implies !tree.present.dom().contains(path)
        && exists|k: int|
        #![trigger nth(tables, plan, positions, k)]
        0 <= k < positions.len() && is_gone_at(
            visibility,
            nth(tables, plan, positions, k).0,
            nth(tables, plan, positions, k).1,
            path,
            files,
        ) && absences(tree, files)[path] == nth(tables, plan, positions, k).1.inode by {
        assert(absences(end, files).dom().contains(path));
        assert(!absences(none, files).dom().contains(path));
    }
    (plan, positions)
}

proof fn value_has_place<K, V>(pairs: Seq<(K, V)>, key: K) -> (m: int)
    requires
        pristine::first_value(pairs, key) is Some,
    ensures
        0 <= m < pairs.len(),
        pairs[m].0 == key,
    decreases pairs.len(),
{
    if pairs[0].0 == key {
        0
    } else {
        value_has_place(pairs.drop_first(), key) + 1
    }
}

/// Whether nobody but this inode ever had a path: no operation on another inode
/// names it, and the tree cache has it for no other.
pub open spec fn is_own_path(
    tables: PristineModel,
    ops: Seq<OpModel>,
    at: ExternalPosition,
    inode: Inode,
    path: Seq<char>,
) -> bool {
    &&& forall|i: int|
        0 <= i < ops.len() && (#[trigger] ops[i]).inode != at ==> ops[i].baseline_path != Some(path)
            && ops[i].action != ActionModel::Place { path }
    &&& forall|other: Inode| #[trigger] tables.path(other) == Some(path) ==> other == inode
}

/// What the plan of a journal says of an inode, with the path that it goes to.
pub(crate) proof fn planned_state(
    tables: PristineModel,
    ops: Seq<OpModel>,
    visibility: Visibility,
    plan: Seq<(ExternalPosition, DesiredModel)>,
    at: ExternalPosition,
)
    requires
        tables.dependency_first(),
        deferred_tree::journal_plan(tables, ops, visibility.changes@) == Ok::<_, TreeRefusal>(plan),
    ensures
        pristine::first_value(plan, at) is Some <==> exists|i: int|
            0 <= i < ops.len() && (#[trigger] ops[i]).inode == at,
        pristine::first_value(plan, at) matches Some(desired) ==> {
            &&& desired.desired_path matches Some(path) ==> mentions(ops, at, path)
            &&& desired.last_present_path matches Some(path) ==> mentions(ops, at, path)
            &&& forall|path: Seq<char>| #[trigger]
                desired.known_paths.contains(path) <==> mentions(ops, at, path)
            &&& desired.ambiguous ==> desired.desired_path is None && !desired.deleted
            &&& forall|change: ContentHash| #[trigger]
                has_last_word(
                    tables,
                    ops,
                    hashes_of(tables, visibility.changes@),
                    at,
                    change,
                ) ==> !desired.ambiguous && match words(ops, at, change).last().action {
                    ActionModel::Place { path } => desired.desired_path == Some(path)
                        && !desired.deleted,
                    ActionModel::Delete => desired.desired_path is None && desired.deleted,
                }
            &&& (forall|i: int|
                0 <= i < ops.len() && (#[trigger] ops[i]).inode == at ==> !hashes_of(
                    tables,
                    visibility.changes@,
                ).contains(ops[i].change)) ==> !desired.ambiguous && !desired.deleted
                && desired.desired_path == desired.last_present_path
            &&& desired.last_present_path is None ==> forall|i: int|
                0 <= i < ops.len() && (#[trigger] ops[i]).inode == at ==> ops[i].baseline_path
                    is None
        },
{
    let visible = hashes_of(tables, visibility.changes@);
    let own = word_laws::plan_speaks(tables, ops, visibility.changes@, plan, at);
    if own.len() > 0 {
        assert(ops.contains(own[0]));
        let k = ops.index_of(own[0]);
        assert(ops[k].inode == at);
        let desired = pristine::first_value(plan, at)->0;
        word_laws::planned_paths_are_mentioned(tables, own, visible, at, desired);
        assert forall|path: Seq<char>| #[trigger] mentions(own, at, path) <==> mentions(
            ops,
            at,
            path,
        ) by {
            if mentions(own, at, path) {
                let i = choose|i: int|
                    0 <= i < own.len() && (#[trigger] own[i]).inode == at && (own[i].baseline_path
                        == Some(path) || own[i].action == ActionModel::Place { path });
                let m = ops.index_of(own[i]);
                assert(ops[m] == own[i]);
            }
            if mentions(ops, at, path) {
                let i = choose|i: int|
                    0 <= i < ops.len() && (#[trigger] ops[i]).inode == at && (ops[i].baseline_path
                        == Some(path) || ops[i].action == ActionModel::Place { path });
                let m = own.index_of(ops[i]);
                assert(own[m] == ops[i]);
            }
        }
        assert forall|change: ContentHash| #[trigger]
            has_last_word(tables, ops, visible, at, change) implies !desired.ambiguous && match words(
            ops,
            at,
            change,
        ).last().action {
            ActionModel::Place { path } => desired.desired_path == Some(path) && !desired.deleted,
            ActionModel::Delete => desired.desired_path is None && desired.deleted,
        } by {
            assert(words(own, at, change) == words(ops, at, change));
            assert forall|i: int|
                0 <= i < own.len() && (#[trigger] own[i]).inode == at && visible.contains(
                    own[i].change,
                ) && own[i].change != change implies word_laws::descends(
                tables,
                change,
                own[i].change,
            ) by {
                let m = ops.index_of(own[i]);
                assert(ops[m] == own[i]);
            }
            word_laws::last_word_decides(tables, own, visible, at, change, desired);
        }
        if forall|i: int|
            0 <= i < ops.len() && (#[trigger] ops[i]).inode == at ==> !visible.contains(
                ops[i].change,
            ) {
            assert forall|i: int| 0 <= i < own.len() implies !visible.contains(
                (#[trigger] own[i]).change,
            ) by {
                let m = ops.index_of(own[i]);
                assert(ops[m] == own[i]);
            }
            word_laws::unspoken_stays(tables, own, visible, at, desired);
        }
        if desired.last_present_path is None {
            assert forall|i: int|
                0 <= i < ops.len() && (#[trigger] ops[i]).inode == at implies ops[i].baseline_path
                is None by {
                let m = own.index_of(ops[i]);
                assert(own[m] == ops[i]);
            }
        }
    } else {
        assert forall|i: int| 0 <= i < ops.len() implies (#[trigger] ops[i]).inode != at by {
            if ops[i].inode == at {
                assert(own.contains(ops[i]));
            }
        }
    }
}


/// Whether a tree shows an inode at some path.
pub open spec fn shows_inode(tree: ProjectionModel, inode: Inode) -> bool {
    exists|path: Seq<char>| #[trigger]
        tree.present.dom().contains(path) && tree.present[path].inode == inode
}

/// An inode whose deletion has the last word is shown nowhere, unless it is a
/// file that still has live content. A file that is gone is told absent, by its
/// inode, at every path that it had and that nothing else occupies.
pub proof fn deleted_inodes_are_gone(
    tables: PristineModel,
    ops: Seq<OpModel>,
    visibility: Visibility,
    tree: ProjectionModel,
    at: ExternalPosition,
    inode: Inode,
    position: Position,
    change: ContentHash,
)
    requires
        tables_agree(tables),
        tables.dependency_first(),
        deferred_tree::projected_tree(tables, ops, visibility) == Ok::<
            ProjectionModel,
            TreeRefusal,
        >(tree),
        locates(tables, at, inode, position),
        has_last_word(tables, ops, hashes_of(tables, visibility.changes@), at, change),
        words(ops, at, change).last().action is Delete,
        tables.directories.contains(inode) || !visibility.live@.contains(position),
    ensures
        !shows_inode(tree, inode),
        forall|path: Seq<char>, files: bool|
            #![trigger mentions(ops, at, path), absences(tree, files)]
            (mentions(ops, at, path) || tables.path(inode) == Some(path))
                && visibility.changes@.contains(position.change) && !tree.present.dom().contains(
                path,
            ) && !(files && tables.directories.contains(inode)) ==> absences(
                tree,
                files,
            ).dom().contains(path) && (is_own_path(tables, ops, at, inode, path) ==> absences(
                tree,
                files,
            )[path] == inode),
{
    let (plan, positions) = tree_is_made(tables, ops, visibility, tree, true);
    planned_state(tables, ops, visibility, plan, at);
    let kept = words(ops, at, change);
    let said = |op: OpModel| op.inode == at && op.change == change;
    let first = crate::planner_laws::kept_come_from(ops, said, 0);
    assert(ops[first].inode == at);
    let desired = pristine::first_value(plan, at)->0;
    assert(positions.contains(at));
    let k = positions.index_of(at);
    let (state, resolved) = nth(tables, plan, positions, k);
    locations_are_unique(
        tables,
        at,
        inode,
        position,
        at,
        resolved.inode,
        resolved.position,
    );
    assert(state == Some(desired));
    assert(goes_to(visibility, state, resolved) is None);
    if shows_inode(tree, inode) {
        let path = choose|path: Seq<char>| #[trigger]
            tree.present.dom().contains(path) && tree.present[path].inode == inode;
        let m = choose|m: int|
            #![trigger nth(tables, plan, positions, m)]
            0 <= m < positions.len() && goes_to(
                visibility,
                nth(tables, plan, positions, m).0,
                nth(tables, plan, positions, m).1,
            ) == Some(path) && tree.present[path] == deferred_tree::item_of(
                nth(tables, plan, positions, m).1,
            );
        let other = nth(tables, plan, positions, m).1;
        locations_are_unique(
            tables,
            at,
            inode,
            position,
            positions[m],
            other.inode,
            other.position,
        );
        assert(positions[m] == at);
        assert(nth(tables, plan, positions, m) == nth(tables, plan, positions, k));
    }
    assert forall|path: Seq<char>, files: bool|
        #![trigger mentions(ops, at, path), absences(tree, files)]
        (mentions(ops, at, path) || tables.path(inode) == Some(path))
            && visibility.changes@.contains(position.change) && !tree.present.dom().contains(path)
            && !(files && tables.directories.contains(inode)) implies absences(
        tree,
        files,
    ).dom().contains(path) && (is_own_path(tables, ops, at, inode, path) ==> absences(tree, files)[path]
        == inode) by {
        let made = tree_is_made(tables, ops, visibility, tree, files);
        assert(made.0 == plan);
        let (plan, positions) = made;
        assert(positions.contains(at));
        let k = positions.index_of(at);
        let resolved = nth(tables, plan, positions, k).1;
        locations_are_unique(
            tables,
            at,
            inode,
            position,
            at,
            resolved.inode,
            resolved.position,
        );
        assert(desired.known_paths.contains(path) <==> mentions(ops, at, path));
        assert(is_gone_at(
            visibility,
            nth(tables, plan, positions, k).0,
            nth(tables, plan, positions, k).1,
            path,
            files,
        ));
        assert(absences(tree, files).dom().contains(path));
        if is_own_path(tables, ops, at, inode, path) {
            let m = choose|m: int|
                #![trigger nth(tables, plan, positions, m)]
                0 <= m < positions.len() && is_gone_at(
                    visibility,
                    nth(tables, plan, positions, m).0,
                    nth(tables, plan, positions, m).1,
                    path,
                    files,
                ) && absences(tree, files)[path] == nth(tables, plan, positions, m).1.inode;
            let other = nth(tables, plan, positions, m).1;
            planned_state(tables, ops, visibility, plan, positions[m]);
            if other.path == Some(path) {
                assert(tables.path(other.inode) == Some(path));
            } else {
                let told = nth(tables, plan, positions, m).0->0;
                assert(told.known_paths.contains(path));
                assert(mentions(ops, positions[m], path));
                let i = choose|i: int|
                    0 <= i < ops.len() && (#[trigger] ops[i]).inode == positions[m] && (
                    ops[i].baseline_path == Some(path) || ops[i].action == ActionModel::Place {
                        path,
                    });
                assert(ops[i].inode == at);
                locations_are_unique(
                    tables,
                    at,
                    inode,
                    position,
                    positions[m],
                    other.inode,
                    other.position,
                );
            }
        }
    }
}

/// Where a located inode goes: every path that shows it is the one that its
/// position goes to, and that path shows something.
pub(crate) proof fn goes_where_it_is_shown(
    tables: PristineModel,
    ops: Seq<OpModel>,
    visibility: Visibility,
    tree: ProjectionModel,
    at: ExternalPosition,
    inode: Inode,
    position: Position,
) -> (to: Option<Seq<char>>)
    requires
        tables_agree(tables),
        tables.dependency_first(),
        deferred_tree::projected_tree(tables, ops, visibility) == Ok::<
            ProjectionModel,
            TreeRefusal,
        >(tree),
        locates(tables, at, inode, position),
    ensures
        ({
            let plan = deferred_tree::journal_plan(tables, ops, visibility.changes@)->Ok_0;
            let state = pristine::first_value(plan, at);
            let speaks = exists|i: int| 0 <= i < ops.len() && (#[trigger] ops[i]).inode == at;
            &&& deferred_tree::journal_plan(tables, ops, visibility.changes@) is Ok
            &&& state is Some <==> speaks
            &&& speaks || tables.path(inode) is Some && position.change.0 != 0 ==> to == goes_to(
                visibility,
                state,
                ResolvedModel {
                    inode,
                    path: tables.path(inode),
                    is_directory: tables.directories.contains(inode),
                    position,
                },
            )
            &&& !visibility.changes@.contains(position.change) ==> to is None
        }),
        to matches Some(path) ==> tree.present.dom().contains(path) && (is_own_path(
            tables,
            ops,
            at,
            inode,
            path,
        ) ==> tree.present[path] == (TreeItem {
            inode,
            position: if tables.directories.contains(inode) {
                None
            } else {
                Some(position)
            },
            is_directory: tables.directories.contains(inode),
        })),
        forall|path: Seq<char>| #[trigger]
            tree.present.dom().contains(path) && tree.present[path].inode == inode ==> to == Some(
                path,
            ),
        to matches Some(path) ==> mentions(ops, at, path) || tables.path(inode) == Some(path),
{
    let (plan, positions) = tree_is_made(tables, ops, visibility, tree, true);
    planned_state(tables, ops, visibility, plan, at);
    let to = if positions.contains(at) {
        let k = positions.index_of(at);
        goes_to(
            visibility,
            nth(tables, plan, positions, k).0,
            nth(tables, plan, positions, k).1,
        )
    } else {
        None
    };
    if positions.contains(at) {
        let k = positions.index_of(at);
        let resolved = nth(tables, plan, positions, k).1;
        locations_are_unique(
            tables,
            at,
            inode,
            position,
            at,
            resolved.inode,
            resolved.position,
        );
        assert(resolved == (ResolvedModel {
            inode,
            path: tables.path(inode),
            is_directory: tables.directories.contains(inode),
            position,
        }));
    }
    assert forall|path: Seq<char>| #[trigger]
        tree.present.dom().contains(path) && tree.present[path].inode == inode implies to == Some(
        path,
    ) by {
        let m = choose|m: int|
            #![trigger nth(tables, plan, positions, m)]
            0 <= m < positions.len() && goes_to(
                visibility,
                nth(tables, plan, positions, m).0,
                nth(tables, plan, positions, m).1,
            ) == Some(path) && tree.present[path] == deferred_tree::item_of(
                nth(tables, plan, positions, m).1,
            );
        let other = nth(tables, plan, positions, m).1;
        locations_are_unique(
            tables,
            at,
            inode,
            position,
            positions[m],
            other.inode,
            other.position,
        );
        assert(positions[m] == at);
        assert(positions.contains(at));
        let k = positions.index_of(at);
        assert(nth(tables, plan, positions, m) == nth(tables, plan, positions, k));
    }
    if let Some(path) = to {
        let k = positions.index_of(at);
        assert(goes_to(
            visibility,
            nth(tables, plan, positions, k).0,
            nth(tables, plan, positions, k).1,
        ) == Some(path));
        assert(tree.present.dom().contains(path));
        if is_own_path(tables, ops, at, inode, path) {
            let m = choose|m: int|
                #![trigger nth(tables, plan, positions, m)]
                0 <= m < positions.len() && goes_to(
                    visibility,
                    nth(tables, plan, positions, m).0,
                    nth(tables, plan, positions, m).1,
                ) == Some(path) && tree.present[path] == deferred_tree::item_of(
                    nth(tables, plan, positions, m).1,
                );
            let other = nth(tables, plan, positions, m).1;
            planned_state(tables, ops, visibility, plan, positions[m]);
            if other.path == Some(path) {
                assert(tables.path(other.inode) == Some(path));
            } else {
                assert(mentions(ops, positions[m], path));
                let i = choose|i: int|
                    0 <= i < ops.len() && (#[trigger] ops[i]).inode == positions[m] && (
                    ops[i].baseline_path == Some(path) || ops[i].action == ActionModel::Place {
                        path,
                    });
                assert(ops[i].inode == at);
                locations_are_unique(
                    tables,
                    at,
                    inode,
                    position,
                    positions[m],
                    other.inode,
                    other.position,
                );
            }
            assert(other.inode == inode);
            locations_are_unique(
                tables,
                at,
                inode,
                position,
                positions[m],
                other.inode,
                other.position,
            );
        }
    }
    to
}

/// An inode whose placement has the last word is shown there and nowhere else,
/// as the file or directory that the tables have, provided that the view shows
/// the change that created it.
pub proof fn placed_inodes_stand_there(
    tables: PristineModel,
    ops: Seq<OpModel>,
    visibility: Visibility,
    tree: ProjectionModel,
    at: ExternalPosition,
    inode: Inode,
    position: Position,
    change: ContentHash,
    path: Seq<char>,
)
    requires
        tables_agree(tables),
        tables.dependency_first(),
        deferred_tree::projected_tree(tables, ops, visibility) == Ok::<
            ProjectionModel,
            TreeRefusal,
        >(tree),
        locates(tables, at, inode, position),
        visibility.changes@.contains(position.change),
        has_last_word(tables, ops, hashes_of(tables, visibility.changes@), at, change),
        words(ops, at, change).last().action == (ActionModel::Place { path }),
    ensures
        tree.present.dom().contains(path),
        is_own_path(tables, ops, at, inode, path) ==> tree.present[path] == (TreeItem {
            inode,
            position: if tables.directories.contains(inode) {
                None
            } else {
                Some(position)
            },
            is_directory: tables.directories.contains(inode),
        }),
        forall|other: Seq<char>| #[trigger]
            tree.present.dom().contains(other) && tree.present[other].inode == inode ==> other
                == path,
{
    let said = |op: OpModel| op.inode == at && op.change == change;
    let first = crate::planner_laws::kept_come_from(ops, said, 0);
    assert(ops[first].inode == at);
    let to = goes_where_it_is_shown(tables, ops, visibility, tree, at, inode, position);
    let plan = deferred_tree::journal_plan(tables, ops, visibility.changes@)->Ok_0;
    planned_state(tables, ops, visibility, plan, at);
    assert(to == Some(path));
}

/// A file with live content outlives its deletion: where the tree cache has a
/// path for it, or an operation names one that it had before, it is shown at
/// one of these.
pub proof fn live_files_outlive_their_deletion(
    tables: PristineModel,
    ops: Seq<OpModel>,
    visibility: Visibility,
    tree: ProjectionModel,
    at: ExternalPosition,
    inode: Inode,
    position: Position,
    change: ContentHash,
)
    requires
        tables_agree(tables),
        tables.dependency_first(),
        deferred_tree::projected_tree(tables, ops, visibility) == Ok::<
            ProjectionModel,
            TreeRefusal,
        >(tree),
        locates(tables, at, inode, position),
        visibility.changes@.contains(position.change),
        has_last_word(tables, ops, hashes_of(tables, visibility.changes@), at, change),
        words(ops, at, change).last().action is Delete,
        !tables.directories.contains(inode),
        visibility.live@.contains(position),
        tables.path(inode) is Some || exists|i: int|
            0 <= i < ops.len() && (#[trigger] ops[i]).inode == at && ops[i].baseline_path is Some,
    ensures
        exists|path: Seq<char>| #[trigger]
            tree.present.dom().contains(path) && (mentions(ops, at, path) || tables.path(inode)
                == Some(path)) && (is_own_path(tables, ops, at, inode, path) ==> tree.present[path]
                == (TreeItem { inode, position: Some(position), is_directory: false })),
{
    let said = |op: OpModel| op.inode == at && op.change == change;
    let first = crate::planner_laws::kept_come_from(ops, said, 0);
    assert(ops[first].inode == at);
    let to = goes_where_it_is_shown(tables, ops, visibility, tree, at, inode, position);
    let plan = deferred_tree::journal_plan(tables, ops, visibility.changes@)->Ok_0;
    planned_state(tables, ops, visibility, plan, at);
    let desired = pristine::first_value(plan, at)->0;
    assert(desired.deleted && desired.desired_path is None);
    if tables.path(inode) is None {
        let i = choose|i: int|
            0 <= i < ops.len() && (#[trigger] ops[i]).inode == at && ops[i].baseline_path is Some;
        assert(desired.last_present_path is Some);
    }
    assert(to is Some);
    assert(tree.present.dom().contains(to->0));
}

/// An inode that the journal does not speak of is shown at its path in the tree
/// cache and nowhere else, as soon as the change that created it is visible.
pub proof fn unmoved_inodes_stay(
    tables: PristineModel,
    ops: Seq<OpModel>,
    visibility: Visibility,
    tree: ProjectionModel,
    at: ExternalPosition,
    inode: Inode,
    position: Position,
    path: Seq<char>,
)
    requires
        tables_agree(tables),
        tables.dependency_first(),
        deferred_tree::projected_tree(tables, ops, visibility) == Ok::<
            ProjectionModel,
            TreeRefusal,
        >(tree),
        locates(tables, at, inode, position),
        position.change.0 != 0,
        visibility.changes@.contains(position.change),
        forall|i: int| 0 <= i < ops.len() ==> (#[trigger] ops[i]).inode != at,
        tables.path(inode) == Some(path),
    ensures
        tree.present.dom().contains(path),
        is_own_path(tables, ops, at, inode, path) ==> tree.present[path] == (TreeItem {
            inode,
            position: if tables.directories.contains(inode) {
                None
            } else {
                Some(position)
            },
            is_directory: tables.directories.contains(inode),
        }),
        forall|other: Seq<char>| #[trigger]
            tree.present.dom().contains(other) && tree.present[other].inode == inode ==> other
                == path,
{
    let to = goes_where_it_is_shown(tables, ops, visibility, tree, at, inode, position);
    assert(to == Some(path));
}

/// An inode of which only hidden changes speak is shown at a path that it had
/// before them: its moves and deletions elsewhere do not count.
pub proof fn hidden_words_do_not_count(
    tables: PristineModel,
    ops: Seq<OpModel>,
    visibility: Visibility,
    tree: ProjectionModel,
    at: ExternalPosition,
    inode: Inode,
    position: Position,
    path: Seq<char>,
)
    requires
        tables_agree(tables),
        tables.dependency_first(),
        deferred_tree::projected_tree(tables, ops, visibility) == Ok::<
            ProjectionModel,
            TreeRefusal,
        >(tree),
        locates(tables, at, inode, position),
        visibility.changes@.contains(position.change),
        exists|i: int| 0 <= i < ops.len() && (#[trigger] ops[i]).inode == at,
        forall|i: int|
            0 <= i < ops.len() && (#[trigger] ops[i]).inode == at ==> ops[i].baseline_path == Some(
                path,
            ) && !hashes_of(tables, visibility.changes@).contains(ops[i].change),
    ensures
        tree.present.dom().contains(path),
        is_own_path(tables, ops, at, inode, path) ==> tree.present[path].inode == inode,
        forall|other: Seq<char>| #[trigger]
            tree.present.dom().contains(other) && tree.present[other].inode == inode ==> other
                == path,
{
    let to = goes_where_it_is_shown(tables, ops, visibility, tree, at, inode, position);
    let plan = deferred_tree::journal_plan(tables, ops, visibility.changes@)->Ok_0;
    unspoken_baseline(tables, ops, visibility, plan, at, path);
    assert(to == Some(path));
}

proof fn unspoken_baseline(
    tables: PristineModel,
    ops: Seq<OpModel>,
    visibility: Visibility,
    plan: Seq<(ExternalPosition, DesiredModel)>,
    at: ExternalPosition,
    path: Seq<char>,
)
    requires
        tables.dependency_first(),
        deferred_tree::journal_plan(tables, ops, visibility.changes@) == Ok::<_, TreeRefusal>(plan),
        exists|i: int| 0 <= i < ops.len() && (#[trigger] ops[i]).inode == at,
        forall|i: int|
            0 <= i < ops.len() && (#[trigger] ops[i]).inode == at ==> ops[i].baseline_path == Some(
                path,
            ) && !hashes_of(tables, visibility.changes@).contains(ops[i].change),
    ensures
        pristine::first_value(plan, at) matches Some(desired) && desired.desired_path == Some(path)
            && !desired.ambiguous,
{
    let visible = hashes_of(tables, visibility.changes@);
    let own = word_laws::plan_speaks(tables, ops, visibility.changes@, plan, at);
    let i = choose|i: int| 0 <= i < ops.len() && (#[trigger] ops[i]).inode == at;
    assert(own.contains(ops[i]));
    assert forall|k: int| 0 <= k < own.len() implies (#[trigger] own[k]).baseline_path == Some(path)
        && !visible.contains(own[k].change) by {
        let m = ops.index_of(own[k]);
        assert(ops[m] == own[k]);
    }
    let desired = pristine::first_value(plan, at)->0;
    word_laws::unspoken_stays(tables, own, visible, at, desired);
    assert(own[0].baseline_path == Some(path));
}

/// An inode whose creation the view does not show is shown nowhere.
pub proof fn foreign_inodes_are_hidden(
    tables: PristineModel,
    ops: Seq<OpModel>,
    visibility: Visibility,
    tree: ProjectionModel,
    at: ExternalPosition,
    inode: Inode,
    position: Position,
)
    requires
        tables_agree(tables),
        tables.dependency_first(),
        deferred_tree::projected_tree(tables, ops, visibility) == Ok::<
            ProjectionModel,
            TreeRefusal,
        >(tree),
        locates(tables, at, inode, position),
        !visibility.changes@.contains(position.change),
    ensures
        !shows_inode(tree, inode),
{
    let to = goes_where_it_is_shown(tables, ops, visibility, tree, at, inode, position);
}

/// Whatever a tree shows is an inode of the tables, created by a visible
/// change, at a path that the tree cache or one of its operations has for it;
/// directories have no content position, files have theirs. What is told absent
/// is shown nowhere by that path, and is such an inode too.
pub proof fn shown_entries_are_known(
    tables: PristineModel,
    ops: Seq<OpModel>,
    visibility: Visibility,
    tree: ProjectionModel,
    path: Seq<char>,
    files: bool,
)
    requires
        tables_agree(tables),
        tables.dependency_first(),
        deferred_tree::projected_tree(tables, ops, visibility) == Ok::<
            ProjectionModel,
            TreeRefusal,
        >(tree),
    ensures
        tree.present.dom().contains(path) ==> {
            let item = tree.present[path];
            exists|at: ExternalPosition, position: Position| #[trigger]
                locates(tables, at, item.inode, position) && visibility.changes@.contains(
                    position.change,
                ) && (tables.path(item.inode) == Some(path) || mentions(ops, at, path))
                    && item.is_directory == tables.directories.contains(item.inode)
                    && item.position == (if item.is_directory {
                    None
                } else {
                    Some(position)
                })
        },
        absences(tree, files).dom().contains(path) ==> !tree.present.dom().contains(path) && {
            let inode = absences(tree, files)[path];
            &&& !shows_inode(tree, inode)
            &&& files ==> !tables.directories.contains(inode)
            &&& exists|at: ExternalPosition, position: Position| #[trigger]
                locates(tables, at, inode, position) && visibility.changes@.contains(
                    position.change,
                ) && (tables.path(inode) == Some(path) || mentions(ops, at, path))
        },
{
    let (plan, positions) = tree_is_made(tables, ops, visibility, tree, files);
    if tree.present.dom().contains(path) {
        let m = choose|m: int|
            #![trigger nth(tables, plan, positions, m)]
            0 <= m < positions.len() && goes_to(
                visibility,
                nth(tables, plan, positions, m).0,
                nth(tables, plan, positions, m).1,
            ) == Some(path) && tree.present[path] == deferred_tree::item_of(
                nth(tables, plan, positions, m).1,
            );
        let resolved = nth(tables, plan, positions, m).1;
        planned_state(tables, ops, visibility, plan, positions[m]);
        let item = tree.present[path];
        assert(item.inode == resolved.inode);
        assert(tables.path(item.inode) == Some(path) || mentions(ops, positions[m], path));
        assert(locates(tables, positions[m], item.inode, resolved.position));
    }
    if absences(tree, files).dom().contains(path) {
        let m = choose|m: int|
            #![trigger nth(tables, plan, positions, m)]
            0 <= m < positions.len() && is_gone_at(
                visibility,
                nth(tables, plan, positions, m).0,
                nth(tables, plan, positions, m).1,
                path,
                files,
            ) && absences(tree, files)[path] == nth(tables, plan, positions, m).1.inode;
        let resolved = nth(tables, plan, positions, m).1;
        planned_state(tables, ops, visibility, plan, positions[m]);
        let to = goes_where_it_is_shown(
            tables,
            ops,
            visibility,
            tree,
            positions[m],
            resolved.inode,
            resolved.position,
        );
        assert(locates(tables, positions[m], resolved.inode, resolved.position));
        assert(to is None);
    }
}


/// An inode on which visible changes that do not know each other say different
/// things stays where the tree cache has it.
pub proof fn contested_inodes_stay(
    tables: PristineModel,
    ops: Seq<OpModel>,
    visibility: Visibility,
    tree: ProjectionModel,
    at: ExternalPosition,
    inode: Inode,
    position: Position,
    a: ContentHash,
    b: ContentHash,
    path: Seq<char>,
)
    requires
        tables_agree(tables),
        tables.dependency_first(),
        deferred_tree::projected_tree(tables, ops, visibility) == Ok::<
            ProjectionModel,
            TreeRefusal,
        >(tree),
        locates(tables, at, inode, position),
        visibility.changes@.contains(position.change),
        word_laws::has_open_word(tables, ops, hashes_of(tables, visibility.changes@), at, a),
        word_laws::has_open_word(tables, ops, hashes_of(tables, visibility.changes@), at, b),
        words(ops, at, a).last().action != words(ops, at, b).last().action,
        tables.path(inode) == Some(path),
    ensures
        tree.present.dom().contains(path),
        forall|other: Seq<char>| #[trigger]
            tree.present.dom().contains(other) && tree.present[other].inode == inode ==> other
                == path,
{
    let visible = hashes_of(tables, visibility.changes@);
    let to = goes_where_it_is_shown(tables, ops, visibility, tree, at, inode, position);
    let plan = deferred_tree::journal_plan(tables, ops, visibility.changes@)->Ok_0;
    let own = word_laws::plan_speaks(tables, ops, visibility.changes@, plan, at);
    let said = |op: OpModel| op.inode == at && op.change == a;
    let first = crate::planner_laws::kept_come_from(ops, said, 0);
    assert(own.contains(ops[first]));
    assert(words(own, at, a) == words(ops, at, a) && words(own, at, b) == words(ops, at, b));
    assert forall|i: int| 0 <= i < own.len() implies ops.contains(#[trigger] own[i]) by {}
    assert forall|i: int, c: ContentHash|
        #![trigger own[i], word_laws::descends(tables, own[i].change, c)]
        0 <= i < own.len() && visible.contains(own[i].change) && own[i].change != c
            && word_laws::has_open_word(tables, ops, visible, at, c) implies !word_laws::descends(
        tables,
        own[i].change,
        c,
    ) by {
        let m = ops.index_of(own[i]);
        assert(ops[m] == own[i]);
    }
    assert(word_laws::has_open_word(tables, own, visible, at, a));
    assert(word_laws::has_open_word(tables, own, visible, at, b));
    word_laws::open_words_disagree(
        tables,
        own,
        visible,
        at,
        a,
        b,
        pristine::first_value(plan, at)->0,
    );
    assert(to == Some(path));
}

/// A live file that outlives its deletion stays where it was last: at the path
/// where the visible change that had the last word before the deleting one put
/// it.
pub proof fn live_files_stay_at_their_last_path(
    tables: PristineModel,
    ops: Seq<OpModel>,
    visibility: Visibility,
    tree: ProjectionModel,
    at: ExternalPosition,
    inode: Inode,
    position: Position,
    change: ContentHash,
    before: ContentHash,
    path: Seq<char>,
)
    requires
        tables_agree(tables),
        tables.dependency_first(),
        deferred_tree::projected_tree(tables, ops, visibility) == Ok::<
            ProjectionModel,
            TreeRefusal,
        >(tree),
        locates(tables, at, inode, position),
        visibility.changes@.contains(position.change),
        !tables.directories.contains(inode),
        visibility.live@.contains(position),
        has_last_word(tables, ops, hashes_of(tables, visibility.changes@), at, change),
        forall|i: int|
            0 <= i < ops.len() && (#[trigger] ops[i]).inode == at && ops[i].change == change
                ==> ops[i].action is Delete,
        before != change,
        hashes_of(tables, visibility.changes@).contains(before),
        words(ops, at, before).len() > 0,
        words(ops, at, before).last().action == (ActionModel::Place { path }),
        forall|i: int|
            0 <= i < ops.len() && (#[trigger] ops[i]).inode == at && hashes_of(
                tables,
                visibility.changes@,
            ).contains(ops[i].change) && ops[i].change != change && ops[i].change != before
                ==> word_laws::descends(tables, before, ops[i].change),
    ensures
        tree.present.dom().contains(path),
        forall|other: Seq<char>| #[trigger]
            tree.present.dom().contains(other) && tree.present[other].inode == inode ==> other
                == path,
{
    let visible = hashes_of(tables, visibility.changes@);
    let said = |op: OpModel| op.inode == at && op.change == change;
    let first = crate::planner_laws::kept_come_from(ops, said, 0);
    assert(ops[first].inode == at);
    let to = goes_where_it_is_shown(tables, ops, visibility, tree, at, inode, position);
    let plan = deferred_tree::journal_plan(tables, ops, visibility.changes@)->Ok_0;
    planned_state(tables, ops, visibility, plan, at);
    let own = word_laws::plan_speaks(tables, ops, visibility.changes@, plan, at);
    assert(own.contains(ops[first]));
    let desired = pristine::first_value(plan, at)->0;
    assert(words(own, at, change) == words(ops, at, change));
    assert(words(own, at, before) == words(ops, at, before));
    assert forall|i: int| 0 <= i < own.len() implies ops.contains(#[trigger] own[i]) && (
    own[i].change == change ==> own[i].action is Delete) && (visible.contains(own[i].change)
        && own[i].change != change ==> word_laws::descends(tables, change, own[i].change)) && (
    visible.contains(own[i].change) && own[i].change != change && own[i].change != before
        ==> word_laws::descends(tables, before, own[i].change)) by {
        let m = ops.index_of(own[i]);
        assert(ops[m] == own[i]);
    }
    word_laws::last_path_is_kept(tables, own, visible, at, change, before, path, desired);
    assert(desired.desired_path is None && !desired.ambiguous) by {
        assert(words(ops, at, change).last().action is Delete) by {
            let kept = words(ops, at, change);
            let k = crate::planner_laws::kept_come_from(ops, said, kept.len() - 1);
            assert(ops[k].action is Delete);
        }
    }
    assert(to == Some(path));
}

} // verus!
