//! What holds of the projected native tables.

use crate::native_build;
use crate::native_build::{ClaimedModel, NativeClaims, ReducedView, TreeModel, DIR_EMPTY};
use crate::native_roots;
use crate::native_tables;
use crate::native_tables::{
    ClaimModel, ConflictsModel, IndexesModel, NativeConflicts, PathClaim,
};
use crate::ordering;
use crate::ordering::Ranked;
use crate::pristine;
use crate::pristine::PristineModel;
use crate::repository::{GraphNode, Repository};
use crate::text;
use crate::types::{Inode, Position};
use vstd::prelude::*;

verus! {

/// Pairs with different keys.
pub open spec fn keyed<K, V>(pairs: Seq<(K, V)>) -> bool {
    ordering::apart(pairs, |p: (K, V)| p.0)
}

/// Two tables that undo each other, each key once.
pub open spec fn inverse<A, B>(f: Seq<(A, B)>, g: Seq<(B, A)>) -> bool {
    &&& keyed(f)
    &&& keyed(g)
    &&& forall|a: A, b: B|
        #![trigger pristine::first_value(f, a), pristine::first_value(g, b)]
        pristine::first_value(f, a) == Some(b) <==> pristine::first_value(g, b) == Some(a)
}

pub(crate) proof fn keyed_value<K, V>(pairs: Seq<(K, V)>, key: K, value: V)
    requires
        keyed(pairs),
    ensures
        pristine::first_value(pairs, key) == Some(value) <==> pairs.contains((key, value)),
{
    if pristine::first_value(pairs, key) == Some(value) {
        let k = pristine::first_value_stands(pairs, key);
        assert(pairs[k] == (key, value));
    }
    if pairs.contains((key, value)) {
        let k = choose|k: int| 0 <= k < pairs.len() && pairs[k] == (key, value);
        assert forall|j: int| 0 <= j < pairs.len() && j != k implies (#[trigger] pairs[j]).0
            != pairs[k].0 by {
            let first = |p: (K, V)| p.0;
            assert(first(pairs[j]) != first(pairs[k]));
        }
        pristine::sole_first_value(pairs, k);
    }
}

proof fn mirrored_is_inverse<A, B>(f: Seq<(A, B)>, g: Seq<(B, A)>)
    requires
        keyed(f),
        keyed(g),
        forall|a: A, b: B|
            #![trigger f.contains((a, b))]
            #![trigger g.contains((b, a))]
            f.contains((a, b)) <==> g.contains((b, a)),
    ensures
        inverse(f, g),
{
    assert forall|a: A, b: B|
        #![trigger pristine::first_value(f, a), pristine::first_value(g, b)]
        pristine::first_value(f, a) == Some(b) <==> pristine::first_value(g, b) == Some(a) by {
        keyed_value(f, a, b);
        keyed_value(g, b, a);
    }
}

proof fn pushed_stays_keyed<K, V>(pairs: Seq<(K, V)>, key: K, value: V)
    requires
        keyed(pairs),
        pristine::first_value(pairs, key) is None,
    ensures
        keyed(pairs.push((key, value))),
{
    let first = |p: (K, V)| p.0;
    let grown = pairs.push((key, value));
    assert forall|i: int, j: int|
        #![trigger grown[i], grown[j]]
        0 <= i < j < grown.len() implies first(grown[i]) != first(grown[j]) by {
        assert(grown[i] == pairs[i]);
        if j == pairs.len() {
            pristine::no_first_value(pairs, key, i);
        } else {
            assert(grown[j] == pairs[j]);
            assert(first(pairs[i]) != first(pairs[j]));
        }
    }
}

/// A tree whose paths stand once, and whose inodes stand once, as does its
/// reverse.
pub open spec fn one_to_one(tree: TreeModel) -> bool {
    keyed(tree.tree) && keyed(tree.reverse) && native_build::bijective(tree)
}

pub(crate) proof fn pair_stays_one_to_one(tree: TreeModel, path: Seq<char>, inode: Inode)
    requires
        keyed(tree.tree),
        keyed(tree.reverse),
    ensures
        native_build::with_pair(tree, path, inode) matches Ok(grown) ==> keyed(grown.tree)
            && keyed(grown.reverse),
{
    if pristine::first_value(tree.tree, path) is None {
        pushed_stays_keyed(tree.tree, path, inode);
    }
    if pristine::first_value(tree.reverse, inode) is None {
        pushed_stays_keyed(tree.reverse, inode, path);
    }
}

proof fn present_stays_one_to_one(present: Seq<ClaimedModel>, i: int, tree: TreeModel)
    requires
        keyed(tree.tree),
        keyed(tree.reverse),
    ensures
        native_build::present_from(present, i, tree) matches Ok(grown) ==> keyed(grown.tree)
            && keyed(grown.reverse),
    decreases present.len() - i,
{
    if 0 <= i < present.len() {
        pair_stays_one_to_one(tree, present[i].path, present[i].inode);
        if let Ok(grown) = native_build::with_pair(tree, present[i].path, present[i].inode) {
            present_stays_one_to_one(present, i + 1, grown);
        }
    }
}

proof fn staged_stays_one_to_one(
    tables: PristineModel,
    flags: Seq<(Inode, u8)>,
    inodes: Seq<(Inode, Position)>,
    i: int,
    tree: TreeModel,
)
    requires
        keyed(tree.tree),
        keyed(tree.reverse),
    ensures
        native_build::staged_from(tables, flags, inodes, i, tree) matches Ok(grown) ==> keyed(
            grown.tree,
        ) && keyed(grown.reverse),
    decreases tables.tree.len() - i,
{
    if 0 <= i < tables.tree.len() {
        let (path, inode) = tables.tree[i];
        if native_build::is_recorded(inodes, inode) {
            staged_stays_one_to_one(tables, flags, inodes, i + 1, tree);
        } else {
            pair_stays_one_to_one(tree, path, inode);
            if let Ok(grown) = native_build::with_staged(tables, flags, path, inode, tree) {
                staged_stays_one_to_one(tables, flags, inodes, i + 1, grown);
            }
        }
    }
}

proof fn expected_tree_is_one_to_one(
    tables: PristineModel,
    flags: Seq<(Inode, u8)>,
    inodes: Seq<(Inode, Position)>,
    present: Seq<ClaimedModel>,
)
    ensures
        native_build::expected_tree(tables, flags, inodes, present) matches Ok(tree)
            ==> one_to_one(tree),
{
    native_build::rebuilt_tree_is_bijective(tables, flags, inodes, present);
    present_stays_one_to_one(present, 0, native_build::empty_tree());
    if let Ok(shown) = native_build::present_from(present, 0, native_build::empty_tree()) {
        staged_stays_one_to_one(tables, flags, inodes, 0, shown);
    }
}

pub(crate) proof fn flagged_stay_keyed(
    directories: Seq<(Inode, Seq<char>)>,
    alive: Seq<Seq<char>>,
    n: int,
)
    ensures
        keyed(native_build::flagged_directories(directories, alive, n)),
    decreases n,
{
    if n > 0 {
        flagged_stay_keyed(directories, alive, n - 1);
        let rest = native_build::flagged_directories(directories, alive, n - 1);
        let inode = directories[n - 1].0;
        if pristine::first_value(rest, inode) is None {
            pushed_stays_keyed(
                rest,
                inode,
                native_build::directory_flags(directories, alive, inode),
            );
        }
    }
}

proof fn owners_stay_apart(entries: Seq<native_build::EntryModel>, n: int)
    ensures
        native_build::entry_owners(entries, n).no_duplicates(),
    decreases n,
{
    if n > 0 {
        owners_stay_apart(entries, n - 1);
    }
}

/// The key of stored conflicts.
pub open spec fn conflicts_key(row: ConflictsModel) -> (u64, Inode) {
    (row.view, row.inode)
}

proof fn stored_stay_apart(entries: Seq<native_build::EntryModel>)
    ensures
        ordering::apart(
            native_build::stored_conflicts(entries),
            |c: ConflictsModel| conflicts_key(c),
        ),
{
    owners_stay_apart(entries, entries.len() as int);
    let owners = native_build::entry_owners(entries, entries.len() as int);
    let stored = native_build::stored_conflicts(entries);
    let key = |c: ConflictsModel| conflicts_key(c);
    assert forall|i: int, j: int|
        #![trigger stored[i], stored[j]]
        0 <= i < j < stored.len() implies key(stored[i]) != key(stored[j]) by {
        assert(conflicts_key(stored[i]) == owners[i]);
        assert(conflicts_key(stored[j]) == owners[j]);
    }
}

pub(crate) proof fn positions_are_keyed<V>(bindings: Seq<(Position, V)>)
    requires
        native_roots::in_position_order(bindings),
    ensures
        keyed(bindings),
{
    let first = |p: (Position, V)| p.0;
    assert forall|i: int, j: int|
        #![trigger bindings[i], bindings[j]]
        0 <= i < j < bindings.len() implies first(bindings[i]) != first(bindings[j]) by {
        assert(native_roots::position_before(bindings[i].0, bindings[j].0));
    }
}

proof fn unshared_rows(inodes: Seq<(Inode, Position)>, i: int, k: int)
    requires
        native_build::shared_from(inodes, i) is None,
        1 <= i <= k < inodes.len(),
    ensures
        inodes[k].0 != inodes[k - 1].0,
    decreases k - i,
{
    if i < k {
        unshared_rows(inodes, i + 1, k);
    }
}

proof fn unshared_are_keyed(inodes: Seq<(Inode, Position)>)
    requires
        native_build::shared_from(inodes, 1) is None,
        ordering::in_order::<(Inode, Position)>(inodes),
    ensures
        keyed(inodes),
{
    let first = |p: (Inode, Position)| p.0;
    assert forall|i: int, j: int|
        #![trigger inodes[i], inodes[j]]
        0 <= i < j < inodes.len() implies first(inodes[i]) != first(inodes[j]) by {
        unshared_rows(inodes, 1, j);
        assert(!<(Inode, Position) as Ranked>::before(inodes[j], inodes[j - 1]));
        if i < j - 1 {
            assert(!<(Inode, Position) as Ranked>::before(inodes[j - 1], inodes[i]));
        }
    }
}

pub(crate) proof fn sorted_pairs_hold<T: Ranked>(list: Seq<T::Row>)
    ensures
        native_build::in_key_order::<T>(list).len() == list.len(),
        ordering::in_order::<T>(native_build::in_key_order::<T>(list)),
        forall|row: T::Row| #[trigger]
            native_build::in_key_order::<T>(list).contains(row) <==> list.contains(row),
{
    ordering::sorted_is_in_order::<T>(list, list.len() as int);
    assert forall|row: T::Row| #[trigger]
        native_build::in_key_order::<T>(list).contains(row) <==> list.contains(row) by {
        ordering::sorted_holds::<T>(list, row);
    }
}

/// Whether each table is in the order of its keys, each key of a tree, an
/// inode, a directory or a conflict once.
pub open spec fn tables_in_order(x: IndexesModel) -> bool {
    &&& ordering::in_order::<PathClaim>(x.path_claims)
    &&& ordering::in_order::<(String, Inode)>(x.tree) && keyed(x.tree)
    &&& ordering::in_order::<(Inode, String)>(x.rev_tree) && keyed(x.rev_tree)
    &&& ordering::in_order::<(Inode, Position)>(x.inodes) && keyed(x.inodes)
    &&& native_roots::in_position_order(x.rev_inodes) && keyed(x.rev_inodes)
    &&& ordering::in_order::<(Inode, u8)>(x.directories) && keyed(x.directories)
    &&& ordering::in_order::<NativeConflicts>(x.conflicts) && ordering::apart(
        x.conflicts,
        |c: ConflictsModel| conflicts_key(c),
    )
}

/// Every projected table is in the order of its keys.
pub proof fn projected_tables_are_in_order(
    repo: Repository,
    bindings: Seq<(Position, Inode)>,
    facts: NativeClaims,
)
    requires
        native_roots::in_position_order(bindings),
    ensures
        native_build::expected_indexes(repo, bindings, facts) matches Ok(x) ==> tables_in_order(x),
{
    if let Ok(x) = native_build::expected_indexes(repo, bindings, facts) {
        let all = native_tables::claim_models(facts.claims@);
        let claims = native_build::distinct_claims(all, all.len() as int);
        let inodes = native_build::ordered_inodes(bindings);
        let at = repo.view_at(repo.current_view@)->0;
        let view = facts.reduced@[at];
        let entries = native_build::view_entries_from(repo, facts.reduced@, 0, Seq::empty())->Ok_0;
        let present = native_build::claimed_models(view.present@);
        let tree = native_build::expected_tree(repo.pristine@, facts.flags@, inodes, present)->Ok_0;
        let directories = native_build::expected_directories(view, tree);
        sorted_pairs_hold::<PathClaim>(claims);
        sorted_pairs_hold::<(String, Inode)>(tree.tree);
        sorted_pairs_hold::<(Inode, String)>(tree.reverse);
        sorted_pairs_hold::<(Inode, Position)>(native_build::flipped(bindings));
        sorted_pairs_hold::<(Inode, u8)>(directories);
        sorted_pairs_hold::<NativeConflicts>(native_build::stored_conflicts(entries));
        expected_tree_is_one_to_one(repo.pristine@, facts.flags@, inodes, present);
        ordering::sorted_stays_apart::<(String, Inode), Seq<char>>(
            tree.tree,
            tree.tree.len() as int,
            |p: (Seq<char>, Inode)| p.0,
        );
        ordering::sorted_stays_apart::<(Inode, String), Inode>(
            tree.reverse,
            tree.reverse.len() as int,
            |p: (Inode, Seq<char>)| p.0,
        );
        unshared_are_keyed(inodes);
        positions_are_keyed(bindings);
        let sides = native_build::all_sides(view);
        let placed = native_build::directory_sides(sides, sides.len() as int)
            + tree.staged_directories;
        let alive = sides.map_values(|s: ClaimedModel| s.path) + tree.staged;
        flagged_stay_keyed(placed, alive, placed.len() as int);
        ordering::sorted_stays_apart::<(Inode, u8), Inode>(
            directories,
            directories.len() as int,
            |p: (Inode, u8)| p.0,
        );
        let stored = native_build::stored_conflicts(entries);
        stored_stay_apart(entries);
        ordering::sorted_stays_apart::<NativeConflicts, (u64, Inode)>(
            stored,
            stored.len() as int,
            |c: ConflictsModel| conflicts_key(c),
        );
    }
}

/// The projected inode tables undo each other, and so do the tree tables.
pub proof fn projected_tables_are_inverse(
    repo: Repository,
    bindings: Seq<(Position, Inode)>,
    facts: NativeClaims,
)
    requires
        native_roots::in_position_order(bindings),
    ensures
        native_build::expected_indexes(repo, bindings, facts) matches Ok(x) ==> inverse(
            x.inodes,
            x.rev_inodes,
        ) && inverse(x.tree, x.rev_tree),
{
    if let Ok(x) = native_build::expected_indexes(repo, bindings, facts) {
        projected_tables_are_in_order(repo, bindings, facts);
        let inodes = native_build::ordered_inodes(bindings);
        let at = repo.view_at(repo.current_view@)->0;
        let present = native_build::claimed_models(facts.reduced@[at].present@);
        let tree = native_build::expected_tree(repo.pristine@, facts.flags@, inodes, present)->Ok_0;
        let flipped = native_build::flipped(bindings);
        sorted_pairs_hold::<(Inode, Position)>(flipped);
        assert forall|i: Inode, p: Position|
            #![trigger x.inodes.contains((i, p))]
            #![trigger x.rev_inodes.contains((p, i))]
            x.inodes.contains((i, p)) <==> x.rev_inodes.contains((p, i)) by {
            assert(x.inodes.contains((i, p)) <==> flipped.contains((i, p)));
            if flipped.contains((i, p)) {
                let k = choose|k: int| 0 <= k < flipped.len() && flipped[k] == (i, p);
                assert(bindings[k] == (p, i));
            }
            if bindings.contains((p, i)) {
                let k = choose|k: int| 0 <= k < bindings.len() && bindings[k] == (p, i);
                assert(flipped[k] == (i, p));
            }
        }
        mirrored_is_inverse(x.inodes, x.rev_inodes);
        sorted_pairs_hold::<(String, Inode)>(tree.tree);
        sorted_pairs_hold::<(Inode, String)>(tree.reverse);
        expected_tree_is_one_to_one(repo.pristine@, facts.flags@, inodes, present);
        assert forall|p: Seq<char>, i: Inode|
            #![trigger x.tree.contains((p, i))]
            #![trigger x.rev_tree.contains((i, p))]
            x.tree.contains((p, i)) <==> x.rev_tree.contains((i, p)) by {
            keyed_value(tree.tree, p, i);
            keyed_value(tree.reverse, i, p);
            assert(x.tree.contains((p, i)) <==> tree.tree.contains((p, i)));
            assert(x.rev_tree.contains((i, p)) <==> tree.reverse.contains((i, p)));
            assert(pristine::first_value(tree.tree, p) == Some(i) <==> pristine::first_value(
                tree.reverse,
                i,
            ) == Some(p));
        }
        mirrored_is_inverse(x.tree, x.rev_tree);
    }
}

proof fn owned_claim(claims: Seq<ClaimModel>, bindings: Seq<(Position, Inode)>, i: int, k: int)
    requires
        native_build::unowned_from(claims, bindings, i) is None,
        0 <= i <= k < claims.len(),
    ensures
        pristine::first_value(bindings, claims[k].claimant) is Some,
    decreases k - i,
{
    if i < k {
        owned_claim(claims, bindings, i + 1, k);
    }
}

/// Every projected claim is of a root that an inode owns.
pub proof fn projected_claims_are_owned(
    repo: Repository,
    bindings: Seq<(Position, Inode)>,
    facts: NativeClaims,
)
    ensures
        native_build::expected_indexes(repo, bindings, facts) matches Ok(x) ==> forall|k: int|
            0 <= k < x.path_claims.len() ==> pristine::first_value(
                x.rev_inodes,
                (#[trigger] x.path_claims[k]).claimant,
            ) is Some,
{
    if let Ok(x) = native_build::expected_indexes(repo, bindings, facts) {
        assert forall|k: int| 0 <= k < x.path_claims.len() implies pristine::first_value(
            x.rev_inodes,
            (#[trigger] x.path_claims[k]).claimant,
        ) is Some by {
            owned_claim(x.path_claims, bindings, 0, k);
        }
    }
}

proof fn flagged_row(
    directories: Seq<(Inode, Seq<char>)>,
    alive: Seq<Seq<char>>,
    n: int,
    k: int,
)
    requires
        0 <= n <= directories.len(),
        0 <= k < native_build::flagged_directories(directories, alive, n).len(),
    ensures
        ({
            let row = native_build::flagged_directories(directories, alive, n)[k];
            row.1 == native_build::directory_flags(directories, alive, row.0)
        }),
    decreases n,
{
    if n > 0 {
        let rest = native_build::flagged_directories(directories, alive, n - 1);
        if k < rest.len() {
            flagged_row(directories, alive, n - 1, k);
        }
    }
}

/// Everything that stands below a directory when it is not empty: what the
/// view shows or contests, and what was added and never recorded.
pub open spec fn shown_paths(view: ReducedView, tree: TreeModel) -> Seq<Seq<char>> {
    native_build::all_sides(view).map_values(|s: ClaimedModel| s.path) + tree.staged
}

/// The paths of directories, by inode.
pub open spec fn directory_paths(view: ReducedView, tree: TreeModel) -> Seq<(Inode, Seq<char>)> {
    let sides = native_build::all_sides(view);
    native_build::directory_sides(sides, sides.len() as int) + tree.staged_directories
}

/// A projected directory row is flagged as one that is kept, and as empty exactly when nothing that the
/// current view shows, contests or stages lies directly below one of the
/// directory's paths.
pub proof fn projected_directories_tell_emptiness(
    repo: Repository,
    bindings: Seq<(Position, Inode)>,
    facts: NativeClaims,
    k: int,
)
    ensures
        native_build::expected_indexes(repo, bindings, facts) matches Ok(x) ==> ({
            let view = facts.reduced@[repo.view_at(repo.current_view@)->0];
            let tree = native_build::expected_tree(
                repo.pristine@,
                facts.flags@,
                x.inodes,
                native_build::claimed_models(view.present@),
            )->Ok_0;
            0 <= k < x.directories.len() ==> x.directories[k].1 & 1u8 == 1u8 && (
            x.directories[k].1 & DIR_EMPTY != 0 <==> !exists|d: int, a: int|
                0 <= d < directory_paths(view, tree).len() && 0 <= a < shown_paths(view, tree).len()
                    && (#[trigger] directory_paths(view, tree)[d]).0 == x.directories[k].0
                    && text::parent(#[trigger] shown_paths(view, tree)[a]) == Some(
                    directory_paths(view, tree)[d].1,
                ))
        }),
{
    if let Ok(x) = native_build::expected_indexes(repo, bindings, facts) {
        let view = facts.reduced@[repo.view_at(repo.current_view@)->0];
        let tree = native_build::expected_tree(
            repo.pristine@,
            facts.flags@,
            x.inodes,
            native_build::claimed_models(view.present@),
        )->Ok_0;
        if 0 <= k < x.directories.len() {
            let rows = native_build::expected_directories(view, tree);
            sorted_pairs_hold::<(Inode, u8)>(rows);
            let row = x.directories[k];
            assert(x.directories.contains(row));
            let m = choose|m: int| 0 <= m < rows.len() && rows[m] == row;
            let directories = directory_paths(view, tree);
            flagged_row(directories, shown_paths(view, tree), directories.len() as int, m);
            assert(1u8 & 2u8 == 0u8 && 1u8 & 1u8 == 1u8) by (bit_vector);
            assert(3u8 & 2u8 == 2u8 && 3u8 & 1u8 == 1u8) by (bit_vector);
            let shown = shown_paths(view, tree);
            if native_build::has_entry(directories, shown, row.0) {
                let (d, a) = choose|d: int, a: int|
                    0 <= d < directories.len() && 0 <= a < shown.len() && (
                    #[trigger] directories[d]).0 == row.0 && text::parent(#[trigger] shown[a])
                        == Some(directories[d].1);
                assert(directory_paths(view, tree)[d].0 == row.0);
                assert(text::parent(shown_paths(view, tree)[a]) is Some);
            }
        }
    }
}

pub(crate) proof fn rows_are_functional<R, K>(
    list: Seq<R>,
    key: spec_fn(R) -> K,
    told: Seq<(Seq<char>, Seq<char>)>,
)
    requires
        ordering::apart(list, key),
        told.len() == list.len(),
        forall|i: int, j: int|
            #![trigger told[i], told[j]]
            0 <= i < list.len() && 0 <= j < list.len() && told[i].0 == told[j].0 ==> key(list[i])
                == key(list[j]),
    ensures
        native_tables::functional(told),
{
    assert forall|i: int, j: int|
        #![trigger told[i], told[j]]
        0 <= i < told.len() && 0 <= j < told.len() && told[i].0 == told[j].0 implies told[i].1
        == told[j].1 by {
        if i < j {
            assert(key(list[i]) != key(list[j]));
        } else if j < i {
            assert(key(list[j]) != key(list[i]));
        }
    }
}


proof fn owners_have_keys(
    keys: Seq<(Inode, GraphNode)>,
    position: Position,
    n: int,
    inode: Inode,
)
    requires
        0 <= n <= keys.len(),
    ensures
        native_roots::owners(keys, position, n).contains(inode) <==> exists|k: int|
            0 <= k < n && (#[trigger] keys[k]).0 == inode && keys[k].1 == (GraphNode {
                change: position.change,
                start: position.pos,
                end: position.pos,
            }),
        native_roots::owners(keys, position, n).no_duplicates(),
    decreases n,
{
    if n > 0 {
        owners_have_keys(keys, position, n - 1, inode);
        let rest = native_roots::owners(keys, position, n - 1);
        let all = native_roots::owners(keys, position, n);
        if rest.contains(inode) {
            let k = rest.index_of(inode);
            assert(all[k] == inode);
        }
        if all.len() > rest.len() {
            assert(all[rest.len() as int] == keys[n - 1].0);
        }
        if all.contains(inode) {
            let k = all.index_of(inode);
            if k < rest.len() {
                assert(rest[k] == inode);
            }
        }
        assert forall|a: int, b: int| 0 <= a < b < all.len() implies all[a] != all[b] by {
            if b == rest.len() {
                assert(rest.contains(rest[a]));
            }
        }
    }
}

/// A root is bound to an inode that the graph has for it, to the only one or to
/// the one it is bound to already; the root is a vertex of the graph, and an
/// earlier binding is never changed. Where the graph has exactly one inode for
/// it and no other binding stands, it is bound.
pub proof fn roots_are_bound_to_their_owner(
    keys: Seq<(Inode, GraphNode)>,
    vertices: Seq<GraphNode>,
    stored: Seq<(Position, Inode)>,
    position: Position,
    inode: Inode,
)
    ensures
        ({
            let node = GraphNode {
                change: position.change,
                start: position.pos,
                end: position.pos,
            };
            let found = native_roots::owner_of(keys, vertices, stored, position);
            let bound = pristine::first_value(stored, position);
            let owns = exists|k: int|
                0 <= k < keys.len() && (#[trigger] keys[k]).0 == inode && keys[k].1 == node;
            let alone = forall|k: int|
                0 <= k < keys.len() && (#[trigger] keys[k]).1 == node ==> keys[k].0 == inode;
            &&& (found matches Ok(owner) && owner == inode) ==> owns && vertices.contains(node) && (
            bound is Some ==> bound == Some(inode)) && (alone || bound == Some(inode))
            &&& owns && vertices.contains(node) && (bound == Some(inode) || (alone && bound is None))
                ==> (found matches Ok(owner) && owner == inode)
        }),
{
    let n = keys.len() as int;
    let node = GraphNode { change: position.change, start: position.pos, end: position.pos };
    let owners = native_roots::owners(keys, position, n);
    owners_have_keys(keys, position, n, inode);
    if owners.len() == 1 {
        assert(owners.contains(owners[0]));
        assert forall|k: int|
            0 <= k < keys.len() && (#[trigger] keys[k]).1 == node implies keys[k].0
            == owners[0] by {
            owners_have_keys(keys, position, n, keys[k].0);
            let m = owners.index_of(keys[k].0);
            assert(owners[m] == keys[k].0);
        }
    }
    if owners.contains(inode) && (forall|k: int|
        0 <= k < keys.len() && (#[trigger] keys[k]).1 == node ==> keys[k].0 == inode) {
        assert forall|m: int| 0 <= m < owners.len() implies #[trigger] owners[m] == inode by {
            owners_have_keys(keys, position, n, owners[m]);
            assert(owners.contains(owners[m]));
        }
        if owners.len() > 1 {
            assert(owners[0] != owners[1]);
        }
    }
}

} // verus!
