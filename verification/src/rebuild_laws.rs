//! What the rebuilt native tables hold.

use crate::conflict_markers;
use crate::content;
use crate::native_build;
use crate::native_build::{ClaimedModel, EntryModel, NativeClaims, ReducedConflict, ReducedView, TreeModel};
use crate::native_laws;
use crate::native_roots::{FaultModel, PathRefusalModel};
use crate::native_tables;
use crate::native_tables::{ClaimModel, IndexesModel, PathClaim};
use crate::pristine;
use crate::pristine::{PristineModel, Visibility};
use crate::repository::{ConflictModel, Repository, StoredConflictKind};
use crate::types::{Inode, Position};
use vstd::prelude::*;

verus! {

proof fn value_is_kept<K, V>(pairs: Seq<(K, V)>, key: K)
    ensures
        pristine::first_value(pairs, key) matches Some(value) ==> pairs.contains((key, value)),
        pristine::first_value(pairs, key) is None ==> forall|value: V| !pairs.contains((key, value)),
    decreases pairs.len(),
{
    if pairs.len() > 0 {
        let rest = pairs.drop_first();
        value_is_kept(rest, key);
        assert(pairs[0] == (pairs[0].0, pairs[0].1));
        if pairs[0].0 == key {
            assert(pairs.contains((key, pairs[0].1)));
        } else {
            if let Some(value) = pristine::first_value(rest, key) {
                let k = rest.index_of((key, value));
                assert(pairs[k + 1] == (key, value));
            }
            assert forall|value: V| pristine::first_value(rest, key) is None implies !pairs.contains(
                (key, value),
            ) by {
                if pairs.contains((key, value)) {
                    let k = choose|k: int| 0 <= k < pairs.len() && pairs[k] == (key, value);
                    assert(k > 0);
                    assert(rest[k - 1] == (key, value));
                    assert(rest.contains((key, value)));
                }
            }
        }
    }
}

proof fn pair_is_entered(
    tree: TreeModel,
    path: Seq<char>,
    inode: Inode,
    grown: TreeModel,
    p: Seq<char>,
    n: Inode,
)
    requires
        native_build::with_pair(tree, path, inode) == Ok::<TreeModel, PathRefusalModel>(grown),
    ensures
        grown.tree.contains((p, n)) <==> tree.tree.contains((p, n)) || (p == path && n == inode),
{
    value_is_kept(tree.tree, path);
    if grown.tree.len() > tree.tree.len() {
        assert(grown.tree == tree.tree.push((path, inode)));
        assert(grown.tree[tree.tree.len() as int] == (path, inode));
    }
    if tree.tree.contains((p, n)) {
        let k = tree.tree.index_of((p, n));
        assert(grown.tree[k] == (p, n));
    }
    if grown.tree.contains((p, n)) && !(p == path && n == inode) {
        let k = grown.tree.index_of((p, n));
        assert(tree.tree[k] == (p, n));
    }
}

proof fn present_is_entered(
    present: Seq<ClaimedModel>,
    i: int,
    tree: TreeModel,
    end: TreeModel,
    p: Seq<char>,
    n: Inode,
)
    requires
        0 <= i <= present.len(),
        native_build::present_from(present, i, tree) == Ok::<TreeModel, PathRefusalModel>(end),
    ensures
        end.tree.contains((p, n)) <==> tree.tree.contains((p, n)) || exists|k: int|
            i <= k < present.len() && (#[trigger] present[k]).path == p && present[k].inode == n,
    decreases present.len() - i,
{
    if i < present.len() {
        let next = native_build::with_pair(tree, present[i].path, present[i].inode)->Ok_0;
        pair_is_entered(tree, present[i].path, present[i].inode, next, p, n);
        present_is_entered(present, i + 1, next, end, p, n);
    }
}

proof fn staged_is_entered(
    tables: PristineModel,
    flags: Seq<(Inode, u8)>,
    inodes: Seq<(Inode, Position)>,
    i: int,
    tree: TreeModel,
    end: TreeModel,
    p: Seq<char>,
    n: Inode,
)
    requires
        0 <= i <= tables.tree.len(),
        native_build::staged_from(tables, flags, inodes, i, tree) == Ok::<
            TreeModel,
            PathRefusalModel,
        >(end),
    ensures
        end.tree.contains((p, n)) <==> tree.tree.contains((p, n)) || exists|k: int|
            i <= k < tables.tree.len() && (#[trigger] tables.tree[k]) == (p, n)
                && pristine::first_value(inodes, n) is None,
    decreases tables.tree.len() - i,
{
    if i < tables.tree.len() {
        let (path, inode) = tables.tree[i];
        if native_build::is_recorded(inodes, inode) {
            staged_is_entered(tables, flags, inodes, i + 1, tree, end, p, n);
        } else {
            let next = native_build::with_staged(tables, flags, path, inode, tree)->Ok_0;
            let grown = native_build::with_pair(tree, path, inode)->Ok_0;
            pair_is_entered(tree, path, inode, grown, p, n);
            assert(next.tree == grown.tree);
            staged_is_entered(tables, flags, inodes, i + 1, next, end, p, n);
        }
        assert(tables.tree[i] == (path, inode));
    }
}

/// The rebuilt tree cache holds exactly what the current view shows and what was
/// staged without ever being recorded, and its reverse the same pairs.
pub proof fn rebuilt_trees_hold_the_view_and_staging(
    repo: Repository,
    bindings: Seq<(Position, Inode)>,
    facts: NativeClaims,
    x: IndexesModel,
    v: int,
    p: Seq<char>,
    n: Inode,
)
    requires
        native_build::expected_indexes(repo, bindings, facts) == Ok::<IndexesModel, FaultModel>(x),
        repo.view_at(repo.current_view@) == Some(v),
    ensures
        x.tree.contains((p, n)) <==> (exists|k: int|
            0 <= k < facts.reduced@[v].present@.len() && (
            #[trigger] facts.reduced@[v].present@[k]).path@ == p && facts.reduced@[v].present@[k].inode
                == n) || (repo.pristine@.tree.contains((p, n)) && forall|b: int|
            0 <= b < bindings.len() ==> (#[trigger] bindings[b]).1 != n),
        x.rev_inodes == bindings,
        forall|b: int| 0 <= b < bindings.len() ==> x.inodes.contains(
            ((#[trigger] bindings[b]).1, bindings[b].0),
        ),
        x.inodes.len() == bindings.len(),
{
    let view = facts.reduced@[v];
    let present = native_build::claimed_models(view.present@);
    let tables = repo.pristine@;
    let inodes = native_build::ordered_inodes(bindings);
    let tree = native_build::expected_tree(tables, facts.flags@, inodes, present)->Ok_0;
    let shown = native_build::present_from(present, 0, native_build::empty_tree())->Ok_0;
    present_is_entered(present, 0, native_build::empty_tree(), shown, p, n);
    staged_is_entered(tables, facts.flags@, inodes, 0, shown, tree, p, n);
    native_laws::sorted_pairs_hold::<(String, Inode)>(tree.tree);
    let flat = native_build::flipped(bindings);
    native_laws::sorted_pairs_hold::<(Inode, Position)>(flat);
    assert(native_build::in_key_order::<(Inode, Position)>(flat) == inodes);
    assert forall|b: int| 0 <= b < bindings.len() implies inodes.contains(
        ((#[trigger] bindings[b]).1, bindings[b].0),
    ) by {
        assert(flat[b] == (bindings[b].1, bindings[b].0));
        assert(flat.contains((bindings[b].1, bindings[b].0)));
    }
    value_is_kept(inodes, n);
    if pristine::first_value(inodes, n) is Some {
        let position = pristine::first_value(inodes, n)->0;
        assert(flat.contains((n, position)));
        let b = flat.index_of((n, position));
        assert(bindings[b].1 == n);
    } else {
        assert forall|b: int| 0 <= b < bindings.len() implies (#[trigger] bindings[b]).1 != n by {
            assert(inodes.contains((bindings[b].1, bindings[b].0)));
        }
    }
    assert forall|k: int| 0 <= k < present.len() implies (#[trigger] present[k]).path
        == view.present@[k].path@ && present[k].inode == view.present@[k].inode by {}
    if exists|k: int| 0 <= k < present.len() && (#[trigger] present[k]).path == p && present[k].inode == n {
        let k = choose|k: int|
            0 <= k < present.len() && (#[trigger] present[k]).path == p && present[k].inode == n;
        assert(view.present@[k].path@ == p);
    }
    if exists|k: int|
        0 <= k < view.present@.len() && (#[trigger] view.present@[k]).path@ == p
            && view.present@[k].inode == n {
        let k = choose|k: int|
            0 <= k < view.present@.len() && (#[trigger] view.present@[k]).path@ == p
                && view.present@[k].inode == n;
        assert(present[k].path == p);
    }
    if repo.pristine@.tree.contains((p, n)) {
        let k = tables.tree.index_of((p, n));
        assert(tables.tree[k] == (p, n));
    }
}

proof fn distinct_claims_are_claims(claims: Seq<ClaimModel>, n: int, claim: ClaimModel)
    requires
        0 <= n <= claims.len(),
    ensures
        native_build::distinct_claims(claims, n).contains(claim) ==> claims.take(n).contains(claim),
        claims.take(n).contains(claim) ==> native_build::has_claim(
            native_build::distinct_claims(claims, n),
            claim,
        ),
    decreases n,
{
    if n > 0 {
        distinct_claims_are_claims(claims, n - 1, claim);
        let rest = native_build::distinct_claims(claims, n - 1);
        let all = native_build::distinct_claims(claims, n);
        let last = claims[n - 1];
        let head = claims.take(n - 1);
        assert(claims.take(n)[n - 1] == last);
        if head.contains(claim) {
            let k = head.index_of(claim);
            assert(claims.take(n)[k] == claim);
        }
        if claims.take(n).contains(claim) && claim != last {
            let k = claims.take(n).index_of(claim);
            assert(head[k] == claim);
        }
        if native_build::has_claim(rest, claim) {
            let k = choose|k: int|
                0 <= k < rest.len() && (#[trigger] rest[k]).path == claim.path && rest[k].event
                    == claim.event;
            assert(all[k] == rest[k]);
        }
        if all.len() > rest.len() {
            assert(all[rest.len() as int] == last);
        }
        if all.contains(claim) {
            let k = all.index_of(claim);
            if k < rest.len() {
                assert(rest[k] == claim);
            }
        }
    }
}

/// The rebuilt claim table holds every event of every path that was claimed, and
/// nothing else.
pub proof fn rebuilt_claims_are_those_made(
    repo: Repository,
    bindings: Seq<(Position, Inode)>,
    facts: NativeClaims,
    x: IndexesModel,
    k: int,
)
    requires
        native_build::expected_indexes(repo, bindings, facts) == Ok::<IndexesModel, FaultModel>(x),
    ensures
        0 <= k < facts.claims@.len() ==> exists|m: int|
            0 <= m < x.path_claims.len() && (#[trigger] x.path_claims[m]).path
                == facts.claims@[k].path@ && x.path_claims[m].event == facts.claims@[k].event@,
        0 <= k < x.path_claims.len() ==> exists|m: int|
            0 <= m < facts.claims@.len() && (#[trigger] facts.claims@[m])@ == x.path_claims[k],
{
    let all = native_tables::claim_models(facts.claims@);
    let kept = native_build::distinct_claims(all, all.len() as int);
    assert(all.take(all.len() as int) =~= all);
    native_laws::sorted_pairs_hold::<PathClaim>(kept);
    if 0 <= k < facts.claims@.len() {
        let claim = all[k];
        assert(claim == facts.claims@[k]@);
        assert(all.contains(claim));
        distinct_claims_are_claims(all, all.len() as int, claim);
        let j = choose|j: int|
            0 <= j < kept.len() && (#[trigger] kept[j]).path == claim.path && kept[j].event
                == claim.event;
        assert(kept.contains(kept[j]));
        assert(x.path_claims.contains(kept[j]));
        let m = x.path_claims.index_of(kept[j]);
        assert(x.path_claims[m] == kept[j]);
    }
    if 0 <= k < x.path_claims.len() {
        let claim = x.path_claims[k];
        assert(x.path_claims.contains(claim));
        distinct_claims_are_claims(all, all.len() as int, claim);
        let m = all.index_of(claim);
        assert(facts.claims@[m]@ == claim);
    }
}

proof fn markers_are_entered(
    repo: Repository,
    visibility: Visibility,
    view: u64,
    present: Seq<ClaimedModel>,
    i: int,
    found: Seq<EntryModel>,
    k: int,
    line: u32,
)
    requires
        0 <= i <= present.len(),
        native_build::order_entries_from(repo, visibility, view, present, i, found) is Ok,
    ensures
        ({
            let all = native_build::order_entries_from(
                repo,
                visibility,
                view,
                present,
                i,
                found,
            )->Ok_0;
            &&& found.is_prefix_of(all)
            &&& i <= k < present.len() && !present[k].is_directory && (content::file_bytes(
                repo,
                present[k].inode,
                present[k].position,
                visibility,
            ) matches Ok((bytes, _)) && conflict_markers::marker_line(bytes) == Some(line))
                ==> all.contains(
                EntryModel {
                    view,
                    inode: present[k].inode,
                    record: ConflictModel {
                        kind: StoredConflictKind::Order,
                        path: present[k].path,
                        line: Some(line),
                        sides: Seq::empty(),
                    },
                },
            )
        }),
    decreases present.len() - i,
{
    if i < present.len() {
        if present[i].is_directory {
            markers_are_entered(repo, visibility, view, present, i + 1, found, k, line);
        } else {
            let (bytes, _) = content::file_bytes(
                repo,
                present[i].inode,
                present[i].position,
                visibility,
            )->Ok_0;
            let next = match conflict_markers::marker_line(bytes) {
                None => found,
                Some(at) => found.push(
                    EntryModel {
                        view,
                        inode: present[i].inode,
                        record: ConflictModel {
                            kind: StoredConflictKind::Order,
                            path: present[i].path,
                            line: Some(at),
                            sides: Seq::empty(),
                        },
                    },
                ),
            };
            markers_are_entered(repo, visibility, view, present, i + 1, next, k, line);
            let all = native_build::order_entries_from(
                repo,
                visibility,
                view,
                present,
                i,
                found,
            )->Ok_0;
            assert forall|m: int| 0 <= m < found.len() implies found[m] == all[m] by {
                assert(next[m] == found[m]);
            }
            assert(found =~= all.take(found.len() as int));
            if k == i && next.len() > found.len() {
                assert(all[found.len() as int] == next[found.len() as int]);
            }
        }
    } else {
        assert(found =~= found.take(found.len() as int));
    }
}

proof fn sides_are_entered(
    view: u64,
    path: Seq<char>,
    sides: Seq<ClaimedModel>,
    hashes: Seq<Seq<char>>,
    n: int,
    found: Seq<EntryModel>,
    k: int,
)
    requires
        0 <= n <= sides.len(),
    ensures
        ({
            let all = native_build::with_sides(view, path, sides, hashes, n, found);
            &&& found.is_prefix_of(all)
            &&& 0 <= k < n && sides[k].path == path ==> all.contains(
                EntryModel {
                    view,
                    inode: sides[k].inode,
                    record: ConflictModel {
                        kind: StoredConflictKind::Name,
                        path,
                        line: if sides[k].is_directory {
                            None
                        } else {
                            Some(1u32)
                        },
                        sides: hashes,
                    },
                },
            )
        }),
    decreases n,
{
    if n > 0 {
        sides_are_entered(view, path, sides, hashes, n - 1, found, k);
        let rest = native_build::with_sides(view, path, sides, hashes, n - 1, found);
        let all = native_build::with_sides(view, path, sides, hashes, n, found);
        assert forall|m: int| 0 <= m < found.len() implies found[m] == all[m] by {
            assert(rest[m] == found[m]);
        }
        assert(found =~= all.take(found.len() as int));
        if all.len() > rest.len() && k == n - 1 {
            assert(all[rest.len() as int].inode == sides[k].inode);
            assert(all.contains(all[rest.len() as int]));
        }
        if 0 <= k < n - 1 && sides[k].path == path {
            let entry = EntryModel {
                view,
                inode: sides[k].inode,
                record: ConflictModel {
                    kind: StoredConflictKind::Name,
                    path,
                    line: if sides[k].is_directory {
                        None
                    } else {
                        Some(1u32)
                    },
                    sides: hashes,
                },
            };
            let m = rest.index_of(entry);
            assert(all[m] == entry);
        }
    } else {
        assert(found =~= found.take(found.len() as int));
    }
}

proof fn contests_are_entered(
    view: u64,
    conflicts: Seq<ReducedConflict>,
    i: int,
    found: Seq<EntryModel>,
    c: int,
    s: int,
)
    requires
        0 <= i <= conflicts.len(),
        native_build::name_entries_from(view, conflicts, i, found) is Ok,
    ensures
        ({
            let all = native_build::name_entries_from(view, conflicts, i, found)->Ok_0;
            &&& found.is_prefix_of(all)
            &&& i <= c < conflicts.len() && 0 <= s < conflicts[c].sides@.len()
                && conflicts[c].sides@[s].path@ == conflicts[c].path@ ==> exists|m: int|
                0 <= m < all.len() && (#[trigger] all[m]).view == view && all[m].inode
                    == conflicts[c].sides@[s].inode && all[m].record.kind is Name
                    && all[m].record.path == conflicts[c].path@
        }),
    decreases conflicts.len() - i,
{
    if i < conflicts.len() {
        let hashes = native_build::hashes_from(conflicts[i].changes@, 0, Seq::empty())->Ok_0;
        let sides = native_build::claimed_models(conflicts[i].sides@);
        let sorted = crate::collections::sorted_set(hashes);
        let next = native_build::with_sides(
            view,
            conflicts[i].path@,
            sides,
            sorted,
            sides.len() as int,
            found,
        );
        sides_are_entered(
            view,
            conflicts[i].path@,
            sides,
            sorted,
            sides.len() as int,
            found,
            s,
        );
        contests_are_entered(view, conflicts, i + 1, next, c, s);
        let all = native_build::name_entries_from(view, conflicts, i, found)->Ok_0;
        assert forall|m: int| 0 <= m < found.len() implies found[m] == all[m] by {
            assert(next[m] == found[m]);
        }
        assert(found =~= all.take(found.len() as int));
        if c == i && 0 <= s < sides.len() && conflicts[c].sides@[s].path@ == conflicts[c].path@ {
            assert(sides[s] == conflicts[c].sides@[s]@);
            let entry = EntryModel {
                view,
                inode: sides[s].inode,
                record: ConflictModel {
                    kind: StoredConflictKind::Name,
                    path: conflicts[i].path@,
                    line: if sides[s].is_directory {
                        None
                    } else {
                        Some(1u32)
                    },
                    sides: sorted,
                },
            };
            let m = next.index_of(entry);
            assert(all[m] == next[m]);
            assert(all[m].view == view);
        }
    } else {
        assert(found =~= found.take(found.len() as int));
    }
}

/// The conflicts of a view are found: a file whose content carries markers by
/// its order conflict, with the marker's line, and every side of a contested
/// path by its name conflict.
pub proof fn conflicts_of_views_are_found(
    repo: Repository,
    reduced: Seq<ReducedView>,
    k: int,
    found: Seq<EntryModel>,
    v: int,
    f: int,
    line: u32,
    c: int,
    s: int,
)
    requires
        0 <= k <= repo.views@.len(),
        native_build::view_entries_from(repo, reduced, k, found) is Ok,
    ensures
        ({
            let all = native_build::view_entries_from(repo, reduced, k, found)->Ok_0;
            let view = repo.views@[v].id;
            let file = reduced[v].present@[f];
            let conflict = reduced[v].conflicts@[c];
            &&& found.is_prefix_of(all)
            &&& k <= v < repo.views@.len() && 0 <= f < reduced[v].present@.len()
                && !file.is_directory && (content::file_bytes(
                repo,
                file.inode,
                file.position,
                repo.views@[v].claims->Ok_0,
            ) matches Ok((bytes, _)) && conflict_markers::marker_line(bytes) == Some(line))
                ==> exists|m: int|
                0 <= m < all.len() && (#[trigger] all[m]).view == view && all[m].inode == file.inode
                    && all[m].record.kind is Order && all[m].record.path == file.path@
                    && all[m].record.line == Some(line)
            &&& k <= v < repo.views@.len() && 0 <= c < reduced[v].conflicts@.len() && 0 <= s
                < conflict.sides@.len() && conflict.sides@[s].path@ == conflict.path@ ==> exists|
                m: int,
            |
                0 <= m < all.len() && (#[trigger] all[m]).view == view && all[m].inode
                    == conflict.sides@[s].inode && all[m].record.kind is Name && all[m].record.path
                    == conflict.path@
        }),
    decreases repo.views@.len() - k,
{
    if k < repo.views@.len() {
        let visibility = repo.views@[k].claims->Ok_0;
        let id = repo.views@[k].id;
        let present = native_build::claimed_models(reduced[k].present@);
        let named = native_build::name_entries_from(id, reduced[k].conflicts@, 0, found)->Ok_0;
        let next = native_build::order_entries_from(repo, visibility, id, present, 0, named)->Ok_0;
        contests_are_entered(id, reduced[k].conflicts@, 0, found, c, s);
        markers_are_entered(repo, visibility, id, present, 0, named, f, line);
        conflicts_of_views_are_found(repo, reduced, k + 1, next, v, f, line, c, s);
        let all = native_build::view_entries_from(repo, reduced, k, found)->Ok_0;
        assert forall|m: int| 0 <= m < next.len() implies next[m] == all[m] by {}
        assert forall|m: int| 0 <= m < named.len() implies named[m] == all[m] by {
            assert(next[m] == named[m]);
        }
        assert forall|m: int| 0 <= m < found.len() implies found[m] == all[m] by {
            assert(named[m] == found[m]);
        }
        assert(found =~= all.take(found.len() as int));
        if v == k {
            if 0 <= f < present.len() {
                let file = reduced[v].present@[f];
                assert(present[f] == file@);
                let entry = EntryModel {
                    view: id,
                    inode: present[f].inode,
                    record: ConflictModel {
                        kind: StoredConflictKind::Order,
                        path: present[f].path,
                        line: Some(line),
                        sides: Seq::empty(),
                    },
                };
                if next.contains(entry) {
                    let m = next.index_of(entry);
                    assert(all[m] == entry);
                }
            }
            if exists|m: int|
                0 <= m < named.len() && (#[trigger] named[m]).view == id && named[m].inode
                    == reduced[v].conflicts@[c].sides@[s].inode && named[m].record.kind is Name
                    && named[m].record.path == reduced[v].conflicts@[c].path@ {
                let m = choose|m: int|
                    0 <= m < named.len() && (#[trigger] named[m]).view == id && named[m].inode
                        == reduced[v].conflicts@[c].sides@[s].inode && named[m].record.kind is Name
                        && named[m].record.path == reduced[v].conflicts@[c].path@;
                assert(all[m] == named[m]);
            }
        }
    } else {
        assert(found =~= found.take(found.len() as int));
    }
}


proof fn ordered_records_hold(list: Seq<ConflictModel>, n: int, record: ConflictModel)
    requires
        0 <= n <= list.len(),
    ensures
        native_tables::ordered_records(list, n).len() == n,
        native_tables::ordered_records(list, n).contains(record) <==> list.take(n).contains(record),
    decreases n,
{
    if n > 0 {
        ordered_records_hold(list, n - 1, record);
        let rest = native_tables::ordered_records(list, n - 1);
        let last = list[n - 1];
        let at = native_tables::record_place(rest, last, 0);
        record_place_fits(rest, last, 0);
        let all = rest.insert(at, last);
        assert(all[at] == last);
        if rest.contains(record) {
            let k = rest.index_of(record);
            assert(all[if k < at { k } else { k + 1 }] == record);
        }
        if all.contains(record) && record != last {
            let k = all.index_of(record);
            assert(rest[if k < at { k } else { k - 1 }] == record);
        }
        taken_one_more(list, n, record);
    }
}

proof fn taken_one_more<T>(list: Seq<T>, n: int, x: T)
    requires
        0 < n <= list.len(),
    ensures
        list.take(n).contains(x) <==> list.take(n - 1).contains(x) || list[n - 1] == x,
{
    let head = list.take(n - 1);
    assert(list.take(n)[n - 1] == list[n - 1]);
    if head.contains(x) {
        let k = head.index_of(x);
        assert(list.take(n)[k] == x);
    }
    if list.take(n).contains(x) && list[n - 1] != x {
        let k = list.take(n).index_of(x);
        assert(head[k] == x);
    }
}

proof fn record_place_fits(list: Seq<ConflictModel>, record: ConflictModel, i: int)
    requires
        0 <= i <= list.len(),
    ensures
        i <= native_tables::record_place(list, record, i) <= list.len(),
    decreases list.len() - i,
{
    if i < list.len() && !native_tables::record_before(record, list[i]) {
        record_place_fits(list, record, i + 1);
    }
}

proof fn repeats_are_dropped(records: Seq<ConflictModel>, n: int, record: ConflictModel)
    requires
        0 <= n <= records.len(),
    ensures
        native_build::without_repeats(records, n).contains(record) <==> records.take(n).contains(
            record,
        ),
    decreases n,
{
    if n > 0 {
        repeats_are_dropped(records, n - 1, record);
        taken_one_more(records, n, record);
        let rest = native_build::without_repeats(records, n - 1);
        let all = native_build::without_repeats(records, n);
        if all.len() > rest.len() {
            assert(all[rest.len() as int] == records[n - 1]);
            if rest.contains(record) {
                let k = rest.index_of(record);
                assert(all[k] == record);
            }
            if all.contains(record) && record != records[n - 1] {
                let k = all.index_of(record);
                assert(rest[k] == record);
            }
        } else {
            assert(rest[rest.len() - 1] == records[n - 1]);
        }
    } else {
        assert(records.take(0).len() == 0);
    }
}

proof fn records_are_the_owners(
    entries: Seq<EntryModel>,
    owner: (u64, Inode),
    n: int,
    record: ConflictModel,
)
    requires
        0 <= n <= entries.len(),
    ensures
        native_build::records_of(entries, owner, n).contains(record) <==> exists|k: int|
            0 <= k < n && (#[trigger] entries[k]).view == owner.0 && entries[k].inode == owner.1
                && entries[k].record == record,
    decreases n,
{
    if n > 0 {
        records_are_the_owners(entries, owner, n - 1, record);
        let rest = native_build::records_of(entries, owner, n - 1);
        let all = native_build::records_of(entries, owner, n);
        if rest.contains(record) {
            let k = rest.index_of(record);
            assert(all[k] == record);
        }
        if all.len() > rest.len() {
            assert(all[rest.len() as int] == entries[n - 1].record);
        }
        if all.contains(record) {
            let k = all.index_of(record);
            if k < rest.len() {
                assert(rest[k] == record);
            }
        }
    }
}

proof fn owners_are_listed(entries: Seq<EntryModel>, n: int, owner: (u64, Inode))
    requires
        0 <= n <= entries.len(),
    ensures
        native_build::entry_owners(entries, n).contains(owner) <==> exists|k: int|
            0 <= k < n && (#[trigger] entries[k]).view == owner.0 && entries[k].inode == owner.1,
    decreases n,
{
    if n > 0 {
        owners_are_listed(entries, n - 1, owner);
        let rest = native_build::entry_owners(entries, n - 1);
        let all = native_build::entry_owners(entries, n);
        if rest.contains(owner) {
            let k = rest.index_of(owner);
            assert(all[k] == owner);
        }
        if all.len() > rest.len() {
            assert(all[rest.len() as int] == (entries[n - 1].view, entries[n - 1].inode));
        }
        if all.contains(owner) {
            let k = all.index_of(owner);
            if k < rest.len() {
                assert(rest[k] == owner);
            }
        }
    }
}

/// What is stored for a view and an inode are the records that were found for
/// them, every one and no other; what has none is not stored.
pub proof fn found_conflicts_are_stored(
    entries: Seq<EntryModel>,
    view: u64,
    inode: Inode,
    record: ConflictModel,
)
    ensures
        (exists|k: int|
            0 <= k < entries.len() && (#[trigger] entries[k]).view == view && entries[k].inode
                == inode && entries[k].record == record) <==> exists|m: int|
            0 <= m < native_build::stored_conflicts(entries).len() && (
            #[trigger] native_build::stored_conflicts(entries)[m]).view == view
                && native_build::stored_conflicts(entries)[m].inode == inode
                && native_build::stored_conflicts(entries)[m].records.contains(record),
{
    let n = entries.len() as int;
    let owner = (view, inode);
    let owners = native_build::entry_owners(entries, n);
    let stored = native_build::stored_conflicts(entries);
    let records = native_build::records_of(entries, owner, n);
    let ordered = native_tables::ordered_records(records, records.len() as int);
    owners_are_listed(entries, n, owner);
    records_are_the_owners(entries, owner, n, record);
    ordered_records_hold(records, records.len() as int, record);
    assert(records.take(records.len() as int) =~= records);
    repeats_are_dropped(ordered, ordered.len() as int, record);
    assert(ordered.take(ordered.len() as int) =~= ordered);
    assert forall|m: int| 0 <= m < stored.len() implies #[trigger] stored[m]
        == native_build::stored_for(entries, owners[m]) by {}
    if exists|k: int|
        0 <= k < entries.len() && (#[trigger] entries[k]).view == view && entries[k].inode == inode
            && entries[k].record == record {
        let m = owners.index_of(owner);
        assert(stored[m].records.contains(record));
    }
    if exists|m: int|
        0 <= m < stored.len() && (#[trigger] stored[m]).view == view && stored[m].inode == inode
            && stored[m].records.contains(record) {
        let m = choose|m: int|
            0 <= m < stored.len() && (#[trigger] stored[m]).view == view && stored[m].inode == inode
                && stored[m].records.contains(record);
        assert(owners[m] == owner);
    }
}

} // verus!
