//! What a Git index and its tree objects hold.

use crate::git_index;
use crate::git_index::{
    EntryModel, GitHashAlgorithm, IdModel, ItemModel, LeafModel, RawIndexEntry,
};
use vstd::prelude::*;

verus! {

/// Whether an entry says what was stored of it: its path and object, and by the
/// bits of its flags its stage and what it is marked with.
pub open spec fn is_of_raw(entry: EntryModel, raw: RawIndexEntry, algorithm: GitHashAlgorithm) -> bool {
    &&& raw.path matches Ok(path) && entry.path == path@
    &&& entry.oid == Some(IdModel { algorithm, bytes: raw.id@ })
    &&& entry.stage == ((raw.flags >> 12u16) & 3u16) as u8
    &&& entry.assume_unchanged == (raw.flags & 0x8000u16 != 0)
    &&& entry.skip_worktree == (raw.flags_extended & 0x4000u16 != 0)
    &&& entry.intent_to_add == (raw.flags_extended & 0x2000u16 != 0)
    &&& entry.sparse_directory == (raw.mode & 0o170000u32 == 0o040000u32)
    &&& raw.mode & 0o170000u32 == 0o040000u32 ==> entry.mode == 0o040000
    &&& raw.mode & 0o170000u32 == 0o100000u32 ==> entry.mode == (if raw.mode & 0o111u32 != 0 {
        0o100755u32
    } else {
        0o100644u32
    })
    &&& raw.mode & 0o170000u32 == 0o120000u32 ==> entry.mode == 0o120000
    &&& raw.mode & 0o170000u32 == 0o160000u32 ==> entry.mode == 0o160000
}

proof fn entry_place_splits(list: Seq<EntryModel>, entry: EntryModel, i: int)
    requires
        0 <= i <= list.len(),
        forall|k: int| 0 <= k < i ==> !git_index::entry_before(entry, #[trigger] list[k]),
    ensures
        i <= git_index::entry_place(list, entry, i) <= list.len(),
        forall|k: int|
            0 <= k < git_index::entry_place(list, entry, i) ==> !git_index::entry_before(
                entry,
                #[trigger] list[k],
            ),
        git_index::entry_place(list, entry, i) < list.len() ==> git_index::entry_before(
            entry,
            list[git_index::entry_place(list, entry, i)],
        ),
    decreases list.len() - i,
{
    if i < list.len() && !git_index::entry_before(entry, list[i]) {
        entry_place_splits(list, entry, i + 1);
    }
}

proof fn reading_keeps_each(
    raw: Seq<RawIndexEntry>,
    algorithm: GitHashAlgorithm,
    i: int,
    list: Seq<EntryModel>,
    from: Seq<int>,
    end: Seq<EntryModel>,
) -> (all: Seq<int>)
    requires
        0 <= i <= raw.len(),
        git_index::read_from(raw, algorithm, i, list) == Ok::<Seq<EntryModel>, int>(end),
        list.len() == i,
        from.len() == i,
        from.no_duplicates(),
        forall|k: int|
            0 <= k < i ==> 0 <= #[trigger] from[k] < i && is_of_raw(
                list[k],
                raw[from[k]],
                algorithm,
            ),
        forall|k: int| 0 <= k < i ==> (#[trigger] raw[k]).id@.len() == algorithm.width(),
        forall|a: int, b: int|
            #![trigger list[a], list[b]]
            0 <= a < b < i ==> !git_index::bytes_before(list[b].path, list[a].path),
    ensures
        end.len() == raw.len(),
        all.len() == raw.len(),
        all.no_duplicates(),
        forall|k: int|
            0 <= k < raw.len() ==> 0 <= #[trigger] all[k] < raw.len() && is_of_raw(
                end[k],
                raw[all[k]],
                algorithm,
            ),
        forall|k: int| 0 <= k < raw.len() ==> (#[trigger] raw[k]).id@.len() == algorithm.width(),
        forall|a: int, b: int|
            #![trigger end[a], end[b]]
            0 <= a < b < end.len() ==> !git_index::bytes_before(end[b].path, end[a].path),
    decreases raw.len() - i,
{
    if i == raw.len() {
        from
    } else {
        let entry = git_index::read_entry(raw[i], (raw[i].path->Ok_0)@, algorithm);
        let at = git_index::entry_place(list, entry, 0);
        entry_place_splits(list, entry, 0);
        let next = list.insert(at, entry);
        let more = from.insert(at, i);
        assert(is_of_raw(entry, raw[i], algorithm));
        assert forall|k: int| 0 <= k < i + 1 implies 0 <= #[trigger] more[k] < i + 1 && is_of_raw(
            next[k],
            raw[more[k]],
            algorithm,
        ) by {
            if k < at {
                assert(more[k] == from[k] && next[k] == list[k]);
            } else if k > at {
                assert(more[k] == from[k - 1] && next[k] == list[k - 1]);
            }
        }
        assert forall|a: int, b: int| 0 <= a < b < more.len() implies more[a] != more[b] by {
            if a != at {
                assert(more[a] == from[if a < at { a } else { a - 1 }]);
            }
            if b != at {
                assert(more[b] == from[if b < at { b } else { b - 1 }]);
            }
        }
        assert forall|a: int, b: int|
            #![trigger next[a], next[b]]
            0 <= a < b < i + 1 implies !git_index::bytes_before(next[b].path, next[a].path) by {
            if a < at && b < at {
                assert(next[a] == list[a] && next[b] == list[b]);
            } else if a < at && b > at {
                assert(next[a] == list[a] && next[b] == list[b - 1]);
            } else if a > at {
                assert(next[a] == list[a - 1] && next[b] == list[b - 1]);
            } else if b == at {
                assert(next[a] == list[a]);
                assert(!git_index::entry_before(entry, list[a]));
                git_index::bytes_are_ordered(entry.path, entry.path);
            } else {
                assert(next[b] == list[b - 1]);
                if git_index::bytes_before(list[b - 1].path, entry.path) {
                    git_index::bytes_are_ordered(list[at].path, list[at].path);
                    if entry.path != list[at].path {
                        git_index::bytes_order_carries(
                            list[b - 1].path,
                            entry.path,
                            list[at].path,
                        );
                    }
                    if b - 1 > at {
                        assert(!git_index::bytes_before(list[b - 1].path, list[at].path));
                    }
                }
            }
        }
        reading_keeps_each(raw, algorithm, i + 1, next, more, end)
    }
}

/// Reading an index gives one entry for each that is stored, with what was
/// stored of it, in path order: `from` tells which entry is which. It is read
/// only where all object names have the algorithm's width.
pub proof fn every_stored_entry_is_read(
    raw: Seq<RawIndexEntry>,
    algorithm: GitHashAlgorithm,
    list: Seq<EntryModel>,
) -> (from: Seq<int>)
    requires
        git_index::read_from(raw, algorithm, 0, Seq::empty()) == Ok::<Seq<EntryModel>, int>(list),
    ensures
        list.len() == raw.len(),
        from.len() == raw.len(),
        from.no_duplicates(),
        forall|k: int|
            0 <= k < raw.len() ==> 0 <= #[trigger] from[k] < raw.len() && is_of_raw(
                list[k],
                raw[from[k]],
                algorithm,
            ),
        forall|k: int|
            0 <= k < raw.len() ==> (#[trigger] raw[k]).id@.len() == (match algorithm {
                GitHashAlgorithm::Sha1 => 20int,
                GitHashAlgorithm::Sha256 => 32int,
            }),
        forall|a: int, b: int|
            #![trigger list[a], list[b]]
            0 <= a < b < list.len() ==> !git_index::bytes_before(list[b].path, list[a].path),
{
    reading_keeps_each(raw, algorithm, 0, Seq::empty(), Seq::empty(), list)
}

/// An index is refused at the first stored entry without a usable path or with
/// an object name of another width, and at no other.
pub proof fn refused_entries_are_the_first_bad_ones(
    raw: Seq<RawIndexEntry>,
    algorithm: GitHashAlgorithm,
    i: int,
    list: Seq<EntryModel>,
)
    requires
        0 <= i <= raw.len(),
    ensures
        match git_index::read_from(raw, algorithm, i, list) {
            Err(k) => i <= k < raw.len() && (raw[k].path is Err || raw[k].id@.len()
                != algorithm.width()) && forall|j: int|
                i <= j < k ==> (#[trigger] raw[j]).path is Ok && raw[j].id@.len()
                    == algorithm.width(),
            Ok(_) => forall|j: int|
                i <= j < raw.len() ==> (#[trigger] raw[j]).path is Ok && raw[j].id@.len()
                    == algorithm.width(),
        },
    decreases raw.len() - i,
{
    if i < raw.len() && raw[i].path is Ok && raw[i].id@.len() == algorithm.width() {
        let entry = git_index::read_entry(raw[i], (raw[i].path->Ok_0)@, algorithm);
        refused_entries_are_the_first_bad_ones(
            raw,
            algorithm,
            i + 1,
            list.insert(git_index::entry_place(list, entry, 0), entry),
        );
    }
}

/// A repository without an object format uses the narrow algorithm; a format is
/// known by its name, however it is cased.
pub proof fn object_formats_are_known_by_name(name: Seq<char>)
    ensures
        git_index::named_algorithm(None) == Some(GitHashAlgorithm::Sha1),
        git_index::named_algorithm(Some("sha1"@)) == Some(GitHashAlgorithm::Sha1),
        git_index::named_algorithm(Some("SHA256"@)) == Some(GitHashAlgorithm::Sha256),
        git_index::named_algorithm(Some("sha256"@)) == Some(GitHashAlgorithm::Sha256),
        git_index::named_algorithm(Some(name)) is Some ==> name.len() == 4 || name.len() == 6,
{
    reveal_strlit("sha1");
    reveal_strlit("sha256");
    reveal_strlit("SHA256");
    assert(git_index::lowered_text("sha1"@) =~= "sha1"@);
    assert(git_index::lowered_text("sha256"@) =~= "sha256"@);
    assert(git_index::lowered_text("SHA256"@) =~= "sha256"@);
    assert("sha1"@.len() == 4 && "sha256"@.len() == 6);
    assert(git_index::lowered_text(name).len() == name.len());
}

/// The leaves below a directory are those whose path begins with its name and
/// goes on, seen from there.
pub proof fn directories_hold_what_lies_below(
    leaves: Seq<LeafModel>,
    name: Seq<u8>,
    n: int,
    leaf: LeafModel,
)
    requires
        0 <= n <= leaves.len(),
    ensures
        git_index::below(leaves, name, n).contains(leaf) <==> exists|k: int|
            0 <= k < n && (#[trigger] leaves[k]).path.len() > 1 && leaves[k].path[0] == name
                && leaves[k].path.skip(1) == leaf.path && leaves[k].mode == leaf.mode
                && leaves[k].oid == leaf.oid,
    decreases n,
{
    if n > 0 {
        directories_hold_what_lies_below(leaves, name, n - 1, leaf);
        let rest = git_index::below(leaves, name, n - 1);
        let all = git_index::below(leaves, name, n);
        assert(leaves[n - 1].path.len() > 0 ==> leaves[n - 1].path.drop_first()
            =~= leaves[n - 1].path.skip(1));
        if rest.contains(leaf) {
            let k = rest.index_of(leaf);
            assert(all[k] == leaf);
        }
        if all.len() > rest.len() {
            assert(all[rest.len() as int].path == leaves[n - 1].path.skip(1));
        }
        if all.contains(leaf) {
            let k = all.index_of(leaf);
            if k < rest.len() {
                assert(rest[k] == leaf);
            }
        }
        if exists|k: int|
            0 <= k < n && (#[trigger] leaves[k]).path.len() > 1 && leaves[k].path[0] == name
                && leaves[k].path.skip(1) == leaf.path && leaves[k].mode == leaf.mode
                && leaves[k].oid == leaf.oid {
            let k = choose|k: int|
                0 <= k < n && (#[trigger] leaves[k]).path.len() > 1 && leaves[k].path[0] == name
                    && leaves[k].path.skip(1) == leaf.path && leaves[k].mode == leaf.mode
                    && leaves[k].oid == leaf.oid;
            if k == n - 1 {
                assert(all[rest.len() as int] == leaf);
            }
        }
    }
}

/// Whether an item stands for a leaf in the directory that holds it: for itself,
/// or for the subdirectory in which it lies.
pub open spec fn stands_for(
    wide: bool,
    leaves: Seq<LeafModel>,
    depth: nat,
    item: ItemModel,
    leaf: LeafModel,
) -> bool {
    &&& item.name == leaf.path[0]
    &&& leaf.path.len() == 1 ==> item.mode == leaf.mode && item.oid == leaf.oid
    &&& leaf.path.len() != 1 ==> item.mode == 0o040000 && depth > 0 && Some(item.oid)
        == git_index::directory_id(
        wide,
        git_index::below(leaves, leaf.path[0], leaves.len() as int),
        (depth - 1) as nat,
    )
}

/// Whether some item stands for a leaf.
pub open spec fn has_item(
    wide: bool,
    leaves: Seq<LeafModel>,
    depth: nat,
    items: Seq<ItemModel>,
    leaf: LeafModel,
) -> bool {
    exists|m: int|
        0 <= m < items.len() && stands_for(wide, leaves, depth, #[trigger] items[m], leaf)
}

/// Whether an item stands for one of the first `n` leaves.
pub open spec fn has_leaf(
    wide: bool,
    leaves: Seq<LeafModel>,
    depth: nat,
    n: int,
    item: ItemModel,
) -> bool {
    exists|k: int| 0 <= k < n && stands_for(wide, leaves, depth, item, #[trigger] leaves[k])
}

proof fn items_stay(
    wide: bool,
    leaves: Seq<LeafModel>,
    depth: nat,
    items: Seq<ItemModel>,
    more: Seq<ItemModel>,
    leaf: LeafModel,
)
    requires
        items.is_prefix_of(more),
        has_item(wide, leaves, depth, items, leaf),
    ensures
        has_item(wide, leaves, depth, more, leaf),
{
    let m = choose|m: int|
        0 <= m < items.len() && stands_for(wide, leaves, depth, #[trigger] items[m], leaf);
    assert(more[m] == items[m]);
}

proof fn leaves_stay(
    wide: bool,
    leaves: Seq<LeafModel>,
    depth: nat,
    n: int,
    item: ItemModel,
)
    requires
        has_leaf(wide, leaves, depth, n, item),
    ensures
        has_leaf(wide, leaves, depth, n + 1, item),
{
    let k = choose|k: int|
        0 <= k < n && stands_for(wide, leaves, depth, item, #[trigger] leaves[k]);
    assert(stands_for(wide, leaves, depth, item, leaves[k]));
}

proof fn last_leaf_has_its_item(
    wide: bool,
    leaves: Seq<LeafModel>,
    depth: nat,
    n: int,
    rest: Seq<ItemModel>,
    items: Seq<ItemModel>,
)
    requires
        0 < n <= leaves.len(),
        git_index::directory_items(wide, leaves, depth, n - 1) == Some(rest),
        git_index::directory_items(wide, leaves, depth, n) == Some(items),
        leaves[n - 1].path.len() > 0,
        forall|k: int| 0 <= k < n - 1 ==> has_item(wide, leaves, depth, rest, #[trigger] leaves[k]),
        leaves[n - 1].path.len() > 1 ==> forall|k: int|
            0 <= k < n - 1 && (#[trigger] leaves[k]).path.len() == 1 ==> leaves[k].path[0]
                != leaves[n - 1].path[0],
    ensures
        has_item(wide, leaves, depth, items, leaves[n - 1]),
        rest.is_prefix_of(items),
        items.len() <= rest.len() + 1,
        items.len() > rest.len() ==> stands_for(
            wide,
            leaves,
            depth,
            items[rest.len() as int],
            leaves[n - 1],
        ),
{
    let leaf = leaves[n - 1];
    let name = leaf.path[0];
    if leaf.path.len() != 1 && git_index::mentioned(leaves, name, n - 1) {
        let k = choose|k: int|
            0 <= k < n - 1 && (#[trigger] leaves[k]).path.len() > 0 && leaves[k].path[0] == name;
        assert(has_item(wide, leaves, depth, rest, leaves[k]));
        let m = choose|m: int|
            0 <= m < rest.len() && stands_for(wide, leaves, depth, #[trigger] rest[m], leaves[k]);
        assert(leaves[k].path.len() != 1);
        assert(stands_for(wide, leaves, depth, items[m], leaf));
    } else {
        let last = items[rest.len() as int];
        assert(items == rest.push(last));
        assert(stands_for(wide, leaves, depth, last, leaf));
    }
}

/// A directory has an item for every leaf: its own for one that lies right in
/// it, and one for each subdirectory, which names the tree of what lies below.
/// It has no other items. No leaf may stand where another has a directory.
pub proof fn directories_have_an_item_for_each_leaf(
    wide: bool,
    leaves: Seq<LeafModel>,
    depth: nat,
    n: int,
    items: Seq<ItemModel>,
)
    requires
        0 <= n <= leaves.len(),
        git_index::directory_items(wide, leaves, depth, n) == Some(items),
        forall|k: int| 0 <= k < leaves.len() ==> (#[trigger] leaves[k]).path.len() > 0,
        forall|j: int, k: int|
            #![trigger leaves[j], leaves[k]]
            0 <= j < leaves.len() && 0 <= k < leaves.len() && leaves[j].path.len() == 1
                && leaves[k].path.len() > 1 ==> leaves[j].path[0] != leaves[k].path[0],
    ensures
        forall|k: int| 0 <= k < n ==> has_item(wide, leaves, depth, items, #[trigger] leaves[k]),
        forall|m: int|
            0 <= m < items.len() ==> has_leaf(wide, leaves, depth, n, #[trigger] items[m]),
    decreases n,
{
    if n > 0 {
        let rest = git_index::directory_items(wide, leaves, depth, n - 1)->0;
        directories_have_an_item_for_each_leaf(wide, leaves, depth, n - 1, rest);
        last_leaf_has_its_item(wide, leaves, depth, n, rest, items);
        assert forall|k: int| 0 <= k < n implies has_item(
            wide,
            leaves,
            depth,
            items,
            #[trigger] leaves[k],
        ) by {
            if k < n - 1 {
                items_stay(wide, leaves, depth, rest, items, leaves[k]);
            }
        }
        assert forall|m: int| 0 <= m < items.len() implies has_leaf(
            wide,
            leaves,
            depth,
            n,
            #[trigger] items[m],
        ) by {
            if m < rest.len() {
                assert(items[m] == rest[m]);
                leaves_stay(wide, leaves, depth, n - 1, rest[m]);
            } else {
                assert(stands_for(wide, leaves, depth, items[m], leaves[n - 1]));
            }
        }
    }
}

/// The number that octal digits stand for.
pub open spec fn octal_value(digits: Seq<u8>) -> nat
    decreases digits.len(),
{
    if digits.len() == 0 {
        0
    } else {
        octal_value(digits.drop_last()) * 8 + (digits.last() - 48) as nat
    }
}

/// Octal digits stand for the number that they were written for, and an item's
/// bytes are its mode in such digits, a space, its name, a zero and its object.
pub proof fn items_are_written_in_full(item: ItemModel, n: nat)
    ensures
        octal_value(git_index::octal(n)) == n,
        forall|k: int|
            0 <= k < git_index::octal(n).len() ==> 48 <= #[trigger] git_index::octal(n)[k] <= 55,
        git_index::item_bytes(item) == git_index::octal(item.mode as nat) + seq![32u8] + item.name
            + seq![0u8] + item.oid,
    decreases n,
{
    let digits = git_index::octal(n);
    reveal_with_fuel(octal_value, 2);
    if n < 8 {
        assert(digits.drop_last() =~= Seq::empty());
    } else {
        items_are_written_in_full(item, n / 8);
        assert(digits.drop_last() =~= git_index::octal(n / 8));
    }
}

} // verus!
