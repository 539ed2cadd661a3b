//! What the bytes that stand for a directory tell.

use crate::disk;
use crate::effects::{FileKind, FileState, ValueModel};
use crate::git_index;
use crate::types::ContentHash;
use vstd::prelude::*;

verus! {

/// The number that bytes spell, the least significant first.
pub open spec fn spelled(bytes: Seq<u8>) -> nat
    decreases bytes.len(),
{
    if bytes.len() == 0 {
        0
    } else {
        (bytes[0] as nat + 256 * spelled(bytes.drop_first())) as nat
    }
}

/// What a number of bytes can count to.
pub open spec fn reach(width: nat) -> nat
    decreases width,
{
    if width == 0 {
        1
    } else {
        256 * reach((width - 1) as nat)
    }
}

/// A number is written in as many bytes as it is given, the least significant
/// first or last, and can be read again where they suffice.
pub proof fn numbers_are_read_again(n: nat, width: nat)
    requires
        n < reach(width),
    ensures
        disk::little_endian(n, width).len() == width,
        spelled(disk::little_endian(n, width)) == n,
        disk::big_endian(n, width).len() == width,
        disk::big_endian(n, width) == disk::little_endian(n, width).reverse(),
    decreases width,
{
    if width > 0 {
        let less = (width - 1) as nat;
        assert(n / 256 < reach(less)) by (nonlinear_arith)
            requires
                n < 256 * reach(less),
        ;
        numbers_are_read_again(n / 256, less);
        let rest = disk::little_endian(n / 256, less);
        let all = disk::little_endian(n, width);
        assert(all.drop_first() =~= rest);
        assert(all[0] == (n % 256) as u8);
        assert(disk::big_endian(n, width) =~= all.reverse());
    }
}

proof fn widths()
    ensures
        reach(4) == 0x1_0000_0000,
        reach(8) == 0x1_0000_0000_0000_0000,
        reach(16) == 0x1_0000_0000_0000_0000 * 0x1_0000_0000_0000_0000,
{
    reveal_with_fuel(reach, 17);
}

/// The bytes of a content hash tell it.
pub proof fn hashes_are_told(a: ContentHash, b: ContentHash)
    ensures
        disk::hash_bytes(a).len() == 32,
        disk::hash_bytes(a) == disk::hash_bytes(b) ==> a == b,
{
    widths();
    numbers_are_read_again(a.hi as nat, 16);
    numbers_are_read_again(a.lo as nat, 16);
    numbers_are_read_again(b.hi as nat, 16);
    numbers_are_read_again(b.lo as nat, 16);
    if disk::hash_bytes(a) == disk::hash_bytes(b) {
        let x = disk::hash_bytes(a);
        let y = disk::hash_bytes(b);
        assert(x.take(16) =~= disk::big_endian(a.hi as nat, 16));
        assert(y.take(16) =~= disk::big_endian(b.hi as nat, 16));
        assert(x.skip(16) =~= disk::big_endian(a.lo as nat, 16));
        assert(y.skip(16) =~= disk::big_endian(b.lo as nat, 16));
        turned_back(disk::little_endian(a.hi as nat, 16), disk::little_endian(b.hi as nat, 16));
        turned_back(disk::little_endian(a.lo as nat, 16), disk::little_endian(b.lo as nat, 16));
    }
}

proof fn turned_back(a: Seq<u8>, b: Seq<u8>)
    requires
        a.reverse() == b.reverse(),
    ensures
        a == b,
{
    assert(a.reverse().len() == a.len() && b.reverse().len() == b.len());
    assert forall|k: int| 0 <= k < a.len() implies a[k] == b[k] by {
        let m = a.len() - 1 - k;
        assert(a.reverse()[m] == a[a.len() - 1 - m]);
        assert(b.reverse()[m] == b[b.len() - 1 - m]);
        assert(a.len() - 1 - m == k);
    }
    assert(a =~= b);
}

/// What the entries from the `i`-th on are written as.
spec fn written_from(entries: Seq<(Seq<u8>, ValueModel)>, i: int) -> Seq<u8>
    decreases entries.len() - i,
{
    if i < 0 || i >= entries.len() {
        Seq::empty()
    } else {
        disk::directory_entry_bytes(entries[i].0, entries[i].1->File_0) + written_from(
            entries,
            i + 1,
        )
    }
}

proof fn written_in_order(entries: Seq<(Seq<u8>, ValueModel)>, n: int)
    requires
        0 <= n <= entries.len(),
    ensures
        disk::entries_bytes(entries, n) is Some <==> forall|k: int|
            0 <= k < n ==> (#[trigger] entries[k]).1 is File,
        disk::entries_bytes(entries, n) is Some ==> disk::entries_bytes(entries, n)->0
            + written_from(entries, n) == disk::directory_prefix() + written_from(entries, 0),
    decreases n,
{
    if n > 0 {
        written_in_order(entries, n - 1);
        assert(entries[n - 1] == entries[n - 1]);
        if disk::entries_bytes(entries, n) is Some {
            let rest = disk::entries_bytes(entries, n - 1)->0;
            let one = disk::directory_entry_bytes(entries[n - 1].0, entries[n - 1].1->File_0);
            assert(rest + (one + written_from(entries, n)) =~= (rest + one) + written_from(
                entries,
                n,
            ));
        }
    }
}

/// An entry tells its name, kind, mode and content, whatever follows it.
pub proof fn entries_are_told(
    name: Seq<u8>,
    state: FileState,
    rest: Seq<u8>,
    other: Seq<u8>,
    found: FileState,
    left: Seq<u8>,
)
    requires
        name.len() <= u64::MAX,
        other.len() <= u64::MAX,
        disk::directory_entry_bytes(name, state) + rest == disk::directory_entry_bytes(other, found)
            + left,
    ensures
        name == other,
        state == found,
        rest == left,
{
    widths();
    let a = disk::directory_entry_bytes(name, state);
    let b = disk::directory_entry_bytes(other, found);
    let x = a + rest;
    let y = b + left;
    numbers_are_read_again(name.len(), 8);
    numbers_are_read_again(other.len(), 8);
    numbers_are_read_again(state.mode as nat, 4);
    numbers_are_read_again(found.mode as nat, 4);
    hashes_are_told(state.content, found.content);
    hashes_are_told(found.content, state.content);
    assert(x.take(8) =~= disk::little_endian(name.len(), 8));
    assert(y.take(8) =~= disk::little_endian(other.len(), 8));
    let n = name.len() as int;
    assert(n == other.len());
    assert(x.subrange(8, 8 + n) =~= name);
    assert(y.subrange(8, 8 + n) =~= other);
    assert(x[8 + n] == disk::kind_code(state.kind));
    assert(y[8 + n] == disk::kind_code(found.kind));
    assert(x.subrange(9 + n, 13 + n) =~= disk::little_endian(state.mode as nat, 4));
    assert(y.subrange(9 + n, 13 + n) =~= disk::little_endian(found.mode as nat, 4));
    assert(x.subrange(13 + n, 45 + n) =~= disk::hash_bytes(state.content));
    assert(y.subrange(13 + n, 45 + n) =~= disk::hash_bytes(found.content));
    assert(x.skip(45 + n) =~= rest);
    assert(y.skip(45 + n) =~= left);
}

proof fn writing_tells(a: Seq<(Seq<u8>, ValueModel)>, b: Seq<(Seq<u8>, ValueModel)>, i: int)
    requires
        0 <= i <= a.len(),
        i <= b.len(),
        are_writable(a),
        are_writable(b),
        written_from(a, i) == written_from(b, i),
    ensures
        a.skip(i) == b.skip(i),
    decreases a.len() - i,
{
    if i < a.len() && i < b.len() {
        entries_are_told(
            a[i].0,
            a[i].1->File_0,
            written_from(a, i + 1),
            b[i].0,
            b[i].1->File_0,
            written_from(b, i + 1),
        );
        writing_tells(a, b, i + 1);
        assert(a[i] == b[i]);
        assert(a.skip(i) =~= seq![a[i]] + a.skip(i + 1));
        assert(b.skip(i) =~= seq![b[i]] + b.skip(i + 1));
    } else {
        widths();
        if i < a.len() {
            numbers_are_read_again(a[i].0.len(), 8);
            assert(written_from(a, i).len() > 0);
        }
        if i < b.len() {
            numbers_are_read_again(b[i].0.len(), 8);
            assert(written_from(b, i).len() > 0);
        }
        assert(a.skip(i) =~= b.skip(i));
    }
}

/// Whether all entries are there, with names whose lengths can be written.
pub open spec fn are_writable(entries: Seq<(Seq<u8>, ValueModel)>) -> bool {
    forall|k: int|
        0 <= k < entries.len() ==> (#[trigger] entries[k]).1 is File && entries[k].0.len()
            <= u64::MAX
}

proof fn sorting_keeps(
    entries: Seq<(Seq<u8>, ValueModel)>,
    n: int,
    list: Seq<(Seq<u8>, ValueModel)>,
)
    requires
        0 <= n <= entries.len(),
        are_in_order(list),
    ensures
        disk::by_name(entries, n, list).to_multiset() == list.to_multiset().add(
            entries.take(n).to_multiset(),
        ),
        are_in_order(disk::by_name(entries, n, list)),
    decreases n,
{
    broadcast use vstd::seq_lib::group_to_multiset_ensures;

    if n == 0 {
        assert(entries.take(0) =~= Seq::empty());
        assert(list.to_multiset().add(entries.take(0).to_multiset()) =~= list.to_multiset());
    } else {
        let entry = entries[n - 1];
        let at = disk::name_place(list, entry.0, 0);
        place_parts(list, entry.0, 0);
        let next = list.insert(at, entry);
        keeps_order(list, at, entry);
        assert(next =~= (list.take(at).push(entry)) + list.skip(at));
        assert(list =~= list.take(at) + list.skip(at));
        sorting_keeps(entries, n - 1, next);
        assert(entries.take(n) =~= entries.take(n - 1).push(entry));
        vstd::seq_lib::lemma_multiset_commutative(list.take(at).push(entry), list.skip(at));
        vstd::seq_lib::lemma_multiset_commutative(list.take(at), list.skip(at));
        assert(disk::by_name(entries, n, list).to_multiset() =~= list.to_multiset().add(
            entries.take(n).to_multiset(),
        ));
    }
}

proof fn place_parts(list: Seq<(Seq<u8>, ValueModel)>, name: Seq<u8>, i: int)
    requires
        0 <= i <= list.len(),
    ensures
        ({
            let at = disk::name_place(list, name, i);
            &&& i <= at <= list.len()
            &&& forall|k: int|
                i <= k < at ==> !git_index::bytes_before(name, (#[trigger] list[k]).0)
            &&& at < list.len() ==> git_index::bytes_before(name, list[at].0)
        }),
    decreases list.len() - i,
{
    if i < list.len() && !git_index::bytes_before(name, list[i].0) {
        place_parts(list, name, i + 1);
    }
}

/// Whether no entry stands behind one whose name comes after its own.
pub open spec fn are_in_order(list: Seq<(Seq<u8>, ValueModel)>) -> bool {
    forall|j: int, k: int|
        #![trigger list[j], list[k]]
        0 <= j < k < list.len() ==> !git_index::bytes_before(list[k].0, list[j].0)
}

proof fn keeps_order(list: Seq<(Seq<u8>, ValueModel)>, at: int, entry: (Seq<u8>, ValueModel))
    requires
        are_in_order(list),
        0 <= at <= list.len(),
        forall|k: int| 0 <= k < at ==> !git_index::bytes_before(entry.0, (#[trigger] list[k]).0),
        at < list.len() ==> git_index::bytes_before(entry.0, list[at].0),
    ensures
        are_in_order(list.insert(at, entry)),
{
    let next = list.insert(at, entry);
    assert forall|j: int, k: int|
        #![trigger next[j], next[k]]
        0 <= j < k < next.len() implies !git_index::bytes_before(next[k].0, next[j].0) by {
        if j == at {
            assert(next[k] == list[k - 1]);
            if git_index::bytes_before(list[k - 1].0, entry.0) {
                git_index::bytes_order_carries(list[k - 1].0, entry.0, list[at].0);
                git_index::bytes_are_ordered(list[k - 1].0, list[at].0);
                if k - 1 == at {
                    git_index::bytes_are_ordered(entry.0, list[at].0);
                } else {
                    assert(!git_index::bytes_before(list[k - 1].0, list[at].0));
                }
            }
        } else if k == at {
            assert(next[j] == list[j]);
        } else {
            let jj = if j < at { j } else { j - 1 };
            let kk = if k < at { k } else { k - 1 };
            assert(next[j] == list[jj] && next[k] == list[kk]);
        }
    }
}

/// Whether no two entries have the same name.
pub open spec fn have_own_names(entries: Seq<(Seq<u8>, ValueModel)>) -> bool {
    forall|j: int, k: int|
        #![trigger entries[j], entries[k]]
        0 <= j < k < entries.len() ==> entries[j].0 != entries[k].0
}

proof fn same_members<T>(a: Seq<T>, b: Seq<T>, member: T)
    requires
        a.to_multiset() == b.to_multiset(),
        a.contains(member),
    ensures
        b.contains(member),
{
    broadcast use vstd::seq_lib::group_to_multiset_ensures;

    assert(a.to_multiset().count(member) > 0);
    assert(b.to_multiset().count(member) > 0);
}

proof fn names_stay_own(a: Seq<(Seq<u8>, ValueModel)>, x: Seq<(Seq<u8>, ValueModel)>)
    requires
        have_own_names(a),
        a.to_multiset() == x.to_multiset(),
    ensures
        have_own_names(x),
{
    broadcast use vstd::seq_lib::group_to_multiset_ensures;

    assert(a.no_duplicates());
    a.lemma_multiset_has_no_duplicates();
    x.lemma_multiset_has_no_duplicates_conv();
    assert forall|j: int, k: int|
        #![trigger x[j], x[k]]
        0 <= j < k < x.len() implies x[j].0 != x[k].0 by {
        assert(x.contains(x[j]) && x.contains(x[k]));
        same_members(x, a, x[j]);
        same_members(x, a, x[k]);
        let m = a.index_of(x[j]);
        let n = a.index_of(x[k]);
        assert(a[m] == x[j] && a[n] == x[k]);
        assert(m != n);
    }
}

proof fn order_is_one(x: Seq<(Seq<u8>, ValueModel)>, y: Seq<(Seq<u8>, ValueModel)>)
    requires
        are_in_order(x),
        are_in_order(y),
        have_own_names(x),
        have_own_names(y),
        x.to_multiset() == y.to_multiset(),
    ensures
        x == y,
    decreases x.len(),
{
    broadcast use vstd::seq_lib::group_to_multiset_ensures;

    assert(x.len() == x.to_multiset().len() && y.len() == y.to_multiset().len());
    if x.len() == 0 {
        assert(x =~= y);
    } else {
        assert(x.contains(x[0]) && y.contains(y[0]));
        same_members(x, y, x[0]);
        same_members(y, x, y[0]);
        let j = y.index_of(x[0]);
        let k = x.index_of(y[0]);
        assert(y[j] == x[0] && x[k] == y[0]);
        git_index::bytes_are_ordered(x[0].0, y[0].0);
        assert(x[0] == y[0]);
        assert(x =~= seq![x[0]] + x.drop_first());
        assert(y =~= seq![y[0]] + y.drop_first());
        assert(x.remove(0) =~= x.drop_first());
        assert(y.remove(0) =~= y.drop_first());
        assert(x.drop_first().to_multiset() =~= y.drop_first().to_multiset());
        order_is_one(x.drop_first(), y.drop_first());
    }
}

/// A directory whose entries are all there has bytes, and they tell it: two
/// directories have the same bytes exactly when they have the same entries, in
/// whatever order these were found.
pub proof fn directories_are_told_by_their_bytes(
    a: Seq<(Seq<u8>, ValueModel)>,
    b: Seq<(Seq<u8>, ValueModel)>,
)
    requires
        have_own_names(a),
        have_own_names(b),
        are_writable(a),
        are_writable(b),
    ensures
        disk::directory_bytes(a) is Some,
        disk::directory_bytes(a) == disk::directory_bytes(b) <==> a.to_multiset()
            == b.to_multiset(),
{
    broadcast use vstd::seq_lib::group_to_multiset_ensures;

    let x = disk::ordered_entries(a);
    let y = disk::ordered_entries(b);
    let none = Seq::<(Seq<u8>, ValueModel)>::empty();
    sorting_keeps(a, a.len() as int, none);
    sorting_keeps(b, b.len() as int, none);
    assert(a.take(a.len() as int) =~= a);
    assert(b.take(b.len() as int) =~= b);
    assert(x.to_multiset() =~= a.to_multiset());
    assert(y.to_multiset() =~= b.to_multiset());
    same_are_writable(a, x);
    same_are_writable(b, y);
    written_in_order(x, x.len() as int);
    written_in_order(y, y.len() as int);
    names_stay_own(a, x);
    names_stay_own(b, y);
    let s = disk::directory_bytes(a)->0;
    let t = disk::directory_bytes(b)->0;
    let prefix = disk::directory_prefix();
    assert(s + written_from(x, x.len() as int) =~= s);
    assert(t + written_from(y, y.len() as int) =~= t);
    if s == t {
        assert(s.skip(prefix.len() as int) =~= written_from(x, 0));
        assert(t.skip(prefix.len() as int) =~= written_from(y, 0));
        writing_tells(x, y, 0);
        assert(x.skip(0) =~= x);
        assert(y.skip(0) =~= y);
    }
    if a.to_multiset() == b.to_multiset() {
        order_is_one(x, y);
    }
}

proof fn same_are_writable(a: Seq<(Seq<u8>, ValueModel)>, x: Seq<(Seq<u8>, ValueModel)>)
    requires
        are_writable(a),
        a.to_multiset() == x.to_multiset(),
    ensures
        are_writable(x),
{
    broadcast use vstd::seq_lib::group_to_multiset_ensures;

    assert forall|k: int| 0 <= k < x.len() implies (#[trigger] x[k]).1 is File && x[k].0.len()
        <= u64::MAX by {
        assert(x.contains(x[k]));
        same_members(x, a, x[k]);
        let m = a.index_of(x[k]);
        assert(a[m] == x[k]);
    }
}

/// A directory one of whose entries is gone has no bytes.
pub proof fn gone_entries_leave_no_bytes(entries: Seq<(Seq<u8>, ValueModel)>, i: int)
    requires
        0 <= i < entries.len(),
        !(entries[i].1 is File),
    ensures
        disk::directory_bytes(entries) is None,
{
    broadcast use vstd::seq_lib::group_to_multiset_ensures;

    let x = disk::ordered_entries(entries);
    sorting_keeps(entries, entries.len() as int, Seq::empty());
    assert(entries.take(entries.len() as int) =~= entries);
    assert(x.to_multiset() =~= entries.to_multiset());
    assert(entries.contains(entries[i]));
    same_members(entries, x, entries[i]);
    let k = x.index_of(entries[i]);
    assert(x[k] == entries[i]);
    written_in_order(x, x.len() as int);
}

/// An entry is laid out by place: eight bytes for the length of its name, the
/// name, a byte for its kind, four for its mode, and its content hash, the most
/// significant byte first. Directories with contents begin with a text of their
/// own, which differs from that of directories whose contents do not count.
pub proof fn entries_are_laid_out(name: Seq<u8>, state: FileState, word: Seq<char>)
    requires
        name.len() <= u64::MAX,
        word == "atomic:operation-directory:v1"@,
    ensures
        ({
            let bytes = disk::directory_entry_bytes(name, state);
            let n = name.len() as int;
            &&& bytes.len() == n + 45
            &&& spelled(bytes.take(8)) == n
            &&& bytes.subrange(8, 8 + n) == name
            &&& bytes[8 + n] == match state.kind {
                FileKind::Regular => 1u8,
                FileKind::Directory => 2u8,
                FileKind::Symlink => 3u8,
                FileKind::Gitlink => 4u8,
            }
            &&& spelled(bytes.subrange(9 + n, 13 + n)) == state.mode
            &&& spelled(bytes.subrange(13 + n, 29 + n).reverse()) == state.content.hi
            &&& spelled(bytes.subrange(29 + n, 45 + n).reverse()) == state.content.lo
        }),
        disk::directory_prefix().len() == word.len() + 1,
        disk::directory_prefix().last() == 0,
        forall|k: int|
            0 <= k < word.len() ==> #[trigger] disk::directory_prefix()[k] as int == word[k] as int,
        !disk::directory_prefix().is_prefix_of(disk::plain_directory_bytes()),
{
    widths();
    reveal_strlit("atomic:operation-directory:v1");
    let bytes = disk::directory_entry_bytes(name, state);
    let n = name.len() as int;
    numbers_are_read_again(name.len(), 8);
    numbers_are_read_again(state.mode as nat, 4);
    numbers_are_read_again(state.content.hi as nat, 16);
    numbers_are_read_again(state.content.lo as nat, 16);
    let high = disk::little_endian(state.content.hi as nat, 16);
    let low = disk::little_endian(state.content.lo as nat, 16);
    assert(bytes.take(8) =~= disk::little_endian(name.len(), 8));
    assert(bytes.subrange(8, 8 + n) =~= name);
    assert(bytes.subrange(9 + n, 13 + n) =~= disk::little_endian(state.mode as nat, 4));
    assert(bytes.subrange(13 + n, 29 + n) =~= high.reverse());
    assert(bytes.subrange(29 + n, 45 + n) =~= low.reverse());
    assert(high.reverse().reverse() =~= high);
    assert(low.reverse().reverse() =~= low);
    assert(disk::directory_prefix()[7] != disk::plain_directory_bytes()[7]);
}

} // verus!
