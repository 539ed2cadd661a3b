//! What a healthy report of the native tables means.

use crate::native_build;
use crate::native_build::NativeClaims;
use crate::native_index;
use crate::native_index::{NativeIndex, NativeIndexReport};
use crate::native_laws;
use crate::native_laws::{conflicts_key, keyed};
use crate::native_roots;
use crate::native_tables;
use crate::native_tables::{
    claim_text, flags_text, in_record_order, kind_text, line_text, position_text, record_text,
    records_text, ClaimModel, ConflictsModel, IndexesModel, RowsModel,
};
use crate::ordering;
use crate::pristine;
use crate::repository::{ConflictModel, Repository, StoredConflictKind};
use crate::row_text;
use crate::row_text::{bracketed, quoted, same_rest};
use crate::text;
use crate::types::{Inode, Position};
use vstd::prelude::*;

verus! {

proof fn no_digit(c: char)
    requires
        c == ')' || c == ':',
    ensures
        forall|d: int| 0 <= d < 10 ==> #[trigger] text::digit(d) != c,
{
}

proof fn lines_end(a: Option<u32>, b: Option<u32>, u: Seq<char>, v: Seq<char>)
    requires
        line_text(a) + u == line_text(b) + v,
    ensures
        a == b,
        u == v,
{
    reveal_strlit("Some(");
    reveal_strlit("None");
    reveal_strlit(")");
    let left = line_text(a) + u;
    let right = line_text(b) + v;
    assert(left[0] == line_text(a)[0]);
    assert(right[0] == line_text(b)[0]);
    if let (Some(x), Some(y)) = (a, b) {
        let s = ")"@ + u;
        let t = ")"@ + v;
        assert(left =~= "Some("@ + (text::numeral(x as nat) + s));
        assert(right =~= "Some("@ + (text::numeral(y as nat) + t));
        same_rest("Some("@, text::numeral(x as nat) + s, text::numeral(y as nat) + t);
        assert(s[0] == ')' && t[0] == ')');
        no_digit(')');
        row_text::numerals_end(x as nat, y as nat, s, t);
        same_rest(")"@, u, v);
    } else {
        same_rest("None"@, u, v);
    }
}

proof fn kinds_end(a: StoredConflictKind, b: StoredConflictKind, u: Seq<char>, v: Seq<char>)
    requires
        kind_text(a) + u == kind_text(b) + v,
    ensures
        a == b,
        u == v,
{
    reveal_strlit("Name");
    reveal_strlit("Order");
    assert((kind_text(a) + u)[0] == kind_text(a)[0]);
    assert((kind_text(b) + v)[0] == kind_text(b)[0]);
    same_rest(kind_text(a), u, v);
}

/// The sides of a record in text.
spec fn sides_text(sides: Seq<Seq<char>>) -> Seq<char> {
    bracketed(sides.map_values(|side: Seq<char>| quoted(side)))
}

proof fn sides_end(a: Seq<Seq<char>>, b: Seq<Seq<char>>, u: Seq<char>, v: Seq<char>)
    requires
        sides_text(a) + u == sides_text(b) + v,
    ensures
        a == b,
        u == v,
{
    let told = |side: Seq<char>| quoted(side);
    assert forall|p: Seq<char>, q: Seq<char>, s: Seq<char>, t: Seq<char>|
        #![trigger told(p) + s, told(q) + t]
        told(p) + s == told(q) + t implies p == q && s == t by {
        row_text::quotes_end(p, q, s, t);
    }
    row_text::lists_end(told, a, b, u, v);
}

proof fn regrouped(a: Seq<char>, b: Seq<char>, c: Seq<char>)
    ensures
        a + b + c == a + (b + c),
{
    assert(a + b + c =~= a + (b + c));
}

/// What follows the kind of a record in text.
spec fn after_kind(r: ConflictModel, u: Seq<char>) -> Seq<char> {
    ", path: "@ + (quoted(r.path) + (", line: "@ + (line_text(r.line) + (", sides: "@ + (sides_text(
        r.sides,
    ) + (" }"@ + u))))))
}

proof fn record_unfolds(r: ConflictModel, u: Seq<char>)
    ensures
        record_text(r) + u == "StoredConflict { kind: "@ + (kind_text(r.kind) + after_kind(r, u)),
{
    let head = "StoredConflict { kind: "@;
    let k = kind_text(r.kind);
    let p = quoted(r.path);
    let l = line_text(r.line);
    let s = sides_text(r.sides);
    let t1 = head + k;
    let t2 = t1 + ", path: "@;
    let t3 = t2 + p;
    let t4 = t3 + ", line: "@;
    let t5 = t4 + l;
    let t6 = t5 + ", sides: "@;
    let t7 = t6 + s;
    let u1 = " }"@ + u;
    let u2 = s + u1;
    let u3 = ", sides: "@ + u2;
    let u4 = l + u3;
    let u5 = ", line: "@ + u4;
    let u6 = p + u5;
    assert(record_text(r) == t7 + " }"@);
    regrouped(t7, " }"@, u);
    regrouped(t6, s, u1);
    regrouped(t5, ", sides: "@, u2);
    regrouped(t4, l, u3);
    regrouped(t3, ", line: "@, u4);
    regrouped(t2, p, u5);
    regrouped(t1, ", path: "@, u6);
    regrouped(head, k, after_kind(r, u));
}

proof fn records_end(a: ConflictModel, b: ConflictModel, u: Seq<char>, v: Seq<char>)
    requires
        record_text(a) + u == record_text(b) + v,
    ensures
        a == b,
        u == v,
{
    record_unfolds(a, u);
    record_unfolds(b, v);
    let a1 = " }"@ + u;
    let b1 = " }"@ + v;
    let a2 = sides_text(a.sides) + a1;
    let b2 = sides_text(b.sides) + b1;
    let a3 = line_text(a.line) + (", sides: "@ + a2);
    let b3 = line_text(b.line) + (", sides: "@ + b2);
    let a4 = quoted(a.path) + (", line: "@ + a3);
    let b4 = quoted(b.path) + (", line: "@ + b3);
    same_rest(
        "StoredConflict { kind: "@,
        kind_text(a.kind) + after_kind(a, u),
        kind_text(b.kind) + after_kind(b, v),
    );
    kinds_end(a.kind, b.kind, after_kind(a, u), after_kind(b, v));
    same_rest(", path: "@, a4, b4);
    row_text::quotes_end(a.path, b.path, ", line: "@ + a3, ", line: "@ + b3);
    same_rest(", line: "@, a3, b3);
    lines_end(a.line, b.line, ", sides: "@ + a2, ", sides: "@ + b2);
    same_rest(", sides: "@, a2, b2);
    sides_end(a.sides, b.sides, a1, b1);
    same_rest(" }"@, u, v);
}

/// Different lists of records have different texts.
pub proof fn records_are_told_apart(a: Seq<ConflictModel>, b: Seq<ConflictModel>)
    requires
        records_text(a) == records_text(b),
    ensures
        a == b,
{
    let told = |r: ConflictModel| record_text(r);
    reveal_strlit("StoredConflict { kind: ");
    assert forall|p: ConflictModel, q: ConflictModel, s: Seq<char>, t: Seq<char>|
        #![trigger told(p) + s, told(q) + t]
        told(p) + s == told(q) + t implies p == q && s == t by {
        records_end(p, q, s, t);
    }
    assert forall|p: ConflictModel| (#[trigger] told(p)).len() > 0 && told(p)[0] != ']' by {
        assert(told(p)[0] == 'S');
    }
    row_text::lists_end(told, a, b, Seq::empty(), Seq::empty());
}

/// Different claims have different texts.
pub proof fn claims_are_told_apart(a: ClaimModel, b: ClaimModel)
    requires
        claim_text(a) == claim_text(b),
    ensures
        a == b,
{
    reveal_strlit(")");
    let a1 = position_text(a.claimant) + ")"@;
    let b1 = position_text(b.claimant) + ")"@;
    let a2 = ", "@ + a1;
    let b2 = ", "@ + b1;
    let a3 = ", "@ + (quoted(a.event) + a2);
    let b3 = ", "@ + (quoted(b.event) + b2);
    assert(claim_text(a) =~= "("@ + (quoted(a.path) + a3));
    assert(claim_text(b) =~= "("@ + (quoted(b.path) + b3));
    same_rest("("@, quoted(a.path) + a3, quoted(b.path) + b3);
    row_text::quotes_end(a.path, b.path, a3, b3);
    same_rest(", "@, quoted(a.event) + a2, quoted(b.event) + b2);
    row_text::quotes_end(a.event, b.event, a2, b2);
    same_rest(", "@, a1, b1);
    assert(a1.drop_last() =~= position_text(a.claimant));
    assert(b1.drop_last() =~= position_text(b.claimant));
    positions_are_told_apart(a.claimant, b.claimant);
}

proof fn positions_are_told_apart(a: Position, b: Position)
    requires
        position_text(a) == position_text(b),
    ensures
        a == b,
{
    text::numeral_pairs_differ(a.change.0 as nat, a.pos as nat, b.change.0 as nat, b.pos as nat);
}

proof fn flags_are_told_apart(a: u8, b: u8)
    requires
        flags_text(a) == flags_text(b),
    ensures
        a == b,
{
    reveal_strlit("0x");
    assert(flags_text(a)[2] == native_tables::hex_digit(a as int / 16));
    assert(flags_text(a)[3] == native_tables::hex_digit(a as int % 16));
    assert(flags_text(b)[2] == native_tables::hex_digit(b as int / 16));
    assert(flags_text(b)[3] == native_tables::hex_digit(b as int % 16));
    assert(a as int / 16 == b as int / 16);
    assert(a as int % 16 == b as int % 16);
}

/// Whether two tables have the same rows.
pub open spec fn same_rows<R>(a: Seq<R>, b: Seq<R>) -> bool {
    forall|row: R| a.contains(row) <==> #[trigger] b.contains(row)
}

/// Rows that are told apart have no problem exactly when they are the expected
/// ones.
proof fn table_is_healthy<R>(
    index: NativeIndex,
    expected: Seq<R>,
    actual: Seq<R>,
    told: spec_fn(R) -> (Seq<char>, Seq<char>),
)
    requires
        forall|a: R, b: R| #![trigger told(a), told(b)] told(a) == told(b) ==> a == b,
        native_tables::functional(expected.map_values(told)),
        native_tables::functional(actual.map_values(told)),
    ensures
        native_index::table_problems(
            index,
            expected.map_values(told),
            Ok(actual.map_values(told)),
        ).len() == 0 <==> same_rows(actual, expected),
{
    let x = expected.map_values(told);
    let y = actual.map_values(told);
    native_index::healthy_table_is_the_expected_one(index, x, Ok(y));
    if native_index::table_problems(index, x, Ok(y)).len() == 0 {
        assert forall|row: R| actual.contains(row) <==> #[trigger] expected.contains(row) by {
            if expected.contains(row) {
                let k = expected.index_of(row);
                assert(x[k] == told(row));
                let m = pristine::first_value_stands(y, x[k].0);
                assert(y[m] == told(actual[m]));
                assert(told(actual[m]) == told(row));
            }
            if actual.contains(row) {
                let k = actual.index_of(row);
                assert(y[k] == told(row));
                let m = pristine::first_value_stands(x, y[k].0);
                assert(x[m].0 == y[k].0);
                let n = pristine::first_value_stands(y, x[m].0);
                assert(y[n].0 == y[k].0);
                assert(x[m] == told(expected[m]));
                assert(told(expected[m]) == told(row));
            }
        }
    }
    if same_rows(actual, expected) {
        assert forall|k: int| 0 <= k < x.len() implies pristine::first_value(
            y,
            (#[trigger] x[k]).0,
        ) == Some(x[k].1) by {
            assert(expected.contains(expected[k]));
            let m = actual.index_of(expected[k]);
            assert(actual.contains(expected[k]));
            assert(y[m] == x[k]);
            if pristine::first_value(y, y[m].0) is None {
                pristine::no_first_value(y, y[m].0, m);
            }
            let n = pristine::first_value_stands(y, y[m].0);
            assert(y[n].0 == y[m].0);
        }
        assert forall|k: int| 0 <= k < y.len() implies pristine::first_value(
            x,
            (#[trigger] y[k]).0,
        ) is Some by {
            assert(actual.contains(actual[k]));
            assert(expected.contains(actual[k]));
            let m = expected.index_of(actual[k]);
            assert(x[m] == y[k]);
            if pristine::first_value(x, x[m].0) is None {
                pristine::no_first_value(x, x[m].0, m);
            }
        }
    }
}

/// Tables in which every key stands once.
pub open spec fn tables_are_keyed(x: IndexesModel) -> bool {
    &&& keyed(x.tree)
    &&& keyed(x.rev_tree)
    &&& keyed(x.inodes)
    &&& keyed(x.rev_inodes)
    &&& keyed(x.directories)
    &&& ordering::apart(x.conflicts, |c: ConflictsModel| conflicts_key(c))
}

/// Stored tables in which every key stands once, as far as they could be read.
pub open spec fn rows_are_keyed(rows: RowsModel) -> bool {
    &&& rows.tree matches Ok(list) ==> keyed(list)
    &&& rows.rev_tree matches Ok(list) ==> keyed(list)
    &&& rows.inodes matches Ok(list) ==> keyed(list)
    &&& rows.rev_inodes matches Ok(list) ==> keyed(list)
    &&& rows.directories matches Ok(list) ==> keyed(list)
    &&& rows.conflicts matches Ok(list) ==> ordering::apart(
        list,
        |c: ConflictsModel| conflicts_key(c),
    )
}

proof fn tree_is_functional(list: Seq<(Seq<char>, Inode)>)
    requires
        keyed(list),
    ensures
        native_tables::functional(native_tables::tree_rows(list)),
{
    native_laws::rows_are_functional(
        list,
        |p: (Seq<char>, Inode)| p.0,
        native_tables::tree_rows(list),
    );
}

proof fn rev_tree_is_functional(list: Seq<(Inode, Seq<char>)>)
    requires
        keyed(list),
    ensures
        native_tables::functional(native_tables::rev_tree_rows(list)),
{
    let told = native_tables::rev_tree_rows(list);
    assert forall|i: int, j: int|
        #![trigger told[i], told[j]]
        0 <= i < list.len() && 0 <= j < list.len() && told[i].0 == told[j].0 implies list[i].0
        == list[j].0 by {
        text::numerals_differ(list[i].0.0 as nat, list[j].0.0 as nat);
    }
    native_laws::rows_are_functional(list, |p: (Inode, Seq<char>)| p.0, told);
}

proof fn inodes_are_functional(list: Seq<(Inode, Position)>)
    requires
        keyed(list),
    ensures
        native_tables::functional(native_tables::inode_rows(list)),
{
    let told = native_tables::inode_rows(list);
    assert forall|i: int, j: int|
        #![trigger told[i], told[j]]
        0 <= i < list.len() && 0 <= j < list.len() && told[i].0 == told[j].0 implies list[i].0
        == list[j].0 by {
        text::numerals_differ(list[i].0.0 as nat, list[j].0.0 as nat);
    }
    native_laws::rows_are_functional(list, |p: (Inode, Position)| p.0, told);
}

proof fn rev_inodes_are_functional(list: Seq<(Position, Inode)>)
    requires
        keyed(list),
    ensures
        native_tables::functional(native_tables::rev_inode_rows(list)),
{
    let told = native_tables::rev_inode_rows(list);
    assert forall|i: int, j: int|
        #![trigger told[i], told[j]]
        0 <= i < list.len() && 0 <= j < list.len() && told[i].0 == told[j].0 implies list[i].0
        == list[j].0 by {
        positions_are_told_apart(list[i].0, list[j].0);
    }
    native_laws::rows_are_functional(list, |p: (Position, Inode)| p.0, told);
}

proof fn directories_are_functional(list: Seq<(Inode, u8)>)
    requires
        keyed(list),
    ensures
        native_tables::functional(native_tables::directory_rows(list)),
{
    let told = native_tables::directory_rows(list);
    assert forall|i: int, j: int|
        #![trigger told[i], told[j]]
        0 <= i < list.len() && 0 <= j < list.len() && told[i].0 == told[j].0 implies list[i].0
        == list[j].0 by {
        text::numerals_differ(list[i].0.0 as nat, list[j].0.0 as nat);
    }
    native_laws::rows_are_functional(list, |p: (Inode, u8)| p.0, told);
}

proof fn conflicts_are_functional(list: Seq<ConflictsModel>)
    requires
        ordering::apart(list, |c: ConflictsModel| conflicts_key(c)),
    ensures
        native_tables::functional(native_tables::conflict_rows(list)),
{
    let told = native_tables::conflict_rows(list);
    let key = |c: ConflictsModel| conflicts_key(c);
    assert forall|i: int, j: int|
        #![trigger told[i], told[j]]
        0 <= i < list.len() && 0 <= j < list.len() && told[i].0 == told[j].0 implies key(list[i])
        == key(list[j]) by {
        assert(in_record_order(list)[i].view == list[i].view);
        assert(in_record_order(list)[j].view == list[j].view);
        text::numeral_pairs_differ(
            list[i].view as nat,
            list[i].inode.0 as nat,
            list[j].view as nat,
            list[j].inode.0 as nat,
        );
    }
    native_laws::rows_are_functional(list, key, told);
}

/// Stored as they are, tables whose keys stand once are healthy.
pub proof fn stored_tables_are_healthy(x: IndexesModel, current: u32)
    requires
        tables_are_keyed(x),
    ensures
        native_tables::all_problems(x, native_tables::stored_rows(x, current), current).len() == 0,
{
    tree_is_functional(x.tree);
    rev_tree_is_functional(x.rev_tree);
    inodes_are_functional(x.inodes);
    rev_inodes_are_functional(x.rev_inodes);
    directories_are_functional(x.directories);
    conflicts_are_functional(x.conflicts);
    native_tables::replacement_is_healthy(x, current);
}

/// Whether stored tables equal the expected ones: the claim table has the
/// current version, every table could be read and has the expected rows, and
/// the records of each conflict are the expected ones, up to their order.
pub open spec fn tables_are_equal(x: IndexesModel, rows: RowsModel, current: u32) -> bool {
    &&& rows.schema == Ok::<Option<u32>, Seq<char>>(Some(current))
    &&& rows.path_claims matches Ok(list) && same_rows(list, x.path_claims)
    &&& rows.tree matches Ok(list) && same_rows(list, x.tree)
    &&& rows.rev_tree matches Ok(list) && same_rows(list, x.rev_tree)
    &&& rows.inodes matches Ok(list) && same_rows(list, x.inodes)
    &&& rows.rev_inodes matches Ok(list) && same_rows(list, x.rev_inodes)
    &&& rows.directories matches Ok(list) && same_rows(list, x.directories)
    &&& rows.conflicts matches Ok(list) && same_rows(
        in_record_order(list),
        in_record_order(x.conflicts),
    )
}

proof fn claim_table(x: Seq<ClaimModel>, list: Seq<ClaimModel>)
    ensures
        native_index::table_problems(
            NativeIndex::PathClaims,
            native_tables::claim_rows(x),
            Ok(native_tables::claim_rows(list)),
        ).len() == 0 <==> same_rows(list, x),
{
    let told = |c: ClaimModel| (claim_text(c), "present"@);
    assert forall|a: ClaimModel, b: ClaimModel|
        #![trigger told(a), told(b)]
        told(a) == told(b) implies a == b by {
        claims_are_told_apart(a, b);
    }
    table_is_healthy(NativeIndex::PathClaims, x, list, told);
}

proof fn tree_table(x: Seq<(Seq<char>, Inode)>, list: Seq<(Seq<char>, Inode)>)
    requires
        keyed(x),
        keyed(list),
    ensures
        native_index::table_problems(
            NativeIndex::Tree,
            native_tables::tree_rows(x),
            Ok(native_tables::tree_rows(list)),
        ).len() == 0 <==> same_rows(list, x),
{
    let told = |e: (Seq<char>, Inode)| (e.0, text::numeral(e.1.0 as nat));
    assert forall|a: (Seq<char>, Inode), b: (Seq<char>, Inode)|
        #![trigger told(a), told(b)]
        told(a) == told(b) implies a == b by {
        text::numerals_differ(a.1.0 as nat, b.1.0 as nat);
    }
    tree_is_functional(x);
    tree_is_functional(list);
    table_is_healthy(NativeIndex::Tree, x, list, told);
}

proof fn rev_tree_table(x: Seq<(Inode, Seq<char>)>, list: Seq<(Inode, Seq<char>)>)
    requires
        keyed(x),
        keyed(list),
    ensures
        native_index::table_problems(
            NativeIndex::RevTree,
            native_tables::rev_tree_rows(x),
            Ok(native_tables::rev_tree_rows(list)),
        ).len() == 0 <==> same_rows(list, x),
{
    let told = |e: (Inode, Seq<char>)| (text::numeral(e.0.0 as nat), e.1);
    assert forall|a: (Inode, Seq<char>), b: (Inode, Seq<char>)|
        #![trigger told(a), told(b)]
        told(a) == told(b) implies a == b by {
        text::numerals_differ(a.0.0 as nat, b.0.0 as nat);
    }
    rev_tree_is_functional(x);
    rev_tree_is_functional(list);
    table_is_healthy(NativeIndex::RevTree, x, list, told);
}

proof fn inode_table(x: Seq<(Inode, Position)>, list: Seq<(Inode, Position)>)
    requires
        keyed(x),
        keyed(list),
    ensures
        native_index::table_problems(
            NativeIndex::Inodes,
            native_tables::inode_rows(x),
            Ok(native_tables::inode_rows(list)),
        ).len() == 0 <==> same_rows(list, x),
{
    let told = |e: (Inode, Position)| (text::numeral(e.0.0 as nat), position_text(e.1));
    assert forall|a: (Inode, Position), b: (Inode, Position)|
        #![trigger told(a), told(b)]
        told(a) == told(b) implies a == b by {
        text::numerals_differ(a.0.0 as nat, b.0.0 as nat);
        positions_are_told_apart(a.1, b.1);
    }
    inodes_are_functional(x);
    inodes_are_functional(list);
    table_is_healthy(NativeIndex::Inodes, x, list, told);
}

proof fn rev_inode_table(x: Seq<(Position, Inode)>, list: Seq<(Position, Inode)>)
    requires
        keyed(x),
        keyed(list),
    ensures
        native_index::table_problems(
            NativeIndex::RevInodes,
            native_tables::rev_inode_rows(x),
            Ok(native_tables::rev_inode_rows(list)),
        ).len() == 0 <==> same_rows(list, x),
{
    let told = |e: (Position, Inode)| (position_text(e.0), text::numeral(e.1.0 as nat));
    assert forall|a: (Position, Inode), b: (Position, Inode)|
        #![trigger told(a), told(b)]
        told(a) == told(b) implies a == b by {
        text::numerals_differ(a.1.0 as nat, b.1.0 as nat);
        positions_are_told_apart(a.0, b.0);
    }
    rev_inodes_are_functional(x);
    rev_inodes_are_functional(list);
    table_is_healthy(NativeIndex::RevInodes, x, list, told);
}

proof fn directory_table(x: Seq<(Inode, u8)>, list: Seq<(Inode, u8)>)
    requires
        keyed(x),
        keyed(list),
    ensures
        native_index::table_problems(
            NativeIndex::Directories,
            native_tables::directory_rows(x),
            Ok(native_tables::directory_rows(list)),
        ).len() == 0 <==> same_rows(list, x),
{
    let told = |e: (Inode, u8)| (text::numeral(e.0.0 as nat), flags_text(e.1));
    assert forall|a: (Inode, u8), b: (Inode, u8)|
        #![trigger told(a), told(b)]
        told(a) == told(b) implies a == b by {
        text::numerals_differ(a.0.0 as nat, b.0.0 as nat);
        flags_are_told_apart(a.1, b.1);
    }
    directories_are_functional(x);
    directories_are_functional(list);
    table_is_healthy(NativeIndex::Directories, x, list, told);
}

proof fn conflict_table(x: Seq<ConflictsModel>, list: Seq<ConflictsModel>)
    requires
        ordering::apart(x, |c: ConflictsModel| conflicts_key(c)),
        ordering::apart(list, |c: ConflictsModel| conflicts_key(c)),
    ensures
        native_index::table_problems(
            NativeIndex::Conflicts,
            native_tables::conflict_rows(x),
            Ok(native_tables::conflict_rows(list)),
        ).len() == 0 <==> same_rows(in_record_order(list), in_record_order(x)),
{
    let told = |c: ConflictsModel|
        (native_tables::owner_text(c.view, c.inode), records_text(c.records));
    assert forall|a: ConflictsModel, b: ConflictsModel|
        #![trigger told(a), told(b)]
        told(a) == told(b) implies a == b by {
        text::numeral_pairs_differ(
            a.view as nat,
            a.inode.0 as nat,
            b.view as nat,
            b.inode.0 as nat,
        );
        records_are_told_apart(a.records, b.records);
    }
    conflicts_are_functional(x);
    conflicts_are_functional(list);
    table_is_healthy(NativeIndex::Conflicts, in_record_order(x), in_record_order(list), told);
}

/// A report has no problem exactly when the claim table has the current
/// version and all seven tables equal the expected ones.
pub proof fn healthy_means_equal(x: IndexesModel, rows: RowsModel, current: u32)
    requires
        tables_are_keyed(x),
        rows_are_keyed(rows),
    ensures
        native_tables::all_problems(x, rows, current).len() == 0 <==> tables_are_equal(
            x,
            rows,
            current,
        ),
{
    if let Ok(list) = rows.path_claims {
        claim_table(x.path_claims, list);
    }
    if let Ok(list) = rows.tree {
        tree_table(x.tree, list);
    }
    if let Ok(list) = rows.rev_tree {
        rev_tree_table(x.rev_tree, list);
    }
    if let Ok(list) = rows.inodes {
        inode_table(x.inodes, list);
    }
    if let Ok(list) = rows.rev_inodes {
        rev_inode_table(x.rev_inodes, list);
    }
    if let Ok(list) = rows.directories {
        directory_table(x.directories, list);
    }
    if let Ok(list) = rows.conflicts {
        conflict_table(x.conflicts, list);
    }
}

/// A projection is reported healthy exactly when all seven stored tables equal
/// it; stored as it is, it is healthy.
pub proof fn healthy_means_projected(
    repo: Repository,
    bindings: Seq<(Position, Inode)>,
    facts: NativeClaims,
    rows: RowsModel,
    current: u32,
)
    requires
        native_roots::in_position_order(bindings),
        rows_are_keyed(rows),
    ensures
        native_build::expected_indexes(repo, bindings, facts) matches Ok(x) ==> {
            &&& native_tables::all_problems(x, rows, current).len() == 0 <==> tables_are_equal(
                x,
                rows,
                current,
            )
            &&& native_tables::all_problems(
                x,
                native_tables::stored_rows(x, current),
                current,
            ).len() == 0
            &&& forall|report: NativeIndexReport| #[trigger]
                native_build::report_told(
                    report,
                    native_build::expected_indexes(repo, bindings, facts),
                    rows,
                    current,
                ) ==> (report.problems@.len() == 0 <==> tables_are_equal(x, rows, current))
        },
{
    if let Ok(x) = native_build::expected_indexes(repo, bindings, facts) {
        native_laws::projected_tables_are_in_order(repo, bindings, facts);
        healthy_means_equal(x, rows, current);
        stored_tables_are_healthy(x, current);
    }
}

} // verus!
