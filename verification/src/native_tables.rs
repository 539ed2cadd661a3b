//! The native derived tables, how their rows are rendered, and their
//! comparison.

use crate::native_index;
use crate::native_index::{
    NativeIndex, NativeIndexProblem, NativeIndexProblemKind, NativeIndexReport, ProblemModel,
};
use crate::repository;
use crate::repository::{ConflictModel, StoredConflict, StoredConflictKind};
use crate::row_text;
use crate::text;
use crate::types::{Inode, Position};
use vstd::prelude::*;

verus! {

/// One event of a claim to a path. Everything but path and claimant stands in
/// one text.
#[derive(Debug)]
pub struct PathClaim {
    pub path: String,
    pub event: String,
    pub claimant: Position,
}

/// What a [`PathClaim`] says.
pub ghost struct ClaimModel {
    pub path: Seq<char>,
    pub event: Seq<char>,
    pub claimant: Position,
}

impl View for PathClaim {
    type V = ClaimModel;

    open spec fn view(&self) -> ClaimModel {
        ClaimModel { path: self.path@, event: self.event@, claimant: self.claimant }
    }
}

/// What claims say.
pub open spec fn claim_models(claims: Seq<PathClaim>) -> Seq<ClaimModel> {
    claims.map_values(|c: PathClaim| c@)
}

/// The stored conflicts of one inode on one view.
#[derive(Debug)]
pub struct NativeConflicts {
    pub view: u64,
    pub inode: Inode,
    pub records: Vec<StoredConflict>,
}

/// What a [`NativeConflicts`] says.
pub ghost struct ConflictsModel {
    pub view: u64,
    pub inode: Inode,
    pub records: Seq<ConflictModel>,
}

/// What stored conflicts say.
pub open spec fn record_models(records: Seq<StoredConflict>) -> Seq<ConflictModel> {
    records.map_values(|r: StoredConflict| r@)
}

impl View for NativeConflicts {
    type V = ConflictsModel;

    open spec fn view(&self) -> ConflictsModel {
        ConflictsModel {
            view: self.view,
            inode: self.inode,
            records: record_models(self.records@),
        }
    }
}

/// What rows of stored conflicts say.
pub open spec fn conflicts_models(rows: Seq<NativeConflicts>) -> Seq<ConflictsModel> {
    rows.map_values(|r: NativeConflicts| r@)
}

/// A graph position in text.
pub open spec fn position_text(position: Position) -> Seq<char> {
    text::numeral(position.change.0 as nat) + ":"@ + text::numeral(position.pos as nat)
}

/// Writes a graph position.
pub fn render_position(position: Position) -> (s: String)
    ensures
        s@ == position_text(position),
{
    let mut s: String = text::decimal(position.change.0);
    s.append(":");
    s.append(text::decimal(position.pos).as_str());
    s
}

/// A hexadecimal digit.
pub open spec fn hex_digit(d: int) -> char {
    if d < 10 {
        text::digit(d)
    } else if d == 10 {
        'a'
    } else if d == 11 {
        'b'
    } else if d == 12 {
        'c'
    } else if d == 13 {
        'd'
    } else if d == 14 {
        'e'
    } else {
        'f'
    }
}

/// Flags as `0x` and two hexadecimal digits.
pub open spec fn flags_text(flags: u8) -> Seq<char> {
    "0x"@.push(hex_digit(flags as int / 16)).push(hex_digit(flags as int % 16))
}

fn hex_text(d: u8) -> (s: String)
    requires
        d < 16,
    ensures
        s@ == seq![hex_digit(d as int)],
{
    if d < 10 {
        return text::decimal(d as u64);
    }
    proof {
        reveal_strlit("a");
        reveal_strlit("b");
        reveal_strlit("c");
        reveal_strlit("d");
        reveal_strlit("e");
        reveal_strlit("f");
    }
    let s: &str = if d == 10 {
        "a"
    } else if d == 11 {
        "b"
    } else if d == 12 {
        "c"
    } else if d == 13 {
        "d"
    } else if d == 14 {
        "e"
    } else {
        "f"
    };
    assert(s@ =~= seq![hex_digit(d as int)]);
    s.to_owned()
}

/// Writes flags.
pub fn render_flags(flags: u8) -> (s: String)
    ensures
        s@ == flags_text(flags),
{
    let mut s: String = "0x".to_owned();
    s.append(hex_text(flags / 16).as_str());
    s.append(hex_text(flags % 16).as_str());
    assert(s@ =~= flags_text(flags));
    s
}

/// Order of lists of texts, the first difference deciding.
pub open spec fn texts_before(a: Seq<Seq<char>>, b: Seq<Seq<char>>) -> bool
    decreases a.len(),
{
    if b.len() == 0 {
        false
    } else if a.len() == 0 {
        true
    } else if a[0] == b[0] {
        texts_before(a.drop_first(), b.drop_first())
    } else {
        text::before(a[0], b[0])
    }
}

fn is_texts_before(a: &Vec<String>, b: &Vec<String>) -> (answer: bool)
    ensures
        answer == texts_before(text::texts(a@), text::texts(b@)),
{
    let ghost x = text::texts(a@);
    let ghost y = text::texts(b@);
    let mut i: usize = 0;
    proof {
        assert(x.skip(0) =~= x);
        assert(y.skip(0) =~= y);
    }
    while i < a.len() && i < b.len()
        invariant
            i <= a.len(),
            i <= b.len(),
            x == text::texts(a@),
            y == text::texts(b@),
            texts_before(x, y) == texts_before(x.skip(i as int), y.skip(i as int)),
        decreases a.len() - i,
    {
        assert(x.skip(i as int)[0] == a@[i as int]@);
        assert(y.skip(i as int)[0] == b@[i as int]@);
        assert(x.skip(i as int).drop_first() =~= x.skip(i + 1));
        assert(y.skip(i as int).drop_first() =~= y.skip(i + 1));
        if !text::same(a[i].as_str(), b[i].as_str()) {
            return text::is_before(a[i].as_str(), b[i].as_str());
        }
        i = i + 1;
    }
    i < b.len()
}

/// Order of stored conflicts: path, kind, line, sides.
pub open spec fn record_before(a: ConflictModel, b: ConflictModel) -> bool {
    if a.path != b.path {
        text::before(a.path, b.path)
    } else if a.kind != b.kind {
        a.kind is Name
    } else if a.line != b.line {
        match (a.line, b.line) {
            (None, _) => true,
            (Some(x), Some(y)) => x < y,
            _ => false,
        }
    } else {
        texts_before(a.sides, b.sides)
    }
}

fn is_record_before(a: &StoredConflict, b: &StoredConflict) -> (answer: bool)
    ensures
        answer == record_before(a@, b@),
{
    if !text::same(a.path.as_str(), b.path.as_str()) {
        return text::is_before(a.path.as_str(), b.path.as_str());
    }
    if a.kind != b.kind {
        return a.kind == StoredConflictKind::Name;
    }
    match (a.line, b.line) {
        (None, Some(_)) => true,
        (Some(_), None) => false,
        (Some(x), Some(y)) => if x != y {
            x < y
        } else {
            is_texts_before(&a.sides, &b.sides)
        },
        (None, None) => is_texts_before(&a.sides, &b.sides),
    }
}

/// Where a record goes among ordered ones, from the `i`-th on.
pub open spec fn record_place(list: Seq<ConflictModel>, record: ConflictModel, i: int) -> int
    decreases list.len() - i,
{
    if i < 0 || i >= list.len() {
        list.len() as int
    } else if record_before(record, list[i]) {
        i
    } else {
        record_place(list, record, i + 1)
    }
}

/// The first `n` records in order.
pub open spec fn ordered_records(list: Seq<ConflictModel>, n: int) -> Seq<ConflictModel>
    decreases n,
{
    if n <= 0 {
        Seq::empty()
    } else {
        let rest = ordered_records(list, n - 1);
        rest.insert(record_place(rest, list[n - 1], 0), list[n - 1])
    }
}

/// Puts records in order.
pub fn order_records(list: &Vec<StoredConflict>) -> (ordered: Vec<StoredConflict>)
    ensures
        record_models(ordered@) == ordered_records(record_models(list@), list@.len() as int),
{
    let ghost models = record_models(list@);
    let mut ordered: Vec<StoredConflict> = Vec::new();
    let mut k: usize = 0;
    proof {
        assert(record_models(ordered@) =~= Seq::empty());
    }
    while k < list.len()
        invariant
            k <= list.len(),
            models == record_models(list@),
            record_models(ordered@) == ordered_records(models, k as int),
            ordered@.len() == k,
        decreases list.len() - k,
    {
        let ghost before = record_models(ordered@);
        assert(models[k as int] == list@[k as int]@);
        let mut at: usize = 0;
        while at < ordered.len() && !is_record_before(&list[k], &ordered[at])
            invariant
                at <= ordered.len(),
                k < list.len(),
                before == record_models(ordered@),
                models[k as int] == list@[k as int]@,
                record_place(before, models[k as int], 0) == record_place(
                    before,
                    models[k as int],
                    at as int,
                ),
            decreases ordered.len() - at,
        {
            assert(before[at as int] == ordered@[at as int]@);
            at = at + 1;
        }
        proof {
            if at < ordered@.len() {
                assert(before[at as int] == ordered@[at as int]@);
            }
        }
        assert(record_place(before, models[k as int], 0) == at);
        ordered.insert(at, repository::dup_conflict(&list[k]));
        assert(record_models(ordered@) =~= before.insert(at as int, models[k as int]));
        k = k + 1;
    }
    ordered
}

/// The kind of a stored conflict in text.
pub open spec fn kind_text(kind: StoredConflictKind) -> Seq<char> {
    match kind {
        StoredConflictKind::Name => "Name"@,
        StoredConflictKind::Order => "Order"@,
    }
}

/// The line of a stored conflict in text.
pub open spec fn line_text(line: Option<u32>) -> Seq<char> {
    match line {
        Some(line) => "Some("@ + text::numeral(line as nat) + ")"@,
        None => "None"@,
    }
}

/// A stored conflict in text.
pub open spec fn record_text(record: ConflictModel) -> Seq<char> {
    "StoredConflict { kind: "@ + kind_text(record.kind) + ", path: "@ + row_text::quoted(record.path)
        + ", line: "@ + line_text(record.line) + ", sides: "@ + row_text::bracketed(
        record.sides.map_values(|side: Seq<char>| row_text::quoted(side)),
    ) + " }"@
}

fn render_sides(sides: &Vec<String>) -> (s: String)
    ensures
        s@ == row_text::bracketed(
            text::texts(sides@).map_values(|side: Seq<char>| row_text::quoted(side)),
        ),
{
    let ghost written = text::texts(sides@).map_values(|side: Seq<char>| row_text::quoted(side));
    let mut parts: Vec<String> = Vec::new();
    let mut i: usize = 0;
    while i < sides.len()
        invariant
            i <= sides.len(),
            written == text::texts(sides@).map_values(|side: Seq<char>| row_text::quoted(side)),
            text::texts(parts@) =~= written.take(i as int),
        decreases sides.len() - i,
    {
        let ghost before = text::texts(parts@);
        assert(written[i as int] == row_text::quoted(sides@[i as int]@));
        parts.push(row_text::quote(sides[i].as_str()));
        assert(text::texts(parts@) =~= before.push(written[i as int]));
        i = i + 1;
    }
    assert(written.take(i as int) =~= written);
    row_text::bracket(&parts)
}

fn render_record(record: &StoredConflict) -> (s: String)
    ensures
        s@ == record_text(record@),
{
    let mut s: String = "StoredConflict { kind: ".to_owned();
    s.append(
        match record.kind {
            StoredConflictKind::Name => "Name",
            StoredConflictKind::Order => "Order",
        },
    );
    s.append(", path: ");
    s.append(row_text::quote(record.path.as_str()).as_str());
    s.append(", line: ");
    match record.line {
        Some(line) => {
            let mut told: String = "Some(".to_owned();
            told.append(text::decimal(line as u64).as_str());
            told.append(")");
            s.append(told.as_str());
        },
        None => {
            s.append("None");
        },
    }
    s.append(", sides: ");
    s.append(render_sides(&record.sides).as_str());
    s.append(" }");
    s
}

/// Stored conflicts in text.
pub open spec fn records_text(records: Seq<ConflictModel>) -> Seq<char> {
    row_text::bracketed(records.map_values(|r: ConflictModel| record_text(r)))
}

/// Writes stored conflicts, in order.
fn render_records(records: &Vec<StoredConflict>) -> (s: String)
    ensures
        s@ == records_text(ordered_records(record_models(records@), records@.len() as int)),
{
    let ordered: Vec<StoredConflict> = order_records(records);
    let ghost models = record_models(ordered@);
    let ghost written = models.map_values(|r: ConflictModel| record_text(r));
    let mut parts: Vec<String> = Vec::new();
    let mut i: usize = 0;
    while i < ordered.len()
        invariant
            i <= ordered.len(),
            models == record_models(ordered@),
            written == models.map_values(|r: ConflictModel| record_text(r)),
            text::texts(parts@) =~= written.take(i as int),
        decreases ordered.len() - i,
    {
        let ghost before = text::texts(parts@);
        assert(written[i as int] == record_text(ordered@[i as int]@));
        parts.push(render_record(&ordered[i]));
        assert(text::texts(parts@) =~= before.push(written[i as int]));
        i = i + 1;
    }
    assert(written.take(i as int) =~= written);
    row_text::bracket(&parts)
}

/// A view and an inode in text.
pub open spec fn owner_text(view: u64, inode: Inode) -> Seq<char> {
    text::numeral(view as nat) + ":"@ + text::numeral(inode.0 as nat)
}

/// A claim's key: its path, event and claimant.
pub open spec fn claim_text(claim: ClaimModel) -> Seq<char> {
    "("@ + row_text::quoted(claim.path) + ", "@ + row_text::quoted(claim.event) + ", "@
        + position_text(claim.claimant) + ")"@
}

/// Claims as rows.
pub open spec fn claim_rows(claims: Seq<ClaimModel>) -> Seq<(Seq<char>, Seq<char>)> {
    claims.map_values(|c: ClaimModel| (claim_text(c), "present"@))
}

/// Tree entries as rows.
pub open spec fn tree_rows(tree: Seq<(Seq<char>, Inode)>) -> Seq<(Seq<char>, Seq<char>)> {
    tree.map_values(|e: (Seq<char>, Inode)| (e.0, text::numeral(e.1.0 as nat)))
}

/// Reverse tree entries as rows.
pub open spec fn rev_tree_rows(tree: Seq<(Inode, Seq<char>)>) -> Seq<(Seq<char>, Seq<char>)> {
    tree.map_values(|e: (Inode, Seq<char>)| (text::numeral(e.0.0 as nat), e.1))
}

/// Inode positions as rows.
pub open spec fn inode_rows(inodes: Seq<(Inode, Position)>) -> Seq<(Seq<char>, Seq<char>)> {
    inodes.map_values(|e: (Inode, Position)| (text::numeral(e.0.0 as nat), position_text(e.1)))
}

/// Inodes of positions as rows.
pub open spec fn rev_inode_rows(inodes: Seq<(Position, Inode)>) -> Seq<(Seq<char>, Seq<char>)> {
    inodes.map_values(|e: (Position, Inode)| (position_text(e.0), text::numeral(e.1.0 as nat)))
}

/// Directory flags as rows.
pub open spec fn directory_rows(directories: Seq<(Inode, u8)>) -> Seq<(Seq<char>, Seq<char>)> {
    directories.map_values(|e: (Inode, u8)| (text::numeral(e.0.0 as nat), flags_text(e.1)))
}

/// Stored conflicts of one owner, their records in order.
pub open spec fn with_ordered_records(row: ConflictsModel) -> ConflictsModel {
    ConflictsModel { records: ordered_records(row.records, row.records.len() as int), ..row }
}

/// Stored conflicts, the records of each owner in order.
pub open spec fn in_record_order(conflicts: Seq<ConflictsModel>) -> Seq<ConflictsModel> {
    conflicts.map_values(|c: ConflictsModel| with_ordered_records(c))
}

/// Stored conflicts as rows.
pub open spec fn conflict_rows(conflicts: Seq<ConflictsModel>) -> Seq<(Seq<char>, Seq<char>)> {
    in_record_order(conflicts).map_values(
        |c: ConflictsModel| (owner_text(c.view, c.inode), records_text(c.records)),
    )
}

/// Tree entries, what they say.
pub open spec fn tree_models(tree: Seq<(String, Inode)>) -> Seq<(Seq<char>, Inode)> {
    tree.map_values(|e: (String, Inode)| (e.0@, e.1))
}

/// Reverse tree entries, what they say.
pub open spec fn rev_tree_models(tree: Seq<(Inode, String)>) -> Seq<(Inode, Seq<char>)> {
    tree.map_values(|e: (Inode, String)| (e.0, e.1@))
}

fn push_row(
    rows: &mut Vec<(String, String)>,
    key: String,
    value: String,
)
    ensures
        native_index::row_models(final(rows)@) == native_index::row_models(old(rows)@).push(
            (key@, value@),
        ),
{
    let ghost before = native_index::row_models(rows@);
    rows.push((key, value));
    assert(native_index::row_models(rows@) =~= before.push((key@, value@)));
}

/// Renders claims.
pub fn canonical_path_claims(claims: &Vec<PathClaim>) -> (rows: Vec<(String, String)>)
    ensures
        native_index::row_models(rows@) == claim_rows(claim_models(claims@)),
{
    let ghost all = claim_rows(claim_models(claims@));
    let mut rows: Vec<(String, String)> = Vec::new();
    let mut i: usize = 0;
    while i < claims.len()
        invariant
            i <= claims.len(),
            all == claim_rows(claim_models(claims@)),
            native_index::row_models(rows@) =~= all.take(i as int),
        decreases claims.len() - i,
    {
        assert(claim_models(claims@)[i as int] == claims@[i as int]@);
        assert(all.take(i + 1) =~= all.take(i as int).push(all[i as int]));
        let mut key: String = "(".to_owned();
        key.append(row_text::quote(claims[i].path.as_str()).as_str());
        key.append(", ");
        key.append(row_text::quote(claims[i].event.as_str()).as_str());
        key.append(", ");
        key.append(render_position(claims[i].claimant).as_str());
        key.append(")");
        push_row(&mut rows, key, "present".to_owned());
        i = i + 1;
    }
    assert(all.take(i as int) =~= all);
    rows
}

/// Renders tree entries.
pub fn canonical_tree(tree: &Vec<(String, Inode)>) -> (rows: Vec<(String, String)>)
    ensures
        native_index::row_models(rows@) == tree_rows(tree_models(tree@)),
{
    let ghost all = tree_rows(tree_models(tree@));
    let mut rows: Vec<(String, String)> = Vec::new();
    let mut i: usize = 0;
    while i < tree.len()
        invariant
            i <= tree.len(),
            all == tree_rows(tree_models(tree@)),
            native_index::row_models(rows@) =~= all.take(i as int),
        decreases tree.len() - i,
    {
        assert(tree_models(tree@)[i as int] == (tree@[i as int].0@, tree@[i as int].1));
        assert(all.take(i + 1) =~= all.take(i as int).push(all[i as int]));
        push_row(&mut rows, tree[i].0.clone(), text::decimal(tree[i].1.0));
        i = i + 1;
    }
    assert(all.take(i as int) =~= all);
    rows
}

/// Renders reverse tree entries.
pub fn canonical_rev_tree(tree: &Vec<(Inode, String)>) -> (rows: Vec<(String, String)>)
    ensures
        native_index::row_models(rows@) == rev_tree_rows(rev_tree_models(tree@)),
{
    let ghost all = rev_tree_rows(rev_tree_models(tree@));
    let mut rows: Vec<(String, String)> = Vec::new();
    let mut i: usize = 0;
    while i < tree.len()
        invariant
            i <= tree.len(),
            all == rev_tree_rows(rev_tree_models(tree@)),
            native_index::row_models(rows@) =~= all.take(i as int),
        decreases tree.len() - i,
    {
        assert(rev_tree_models(tree@)[i as int] == (tree@[i as int].0, tree@[i as int].1@));
        assert(all.take(i + 1) =~= all.take(i as int).push(all[i as int]));
        push_row(&mut rows, text::decimal(tree[i].0.0), tree[i].1.clone());
        i = i + 1;
    }
    assert(all.take(i as int) =~= all);
    rows
}

/// Renders inode positions.
pub fn canonical_inodes(inodes: &Vec<(Inode, Position)>) -> (rows: Vec<(String, String)>)
    ensures
        native_index::row_models(rows@) == inode_rows(inodes@),
{
    let ghost all = inode_rows(inodes@);
    let mut rows: Vec<(String, String)> = Vec::new();
    let mut i: usize = 0;
    while i < inodes.len()
        invariant
            i <= inodes.len(),
            all == inode_rows(inodes@),
            native_index::row_models(rows@) =~= all.take(i as int),
        decreases inodes.len() - i,
    {
        assert(all.take(i + 1) =~= all.take(i as int).push(all[i as int]));
        push_row(&mut rows, text::decimal(inodes[i].0.0), render_position(inodes[i].1));
        i = i + 1;
    }
    assert(all.take(i as int) =~= all);
    rows
}

/// Renders the inodes of positions.
pub fn canonical_rev_inodes(inodes: &Vec<(Position, Inode)>) -> (rows: Vec<(String, String)>)
    ensures
        native_index::row_models(rows@) == rev_inode_rows(inodes@),
{
    let ghost all = rev_inode_rows(inodes@);
    let mut rows: Vec<(String, String)> = Vec::new();
    let mut i: usize = 0;
    while i < inodes.len()
        invariant
            i <= inodes.len(),
            all == rev_inode_rows(inodes@),
            native_index::row_models(rows@) =~= all.take(i as int),
        decreases inodes.len() - i,
    {
        assert(all.take(i + 1) =~= all.take(i as int).push(all[i as int]));
        push_row(&mut rows, render_position(inodes[i].0), text::decimal(inodes[i].1.0));
        i = i + 1;
    }
    assert(all.take(i as int) =~= all);
    rows
}

/// Renders directory flags.
pub fn canonical_directories(directories: &Vec<(Inode, u8)>) -> (rows: Vec<(String, String)>)
    ensures
        native_index::row_models(rows@) == directory_rows(directories@),
{
    let ghost all = directory_rows(directories@);
    let mut rows: Vec<(String, String)> = Vec::new();
    let mut i: usize = 0;
    while i < directories.len()
        invariant
            i <= directories.len(),
            all == directory_rows(directories@),
            native_index::row_models(rows@) =~= all.take(i as int),
        decreases directories.len() - i,
    {
        assert(all.take(i + 1) =~= all.take(i as int).push(all[i as int]));
        push_row(&mut rows, text::decimal(directories[i].0.0), render_flags(directories[i].1));
        i = i + 1;
    }
    assert(all.take(i as int) =~= all);
    rows
}

/// Renders stored conflicts.
pub fn canonical_conflicts(conflicts: &Vec<NativeConflicts>) -> (rows: Vec<(String, String)>)
    ensures
        native_index::row_models(rows@) == conflict_rows(conflicts_models(conflicts@)),
{
    let ghost all = conflict_rows(conflicts_models(conflicts@));
    let mut rows: Vec<(String, String)> = Vec::new();
    let mut i: usize = 0;
    while i < conflicts.len()
        invariant
            i <= conflicts.len(),
            all == conflict_rows(conflicts_models(conflicts@)),
            native_index::row_models(rows@) =~= all.take(i as int),
        decreases conflicts.len() - i,
    {
        assert(conflicts_models(conflicts@)[i as int] == conflicts@[i as int]@);
        assert(all.take(i + 1) =~= all.take(i as int).push(all[i as int]));
        let mut key: String = text::decimal(conflicts[i].view);
        key.append(":");
        key.append(text::decimal(conflicts[i].inode.0).as_str());
        push_row(&mut rows, key, render_records(&conflicts[i].records));
        i = i + 1;
    }
    assert(all.take(i as int) =~= all);
    rows
}

/// The tables that graph and changes project.
#[derive(Debug)]
pub struct NativeDerivedIndexes {
    pub path_claims: Vec<PathClaim>,
    pub tree: Vec<(String, Inode)>,
    pub rev_tree: Vec<(Inode, String)>,
    pub inodes: Vec<(Inode, Position)>,
    pub rev_inodes: Vec<(Position, Inode)>,
    pub directories: Vec<(Inode, u8)>,
    pub conflicts: Vec<NativeConflicts>,
}

/// What [`NativeDerivedIndexes`] say.
pub ghost struct IndexesModel {
    pub path_claims: Seq<ClaimModel>,
    pub tree: Seq<(Seq<char>, Inode)>,
    pub rev_tree: Seq<(Inode, Seq<char>)>,
    pub inodes: Seq<(Inode, Position)>,
    pub rev_inodes: Seq<(Position, Inode)>,
    pub directories: Seq<(Inode, u8)>,
    pub conflicts: Seq<ConflictsModel>,
}

impl View for NativeDerivedIndexes {
    type V = IndexesModel;

    open spec fn view(&self) -> IndexesModel {
        IndexesModel {
            path_claims: claim_models(self.path_claims@),
            tree: tree_models(self.tree@),
            rev_tree: rev_tree_models(self.rev_tree@),
            inodes: self.inodes@,
            rev_inodes: self.rev_inodes@,
            directories: self.directories@,
            conflicts: conflicts_models(self.conflicts@),
        }
    }
}

impl IndexesModel {
    /// How many rows the tables have together.
    pub open spec fn row_count(self) -> nat {
        self.path_claims.len() + self.tree.len() + self.rev_tree.len() + self.inodes.len()
            + self.rev_inodes.len() + self.directories.len() + self.conflicts.len()
    }
}

/// How many rows the tables have together.
pub fn native_row_count(indexes: &NativeDerivedIndexes) -> (count: usize)
    requires
        indexes@.row_count() <= usize::MAX,
    ensures
        count as nat == indexes@.row_count(),
{
    indexes.path_claims.len() + indexes.tree.len() + indexes.rev_tree.len() + indexes.inodes.len()
        + indexes.rev_inodes.len() + indexes.directories.len() + indexes.conflicts.len()
}

/// The stored tables, each as it was read or with why it could not be.
#[derive(Debug)]
pub struct NativeRows {
    /// The version of the claim table, if it says one.
    pub schema: Result<Option<u32>, String>,
    pub path_claims: Result<Vec<PathClaim>, String>,
    pub tree: Result<Vec<(String, Inode)>, String>,
    pub rev_tree: Result<Vec<(Inode, String)>, String>,
    pub inodes: Result<Vec<(Inode, Position)>, String>,
    pub rev_inodes: Result<Vec<(Position, Inode)>, String>,
    pub directories: Result<Vec<(Inode, u8)>, String>,
    pub conflicts: Result<Vec<NativeConflicts>, String>,
}

/// What stored tables say, each of them or why it could not be read.
pub ghost struct RowsModel {
    pub schema: Result<Option<u32>, Seq<char>>,
    pub path_claims: Result<Seq<ClaimModel>, Seq<char>>,
    pub tree: Result<Seq<(Seq<char>, Inode)>, Seq<char>>,
    pub rev_tree: Result<Seq<(Inode, Seq<char>)>, Seq<char>>,
    pub inodes: Result<Seq<(Inode, Position)>, Seq<char>>,
    pub rev_inodes: Result<Seq<(Position, Inode)>, Seq<char>>,
    pub directories: Result<Seq<(Inode, u8)>, Seq<char>>,
    pub conflicts: Result<Seq<ConflictsModel>, Seq<char>>,
}

impl View for NativeRows {
    type V = RowsModel;

    open spec fn view(&self) -> RowsModel {
        RowsModel {
            schema: match self.schema {
                Ok(version) => Ok(version),
                Err(message) => Err(message@),
            },
            path_claims: match self.path_claims {
                Ok(rows) => Ok(claim_models(rows@)),
                Err(message) => Err(message@),
            },
            tree: match self.tree {
                Ok(rows) => Ok(tree_models(rows@)),
                Err(message) => Err(message@),
            },
            rev_tree: match self.rev_tree {
                Ok(rows) => Ok(rev_tree_models(rows@)),
                Err(message) => Err(message@),
            },
            inodes: match self.inodes {
                Ok(rows) => Ok(rows@),
                Err(message) => Err(message@),
            },
            rev_inodes: match self.rev_inodes {
                Ok(rows) => Ok(rows@),
                Err(message) => Err(message@),
            },
            directories: match self.directories {
                Ok(rows) => Ok(rows@),
                Err(message) => Err(message@),
            },
            conflicts: match self.conflicts {
                Ok(rows) => Ok(conflicts_models(rows@)),
                Err(message) => Err(message@),
            },
        }
    }
}

/// How many rows a table has, as far as it could be read.
pub open spec fn table_len<R>(table: Result<Seq<R>, Seq<char>>) -> int {
    match table {
        Ok(rows) => rows.len() as int,
        Err(_) => 0,
    }
}

impl RowsModel {
    /// How many rows could be read.
    pub open spec fn row_count(self) -> int {
        table_len(self.path_claims) + table_len(self.tree) + table_len(self.rev_tree) + table_len(
            self.inodes,
        ) + table_len(self.rev_inodes) + table_len(self.directories) + table_len(self.conflicts)
    }
}

/// A table in text, if it could be read.
pub open spec fn rendered<R>(
    table: Result<Seq<R>, Seq<char>>,
    told: spec_fn(Seq<R>) -> Seq<(Seq<char>, Seq<char>)>,
) -> Result<Seq<(Seq<char>, Seq<char>)>, Seq<char>> {
    match table {
        Ok(rows) => Ok(told(rows)),
        Err(message) => Err(message),
    }
}

/// What is wrong with the version of the claim table.
pub open spec fn schema_problems(schema: Result<Option<u32>, Seq<char>>, current: u32) -> Seq<
    ProblemModel,
> {
    let expected = Some(text::numeral(current as nat));
    match schema {
        Ok(Some(version)) => if version == current {
            Seq::empty()
        } else {
            seq![
                ProblemModel {
                    index: NativeIndex::PathClaims,
                    kind: NativeIndexProblemKind::Mismatched,
                    key: "<schema>"@,
                    expected,
                    actual: Some(text::numeral(version as nat)),
                },
            ]
        },
        Ok(None) => seq![
            ProblemModel {
                index: NativeIndex::PathClaims,
                kind: NativeIndexProblemKind::Missing,
                key: "<schema>"@,
                expected,
                actual: None,
            },
        ],
        Err(message) => seq![
            ProblemModel {
                index: NativeIndex::PathClaims,
                kind: NativeIndexProblemKind::Malformed,
                key: "<schema>"@,
                expected,
                actual: Some(message),
            },
        ],
    }
}

/// What is wrong with the stored tables, table by table.
pub open spec fn all_problems(expected: IndexesModel, actual: RowsModel, current: u32) -> Seq<
    ProblemModel,
> {
    schema_problems(actual.schema, current) + native_index::table_problems(
        NativeIndex::PathClaims,
        claim_rows(expected.path_claims),
        rendered(actual.path_claims, |rows: Seq<ClaimModel>| claim_rows(rows)),
    ) + native_index::table_problems(
        NativeIndex::Tree,
        tree_rows(expected.tree),
        rendered(actual.tree, |rows: Seq<(Seq<char>, Inode)>| tree_rows(rows)),
    ) + native_index::table_problems(
        NativeIndex::RevTree,
        rev_tree_rows(expected.rev_tree),
        rendered(actual.rev_tree, |rows: Seq<(Inode, Seq<char>)>| rev_tree_rows(rows)),
    ) + native_index::table_problems(
        NativeIndex::Inodes,
        inode_rows(expected.inodes),
        rendered(actual.inodes, |rows: Seq<(Inode, Position)>| inode_rows(rows)),
    ) + native_index::table_problems(
        NativeIndex::RevInodes,
        rev_inode_rows(expected.rev_inodes),
        rendered(actual.rev_inodes, |rows: Seq<(Position, Inode)>| rev_inode_rows(rows)),
    ) + native_index::table_problems(
        NativeIndex::Directories,
        directory_rows(expected.directories),
        rendered(actual.directories, |rows: Seq<(Inode, u8)>| directory_rows(rows)),
    ) + native_index::table_problems(
        NativeIndex::Conflicts,
        conflict_rows(expected.conflicts),
        rendered(actual.conflicts, |rows: Seq<ConflictsModel>| conflict_rows(rows)),
    )
}

fn compare_schema(
    schema: &Result<Option<u32>, String>,
    current: u32,
    problems: &mut Vec<NativeIndexProblem>,
)
    requires
        old(problems)@.len() == 0,
    ensures
        native_index::problem_models(final(problems)@) == schema_problems(
            match *schema {
                Ok(version) => Ok::<Option<u32>, Seq<char>>(version),
                Err(message) => Err(message@),
            },
            current,
        ),
{
    let (kind, actual) = match schema {
        Ok(Some(version)) => {
            if *version == current {
                assert(native_index::problem_models(problems@) =~= Seq::empty());
                return;
            }
            (NativeIndexProblemKind::Mismatched, Some(text::decimal(*version as u64)))
        },
        Ok(None) => (NativeIndexProblemKind::Missing, None),
        Err(message) => (NativeIndexProblemKind::Malformed, Some(message.clone())),
    };
    let problem = NativeIndexProblem {
        index: NativeIndex::PathClaims,
        kind,
        key: "<schema>".to_owned(),
        expected: Some(text::decimal(current as u64)),
        actual,
    };
    let ghost model = problem@;
    problems.push(problem);
    assert(native_index::problem_models(problems@) =~= seq![model]);
}

spec fn table_size_of(table: Result<Vec<(String, String)>, String>) -> int {
    table_len(native_index::table_model(table))
}

fn table_size(table: &Result<Vec<(String, String)>, String>) -> (size: usize)
    ensures
        size as int == table_size_of(*table),
{
    match table {
        Ok(rows) => {
            assert(native_index::row_models(rows@).len() == rows@.len());
            rows.len()
        },
        Err(_) => 0,
    }
}

/// The stored tables, rendered.
struct RenderedRows {
    path_claims: Result<Vec<(String, String)>, String>,
    tree: Result<Vec<(String, String)>, String>,
    rev_tree: Result<Vec<(String, String)>, String>,
    inodes: Result<Vec<(String, String)>, String>,
    rev_inodes: Result<Vec<(String, String)>, String>,
    directories: Result<Vec<(String, String)>, String>,
    conflicts: Result<Vec<(String, String)>, String>,
}

fn render_rows(rows: &NativeRows) -> (told: RenderedRows)
    ensures
        native_index::table_model(told.path_claims) == rendered(
            rows@.path_claims,
            |rows: Seq<ClaimModel>| claim_rows(rows),
        ),
        table_size_of(told.path_claims) == table_len(rows@.path_claims),
        native_index::table_model(told.tree) == rendered(
            rows@.tree,
            |rows: Seq<(Seq<char>, Inode)>| tree_rows(rows),
        ),
        table_size_of(told.tree) == table_len(rows@.tree),
        native_index::table_model(told.rev_tree) == rendered(
            rows@.rev_tree,
            |rows: Seq<(Inode, Seq<char>)>| rev_tree_rows(rows),
        ),
        table_size_of(told.rev_tree) == table_len(rows@.rev_tree),
        native_index::table_model(told.inodes) == rendered(
            rows@.inodes,
            |rows: Seq<(Inode, Position)>| inode_rows(rows),
        ),
        table_size_of(told.inodes) == table_len(rows@.inodes),
        native_index::table_model(told.rev_inodes) == rendered(
            rows@.rev_inodes,
            |rows: Seq<(Position, Inode)>| rev_inode_rows(rows),
        ),
        table_size_of(told.rev_inodes) == table_len(rows@.rev_inodes),
        native_index::table_model(told.directories) == rendered(
            rows@.directories,
            |rows: Seq<(Inode, u8)>| directory_rows(rows),
        ),
        table_size_of(told.directories) == table_len(rows@.directories),
        native_index::table_model(told.conflicts) == rendered(
            rows@.conflicts,
            |rows: Seq<ConflictsModel>| conflict_rows(rows),
        ),
        table_size_of(told.conflicts) == table_len(rows@.conflicts),
{
    RenderedRows {
        path_claims: match &rows.path_claims {
            Ok(list) => Ok(canonical_path_claims(list)),
            Err(message) => Err(message.clone()),
        },
        tree: match &rows.tree {
            Ok(list) => Ok(canonical_tree(list)),
            Err(message) => Err(message.clone()),
        },
        rev_tree: match &rows.rev_tree {
            Ok(list) => Ok(canonical_rev_tree(list)),
            Err(message) => Err(message.clone()),
        },
        inodes: match &rows.inodes {
            Ok(list) => Ok(canonical_inodes(list)),
            Err(message) => Err(message.clone()),
        },
        rev_inodes: match &rows.rev_inodes {
            Ok(list) => Ok(canonical_rev_inodes(list)),
            Err(message) => Err(message.clone()),
        },
        directories: match &rows.directories {
            Ok(list) => Ok(canonical_directories(list)),
            Err(message) => Err(message.clone()),
        },
        conflicts: match &rows.conflicts {
            Ok(list) => Ok(canonical_conflicts(list)),
            Err(message) => Err(message.clone()),
        },
    }
}

/// Compares the stored tables with the expected ones. `current` is the
/// version that the claim table should have.
pub fn compare_native_derived_indexes(
    expected: &NativeDerivedIndexes,
    actual: &NativeRows,
    current: u32,
) -> (report: NativeIndexReport)
    requires
        expected@.row_count() <= usize::MAX,
        actual@.row_count() <= usize::MAX,
    ensures
        ({
            let problems = all_problems(expected@, actual@, current);
            &&& report.expected_rows as nat == expected@.row_count()
            &&& report.actual_rows as int == actual@.row_count()
            &&& native_index::problem_models(report.problems@) == native_index::ordered_problems(
                problems,
                problems.len() as int,
            )
            &&& report.problems@.len() == problems.len()
        }),
{
    let told: RenderedRows = render_rows(actual);
    let mut problems: Vec<NativeIndexProblem> = Vec::new();
    compare_schema(&actual.schema, current, &mut problems);
    native_index::compare_table(
        NativeIndex::PathClaims,
        &canonical_path_claims(&expected.path_claims),
        &told.path_claims,
        &mut problems,
    );
    native_index::compare_table(
        NativeIndex::Tree,
        &canonical_tree(&expected.tree),
        &told.tree,
        &mut problems,
    );
    native_index::compare_table(
        NativeIndex::RevTree,
        &canonical_rev_tree(&expected.rev_tree),
        &told.rev_tree,
        &mut problems,
    );
    native_index::compare_table(
        NativeIndex::Inodes,
        &canonical_inodes(&expected.inodes),
        &told.inodes,
        &mut problems,
    );
    native_index::compare_table(
        NativeIndex::RevInodes,
        &canonical_rev_inodes(&expected.rev_inodes),
        &told.rev_inodes,
        &mut problems,
    );
    native_index::compare_table(
        NativeIndex::Directories,
        &canonical_directories(&expected.directories),
        &told.directories,
        &mut problems,
    );
    native_index::compare_table(
        NativeIndex::Conflicts,
        &canonical_conflicts(&expected.conflicts),
        &told.conflicts,
        &mut problems,
    );
    let ghost all = native_index::problem_models(problems@);
    assert(all == all_problems(expected@, actual@, current));
    assert(all.len() == problems@.len());
    let actual_rows: usize = table_size(&told.path_claims) + table_size(&told.tree)
        + table_size(&told.rev_tree) + table_size(&told.inodes) + table_size(
        &told.rev_inodes,
    ) + table_size(&told.directories) + table_size(&told.conflicts);
    NativeIndexReport {
        expected_rows: native_row_count(expected),
        actual_rows,
        problems: native_index::order_problems(&problems),
    }
}

/// Rows of which those with one key have one value: what is written is found
/// again as written.
pub open spec fn functional(rows: Seq<(Seq<char>, Seq<char>)>) -> bool {
    forall|i: int, j: int|
        #![trigger rows[i], rows[j]]
        0 <= i < rows.len() && 0 <= j < rows.len() && rows[i].0 == rows[j].0 ==> rows[i].1
            == rows[j].1
}

proof fn replaced_table_is_healthy(index: NativeIndex, rows: Seq<(Seq<char>, Seq<char>)>)
    requires
        functional(rows),
    ensures
        native_index::table_problems(index, rows, Ok(rows)).len() == 0,
{
    native_index::healthy_table_is_the_expected_one(index, rows, Ok(rows));
    assert forall|k: int| 0 <= k < rows.len() implies crate::pristine::first_value(
        rows,
        (#[trigger] rows[k]).0,
    ) == Some(rows[k].1) by {
        if crate::pristine::first_value(rows, rows[k].0) is None {
            crate::pristine::no_first_value(rows, rows[k].0, k);
        }
        let m = crate::pristine::first_value_stands(rows, rows[k].0);
        assert(rows[m].0 == rows[k].0);
    }
}

/// The rows of tables as they are stored.
pub open spec fn stored_rows(tables: IndexesModel, current: u32) -> RowsModel {
    RowsModel {
        schema: Ok(Some(current)),
        path_claims: Ok(tables.path_claims),
        tree: Ok(tables.tree),
        rev_tree: Ok(tables.rev_tree),
        inodes: Ok(tables.inodes),
        rev_inodes: Ok(tables.rev_inodes),
        directories: Ok(tables.directories),
        conflicts: Ok(tables.conflicts),
    }
}

/// Replacing the stored tables by the expected ones repairs them: compared
/// again, nothing is wrong, as long as rows of one key have one value.
pub proof fn replacement_is_healthy(expected: IndexesModel, current: u32)
    requires
        functional(tree_rows(expected.tree)),
        functional(rev_tree_rows(expected.rev_tree)),
        functional(inode_rows(expected.inodes)),
        functional(rev_inode_rows(expected.rev_inodes)),
        functional(directory_rows(expected.directories)),
        functional(conflict_rows(expected.conflicts)),
    ensures
        all_problems(expected, stored_rows(expected, current), current).len() == 0,
{
    replaced_table_is_healthy(NativeIndex::PathClaims, claim_rows(expected.path_claims));
    replaced_table_is_healthy(NativeIndex::Tree, tree_rows(expected.tree));
    replaced_table_is_healthy(NativeIndex::RevTree, rev_tree_rows(expected.rev_tree));
    replaced_table_is_healthy(NativeIndex::Inodes, inode_rows(expected.inodes));
    replaced_table_is_healthy(NativeIndex::RevInodes, rev_inode_rows(expected.rev_inodes));
    replaced_table_is_healthy(NativeIndex::Directories, directory_rows(expected.directories));
    replaced_table_is_healthy(NativeIndex::Conflicts, conflict_rows(expected.conflicts));
}

} // verus!
