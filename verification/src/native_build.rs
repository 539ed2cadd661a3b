//! Rebuilding the native derived indexes from graph and changes.

use crate::collections;
use crate::conflict_markers;
use crate::content;
use crate::error;
use crate::error::RepositoryError;
use crate::health_laws;
use crate::native_index;
use crate::native_index::{
    NativeIndex, NativeIndexProblem, NativeIndexProblemKind, NativeIndexRepairOutcome,
    NativeIndexReport, ProblemModel,
};
use crate::native_roots;
use crate::native_roots::{FaultModel, NativeFault, NativeRefusal, PathRefusal, PathRefusalModel};
use crate::native_tables;
use crate::native_tables::{
    ClaimModel, ConflictsModel, IndexesModel, NativeConflicts, NativeDerivedIndexes, NativeRows, PathClaim,
    RowsModel,
};
use crate::ordering;
use crate::ordering::Ranked;
use crate::pristine;
use crate::pristine::{Pristine, PristineModel, Visibility};
use crate::repository;
use crate::repository::{ConflictModel, Repository, StoredConflict, StoredConflictKind};
use crate::text;
use crate::types::{Inode, NodeId, Position};
use vstd::prelude::*;

verus! {

/// Flag of a directory that was added as such.
pub const DIR_EXPLICIT: u8 = 1;

/// Flag of a directory without entries.
pub const DIR_EMPTY: u8 = 2;

/// A path that a view shows an inode at.
#[derive(Debug)]
pub struct ClaimedPath {
    pub path: String,
    pub inode: Inode,
    pub position: Position,
    pub is_directory: bool,
}

/// What a [`ClaimedPath`] says.
pub ghost struct ClaimedModel {
    pub path: Seq<char>,
    pub inode: Inode,
    pub position: Position,
    pub is_directory: bool,
}

impl View for ClaimedPath {
    type V = ClaimedModel;

    open spec fn view(&self) -> ClaimedModel {
        ClaimedModel {
            path: self.path@,
            inode: self.inode,
            position: self.position,
            is_directory: self.is_directory,
        }
    }
}

/// What claimed paths say.
pub open spec fn claimed_models(sides: Seq<ClaimedPath>) -> Seq<ClaimedModel> {
    sides.map_values(|s: ClaimedPath| s@)
}

/// A change behind a conflict, with its hash in text.
#[derive(Debug)]
pub struct SideChange {
    pub id: NodeId,
    pub hash: Option<String>,
}

/// A contested path with every claim that takes part, some of which may stand
/// at other paths.
#[derive(Debug)]
pub struct ReducedConflict {
    pub path: String,
    pub sides: Vec<ClaimedPath>,
    /// The changes behind all claims.
    pub changes: Vec<SideChange>,
}

/// What the claims of one view come to.
#[derive(Debug)]
pub struct ReducedView {
    pub present: Vec<ClaimedPath>,
    pub conflicts: Vec<ReducedConflict>,
}

/// Claims without repeated events, among the first `n`.
pub open spec fn distinct_claims(claims: Seq<ClaimModel>, n: int) -> Seq<ClaimModel>
    decreases n,
{
    if n <= 0 {
        Seq::empty()
    } else {
        let rest = distinct_claims(claims, n - 1);
        if has_claim(rest, claims[n - 1]) {
            rest
        } else {
            rest.push(claims[n - 1])
        }
    }
}

/// Whether a list has a claim of the same path and event.
pub open spec fn has_claim(list: Seq<ClaimModel>, claim: ClaimModel) -> bool {
    exists|k: int|
        0 <= k < list.len() && (#[trigger] list[k]).path == claim.path && list[k].event
            == claim.event
}

fn holds_claim(list: &Vec<PathClaim>, claim: &PathClaim) -> (found: bool)
    ensures
        found == has_claim(native_tables::claim_models(list@), claim@),
{
    let ghost models = native_tables::claim_models(list@);
    let mut k: usize = 0;
    while k < list.len()
        invariant
            k <= list.len(),
            models == native_tables::claim_models(list@),
            forall|j: int|
                0 <= j < k ==> !((#[trigger] models[j]).path == claim@.path && models[j].event
                    == claim@.event),
        decreases list.len() - k,
    {
        assert(models[k as int] == list@[k as int]@);
        if text::same(list[k].path.as_str(), claim.path.as_str()) && text::same(
            list[k].event.as_str(),
            claim.event.as_str(),
        ) {
            return true;
        }
        k = k + 1;
    }
    false
}

fn keep_distinct_claims(claims: &Vec<PathClaim>) -> (kept: Vec<PathClaim>)
    ensures
        native_tables::claim_models(kept@) == distinct_claims(
            native_tables::claim_models(claims@),
            claims@.len() as int,
        ),
{
    let ghost models = native_tables::claim_models(claims@);
    let mut kept: Vec<PathClaim> = Vec::new();
    let mut n: usize = 0;
    proof {
        assert(native_tables::claim_models(kept@) =~= Seq::empty());
    }
    while n < claims.len()
        invariant
            n <= claims.len(),
            models == native_tables::claim_models(claims@),
            native_tables::claim_models(kept@) == distinct_claims(models, n as int),
        decreases claims.len() - n,
    {
        let ghost before = native_tables::claim_models(kept@);
        assert(models[n as int] == claims@[n as int]@);
        if !holds_claim(&kept, &claims[n]) {
            let claim = PathClaim {
                path: claims[n].path.clone(),
                event: claims[n].event.clone(),
                claimant: claims[n].claimant,
            };
            kept.push(claim);
            assert(native_tables::claim_models(kept@) =~= before.push(models[n as int]));
        }
        n = n + 1;
    }
    kept
}

/// Place of the first claim from the `i`-th on whose root nobody owns.
pub open spec fn unowned_from(
    claims: Seq<ClaimModel>,
    bindings: Seq<(Position, Inode)>,
    i: int,
) -> Option<int>
    decreases claims.len() - i,
{
    if i < 0 || i >= claims.len() {
        None
    } else if pristine::first_value(bindings, claims[i].claimant) is None {
        Some(i)
    } else {
        unowned_from(claims, bindings, i + 1)
    }
}

fn find_unowned(claims: &Vec<PathClaim>, bindings: &Vec<(Position, Inode)>) -> (found: Option<
    usize,
>)
    ensures
        match found {
            Some(i) => i < claims@.len() && unowned_from(
                native_tables::claim_models(claims@),
                bindings@,
                0,
            ) == Some(i as int),
            None => unowned_from(native_tables::claim_models(claims@), bindings@, 0) is None,
        },
{
    let ghost models = native_tables::claim_models(claims@);
    let mut i: usize = 0;
    while i < claims.len()
        invariant
            i <= claims.len(),
            models == native_tables::claim_models(claims@),
            unowned_from(models, bindings@, 0) == unowned_from(models, bindings@, i as int),
        decreases claims.len() - i,
    {
        assert(models[i as int] == claims@[i as int]@);
        if pristine::find_value(bindings, claims[i].claimant).is_none() {
            return Some(i);
        }
        i = i + 1;
    }
    None
}

/// Owners with their roots.
pub open spec fn flipped(bindings: Seq<(Position, Inode)>) -> Seq<(Inode, Position)> {
    bindings.map_values(|b: (Position, Inode)| (b.1, b.0))
}

/// The owners of roots, in inode order.
pub open spec fn ordered_inodes(bindings: Seq<(Position, Inode)>) -> Seq<(Inode, Position)> {
    ordering::sorted::<(Inode, Position)>(flipped(bindings), bindings.len() as int)
}

fn order_inodes(bindings: &Vec<(Position, Inode)>) -> (inodes: Vec<(Inode, Position)>)
    ensures
        inodes@ == ordered_inodes(bindings@),
        inodes@.len() == bindings@.len(),
{
    let mut owners: Vec<(Inode, Position)> = Vec::new();
    let mut k: usize = 0;
    while k < bindings.len()
        invariant
            k <= bindings.len(),
            owners@ =~= flipped(bindings@.take(k as int)),
        decreases bindings.len() - k,
    {
        owners.push((bindings[k].1, bindings[k].0));
        k = k + 1;
    }
    proof {
        assert(bindings@.take(bindings@.len() as int) =~= bindings@);
        assert(ordering::rows(owners@) =~= owners@);
        ordering::sorted_is_in_order::<(Inode, Position)>(flipped(bindings@), k as int);
    }
    let inodes: Vec<(Inode, Position)> = ordering::sort_rows(owners);
    assert(ordering::rows(inodes@) =~= inodes@);
    inodes
}

/// What is wrong with the first row from the `i`-th on whose inode owns the
/// root before it too.
pub open spec fn shared_from(inodes: Seq<(Inode, Position)>, i: int) -> Option<NativeRefusal>
    decreases inodes.len() - i,
{
    if i < 1 || i >= inodes.len() {
        None
    } else if inodes[i].0 == inodes[i - 1].0 {
        Some(
            NativeRefusal::SharedInode {
                inode: inodes[i].0,
                first: inodes[i - 1].1,
                second: inodes[i].1,
            },
        )
    } else {
        shared_from(inodes, i + 1)
    }
}

fn find_shared(inodes: &Vec<(Inode, Position)>) -> (found: Option<NativeRefusal>)
    ensures
        found == shared_from(inodes@, 1),
{
    let mut i: usize = 1;
    while i < inodes.len()
        invariant
            1 <= i,
            shared_from(inodes@, 1) == shared_from(inodes@, i as int),
        decreases inodes.len() - i,
    {
        if inodes[i].0 == inodes[i - 1].0 {
            return Some(
                NativeRefusal::SharedInode {
                    inode: inodes[i].0,
                    first: inodes[i - 1].1,
                    second: inodes[i].1,
                },
            );
        }
        i = i + 1;
    }
    None
}

/// The hashes of the changes from the `i`-th on, after `found`.
pub open spec fn hashes_from(changes: Seq<SideChange>, i: int, found: Seq<Seq<char>>) -> Result<
    Seq<Seq<char>>,
    FaultModel,
>
    decreases changes.len() - i,
{
    if i < 0 || i >= changes.len() {
        Ok(found)
    } else {
        match changes[i].hash {
            None => Err(
                FaultModel::Refused(NativeRefusal::UnhashedSide { change: changes[i].id }),
            ),
            Some(hash) => hashes_from(changes, i + 1, found.push(hash@)),
        }
    }
}

fn collect_hashes(changes: &Vec<SideChange>) -> (found: Result<Vec<String>, NativeFault>)
    ensures
        match hashes_from(changes@, 0, Seq::empty()) {
            Err(model) => found matches Err(fault) && fault@ == model,
            Ok(list) => found matches Ok(hashes) && text::texts(hashes@) == list,
        },
{
    let mut hashes: Vec<String> = Vec::new();
    let mut i: usize = 0;
    proof {
        assert(text::texts(hashes@) =~= Seq::empty());
    }
    while i < changes.len()
        invariant
            i <= changes.len(),
            hashes_from(changes@, 0, Seq::empty()) == hashes_from(
                changes@,
                i as int,
                text::texts(hashes@),
            ),
        decreases changes.len() - i,
    {
        let ghost before = text::texts(hashes@);
        match &changes[i].hash {
            None => {
                return Err(
                    NativeFault::Refused(NativeRefusal::UnhashedSide { change: changes[i].id }),
                );
            },
            Some(hash) => {
                hashes.push(hash.clone());
                assert(text::texts(hashes@) =~= before.push(hash@));
            },
        }
        i = i + 1;
    }
    Ok(hashes)
}

/// One conflict to be stored for an inode on a view.
#[derive(Debug)]
pub struct ConflictEntry {
    pub view: u64,
    pub inode: Inode,
    pub record: StoredConflict,
}

/// What a [`ConflictEntry`] says.
pub ghost struct EntryModel {
    pub view: u64,
    pub inode: Inode,
    pub record: ConflictModel,
}

impl View for ConflictEntry {
    type V = EntryModel;

    open spec fn view(&self) -> EntryModel {
        EntryModel { view: self.view, inode: self.inode, record: self.record@ }
    }
}

/// What conflict entries say.
pub open spec fn entry_models(entries: Seq<ConflictEntry>) -> Seq<EntryModel> {
    entries.map_values(|e: ConflictEntry| e@)
}

/// `found` with the entries of a name conflict for the first `n` sides: one
/// for every side that stands at the contested path.
pub open spec fn with_sides(
    view: u64,
    path: Seq<char>,
    sides: Seq<ClaimedModel>,
    hashes: Seq<Seq<char>>,
    n: int,
    found: Seq<EntryModel>,
) -> Seq<EntryModel>
    decreases n,
{
    if n <= 0 {
        found
    } else {
        let rest = with_sides(view, path, sides, hashes, n - 1, found);
        let side = sides[n - 1];
        if side.path == path {
            rest.push(
                EntryModel {
                    view,
                    inode: side.inode,
                    record: ConflictModel {
                        kind: StoredConflictKind::Name,
                        path,
                        line: if side.is_directory {
                            None
                        } else {
                            Some(1u32)
                        },
                        sides: hashes,
                    },
                },
            )
        } else {
            rest
        }
    }
}

/// Adds the entries of the name conflicts from the `i`-th on.
pub open spec fn name_entries_from(
    view: u64,
    conflicts: Seq<ReducedConflict>,
    i: int,
    found: Seq<EntryModel>,
) -> Result<Seq<EntryModel>, FaultModel>
    decreases conflicts.len() - i,
{
    if i < 0 || i >= conflicts.len() {
        Ok(found)
    } else {
        match hashes_from(conflicts[i].changes@, 0, Seq::empty()) {
            Err(fault) => Err(fault),
            Ok(hashes) => {
                let sides = claimed_models(conflicts[i].sides@);
                name_entries_from(
                    view,
                    conflicts,
                    i + 1,
                    with_sides(
                        view,
                        conflicts[i].path@,
                        sides,
                        collections::sorted_set(hashes),
                        sides.len() as int,
                        found,
                    ),
                )
            },
        }
    }
}

/// Adds an entry for every file from the `i`-th on whose content carries
/// markers.
pub open spec fn order_entries_from(
    repo: Repository,
    visibility: Visibility,
    view: u64,
    present: Seq<ClaimedModel>,
    i: int,
    found: Seq<EntryModel>,
) -> Result<Seq<EntryModel>, FaultModel>
    decreases present.len() - i,
{
    if i < 0 || i >= present.len() {
        Ok(found)
    } else if present[i].is_directory {
        order_entries_from(repo, visibility, view, present, i + 1, found)
    } else {
        match content::file_bytes(repo, present[i].inode, present[i].position, visibility) {
            Err(message) => Err(FaultModel::Output(message)),
            Ok((bytes, _)) => order_entries_from(
                repo,
                visibility,
                view,
                present,
                i + 1,
                match conflict_markers::marker_line(bytes) {
                    None => found,
                    Some(line) => found.push(
                        EntryModel {
                            view,
                            inode: present[i].inode,
                            record: ConflictModel {
                                kind: StoredConflictKind::Order,
                                path: present[i].path,
                                line: Some(line),
                                sides: Seq::empty(),
                            },
                        },
                    ),
                },
            ),
        }
    }
}

/// Adds the conflicts of the views from the `k`-th on.
pub open spec fn view_entries_from(
    repo: Repository,
    reduced: Seq<ReducedView>,
    k: int,
    found: Seq<EntryModel>,
) -> Result<Seq<EntryModel>, FaultModel>
    decreases repo.views@.len() - k,
{
    if k < 0 || k >= repo.views@.len() {
        Ok(found)
    } else {
        match repo.views@[k].claims {
            Err(message) => Err(FaultModel::Database(message@)),
            Ok(visibility) => match name_entries_from(
                repo.views@[k].id,
                reduced[k].conflicts@,
                0,
                found,
            ) {
                Err(fault) => Err(fault),
                Ok(named) => match order_entries_from(
                    repo,
                    visibility,
                    repo.views@[k].id,
                    claimed_models(reduced[k].present@),
                    0,
                    named,
                ) {
                    Err(fault) => Err(fault),
                    Ok(all) => view_entries_from(repo, reduced, k + 1, all),
                },
            },
        }
    }
}

fn push_entry(entries: &mut Vec<ConflictEntry>, entry: ConflictEntry)
    ensures
        entry_models(final(entries)@) == entry_models(old(entries)@).push(entry@),
{
    let ghost before = entry_models(entries@);
    let ghost model = entry@;
    entries.push(entry);
    assert(entry_models(entries@) =~= before.push(model));
}

fn collect_name_entries(
    view: u64,
    conflicts: &Vec<ReducedConflict>,
    entries: &mut Vec<ConflictEntry>,
) -> (collected: Result<(), NativeFault>)
    ensures
        match name_entries_from(view, conflicts@, 0, entry_models(old(entries)@)) {
            Err(model) => collected matches Err(fault) && fault@ == model,
            Ok(list) => collected is Ok && entry_models(final(entries)@) == list,
        },
{
    let ghost start = entry_models(entries@);
    let mut i: usize = 0;
    while i < conflicts.len()
        invariant
            i <= conflicts.len(),
            start == entry_models(old(entries)@),
            name_entries_from(view, conflicts@, 0, start) == name_entries_from(
                view,
                conflicts@,
                i as int,
                entry_models(entries@),
            ),
        decreases conflicts.len() - i,
    {
        let conflict: &ReducedConflict = &conflicts[i];
        let hashes: Vec<String> = match collect_hashes(&conflict.changes) {
            Err(fault) => {
                return Err(fault);
            },
            Ok(hashes) => hashes,
        };
        let sorted: Vec<String> = collections::sorted_distinct(&hashes);
        proof {
            collections::sorted_set_is(text::texts(hashes@), text::texts(sorted@));
        }
        let ghost begun = entry_models(entries@);
        let ghost sides = claimed_models(conflict.sides@);
        let ghost marks = text::texts(sorted@);
        let mut n: usize = 0;
        while n < conflict.sides.len()
            invariant
                n <= conflict.sides.len(),
                sides == claimed_models(conflict.sides@),
                marks == text::texts(sorted@),
                entry_models(entries@) == with_sides(
                    view,
                    conflict.path@,
                    sides,
                    marks,
                    n as int,
                    begun,
                ),
            decreases conflict.sides.len() - n,
        {
            assert(sides[n as int] == conflict.sides@[n as int]@);
            let side: &ClaimedPath = &conflict.sides[n];
            if text::same(side.path.as_str(), conflict.path.as_str()) {
                let line: Option<u32> = if side.is_directory {
                    None
                } else {
                    Some(1)
                };
                push_entry(
                    entries,
                    ConflictEntry {
                        view,
                        inode: side.inode,
                        record: StoredConflict {
                            kind: StoredConflictKind::Name,
                            path: conflict.path.clone(),
                            line,
                            sides: text::dup_all(&sorted),
                        },
                    },
                );
            }
            n = n + 1;
        }
        i = i + 1;
    }
    Ok(())
}

impl Repository {
    fn collect_order_entries(
        &self,
        visibility: &Visibility,
        view: u64,
        present: &Vec<ClaimedPath>,
        entries: &mut Vec<ConflictEntry>,
    ) -> (collected: Result<(), NativeFault>)
        ensures
            match order_entries_from(
                *self,
                *visibility,
                view,
                claimed_models(present@),
                0,
                entry_models(old(entries)@),
            ) {
                Err(model) => collected matches Err(fault) && fault@ == model,
                Ok(list) => collected is Ok && entry_models(final(entries)@) == list,
            },
    {
        let ghost start = entry_models(entries@);
        let ghost sides = claimed_models(present@);
        let mut i: usize = 0;
        while i < present.len()
            invariant
                i <= present.len(),
                sides == claimed_models(present@),
                start == entry_models(old(entries)@),
                order_entries_from(*self, *visibility, view, sides, 0, start)
                    == order_entries_from(
                    *self,
                    *visibility,
                    view,
                    sides,
                    i as int,
                    entry_models(entries@),
                ),
            decreases present.len() - i,
        {
            let side: &ClaimedPath = &present[i];
            assert(sides[i as int] == side@);
            if !side.is_directory {
                match self.retrieve_content_with_filter_fast_with_fork_info(
                    side.inode,
                    side.position,
                    visibility,
                ) {
                    Err(error) => {
                        return Err(
                            match error {
                                RepositoryError::Database(message) => {
                                    NativeFault::Output(message)
                                },
                                _ => NativeFault::Output(String::new()),
                            },
                        );
                    },
                    Ok((bytes, _)) => {
                        if let Some(line) = conflict_markers::first_conflict_marker_line(
                            bytes.as_slice(),
                        ) {
                            let sides_none: Vec<String> = Vec::new();
                            assert(text::texts(sides_none@) =~= Seq::empty());
                            push_entry(
                                entries,
                                ConflictEntry {
                                    view,
                                    inode: side.inode,
                                    record: StoredConflict {
                                        kind: StoredConflictKind::Order,
                                        path: side.path.clone(),
                                        line: Some(line),
                                        sides: sides_none,
                                    },
                                },
                            );
                        }
                    },
                }
            }
            i = i + 1;
        }
        Ok(())
    }

    /// The conflicts that should be stored for all views.
    pub fn collect_expected_conflicts(&self, reduced: &Vec<ReducedView>) -> (found: Result<
        Vec<ConflictEntry>,
        NativeFault,
    >)
        requires
            reduced@.len() == self.views@.len(),
        ensures
            match view_entries_from(*self, reduced@, 0, Seq::empty()) {
                Err(model) => found matches Err(fault) && fault@ == model,
                Ok(list) => found matches Ok(entries) && entry_models(entries@) == list,
            },
    {
        let mut entries: Vec<ConflictEntry> = Vec::new();
        let mut k: usize = 0;
        proof {
            assert(entry_models(entries@) =~= Seq::empty());
        }
        while k < self.views.len()
            invariant
                k <= self.views.len(),
                reduced@.len() == self.views@.len(),
                view_entries_from(*self, reduced@, 0, Seq::empty()) == view_entries_from(
                    *self,
                    reduced@,
                    k as int,
                    entry_models(entries@),
                ),
            decreases self.views.len() - k,
        {
            match &self.views[k].claims {
                Err(message) => {
                    return Err(NativeFault::Database(message.clone()));
                },
                Ok(visibility) => {
                    match collect_name_entries(
                        self.views[k].id,
                        &reduced[k].conflicts,
                        &mut entries,
                    ) {
                        Err(fault) => {
                            return Err(fault);
                        },
                        Ok(_) => {},
                    }
                    match self.collect_order_entries(
                        visibility,
                        self.views[k].id,
                        &reduced[k].present,
                        &mut entries,
                    ) {
                        Err(fault) => {
                            return Err(fault);
                        },
                        Ok(_) => {},
                    }
                },
            }
            k = k + 1;
        }
        Ok(entries)
    }
}

/// The views and inodes of the first `n` entries, once each.
pub open spec fn entry_owners(entries: Seq<EntryModel>, n: int) -> Seq<(u64, Inode)>
    decreases n,
{
    if n <= 0 {
        Seq::empty()
    } else {
        let rest = entry_owners(entries, n - 1);
        let owner = (entries[n - 1].view, entries[n - 1].inode);
        if rest.contains(owner) {
            rest
        } else {
            rest.push(owner)
        }
    }
}

/// The records of one owner among the first `n` entries.
pub open spec fn records_of(entries: Seq<EntryModel>, owner: (u64, Inode), n: int) -> Seq<
    ConflictModel,
>
    decreases n,
{
    if n <= 0 {
        Seq::empty()
    } else {
        let rest = records_of(entries, owner, n - 1);
        if (entries[n - 1].view, entries[n - 1].inode) == owner {
            rest.push(entries[n - 1].record)
        } else {
            rest
        }
    }
}

/// The first `n` records without immediate repetitions.
pub open spec fn without_repeats(records: Seq<ConflictModel>, n: int) -> Seq<ConflictModel>
    decreases n,
{
    if n <= 0 {
        Seq::empty()
    } else {
        let rest = without_repeats(records, n - 1);
        if rest.len() > 0 && rest.last() == records[n - 1] {
            rest
        } else {
            rest.push(records[n - 1])
        }
    }
}

/// What is stored for one owner: its records in order, once each.
pub open spec fn stored_for(entries: Seq<EntryModel>, owner: (u64, Inode)) -> ConflictsModel {
    let records = records_of(entries, owner, entries.len() as int);
    let ordered = native_tables::ordered_records(records, records.len() as int);
    ConflictsModel {
        view: owner.0,
        inode: owner.1,
        records: without_repeats(ordered, ordered.len() as int),
    }
}

/// What is stored for every owner.
pub open spec fn stored_conflicts(entries: Seq<EntryModel>) -> Seq<ConflictsModel> {
    entry_owners(entries, entries.len() as int).map_values(
        |owner: (u64, Inode)| stored_for(entries, owner),
    )
}

fn holds_owner(owners: &Vec<(u64, Inode)>, owner: (u64, Inode)) -> (found: bool)
    ensures
        found == owners@.contains(owner),
{
    let mut i: usize = 0;
    while i < owners.len()
        invariant
            i <= owners.len(),
            forall|j: int| 0 <= j < i ==> owners@[j] != owner,
        decreases owners.len() - i,
    {
        if owners[i].0 == owner.0 && owners[i].1 == owner.1 {
            return true;
        }
        i = i + 1;
    }
    false
}

fn same_record(a: &StoredConflict, b: &StoredConflict) -> (equal: bool)
    ensures
        equal == (a@ == b@),
{
    let same_line: bool = match (a.line, b.line) {
        (Some(x), Some(y)) => x == y,
        (None, None) => true,
        _ => false,
    };
    if !(a.kind == b.kind && same_line && text::same(a.path.as_str(), b.path.as_str())
        && a.sides.len() == b.sides.len()) {
        assert(text::texts(a.sides@).len() == a.sides@.len());
        assert(text::texts(b.sides@).len() == b.sides@.len());
        return false;
    }
    let mut i: usize = 0;
    while i < a.sides.len()
        invariant
            i <= a.sides.len(),
            a.sides@.len() == b.sides@.len(),
            forall|j: int| 0 <= j < i ==> (#[trigger] a.sides@[j])@ == b.sides@[j]@,
        decreases a.sides.len() - i,
    {
        if !text::same(a.sides[i].as_str(), b.sides[i].as_str()) {
            assert(text::texts(a.sides@)[i as int] != text::texts(b.sides@)[i as int]);
            return false;
        }
        i = i + 1;
    }
    assert(text::texts(a.sides@) =~= text::texts(b.sides@));
    true
}

fn drop_repeats(records: &Vec<StoredConflict>) -> (kept: Vec<StoredConflict>)
    ensures
        native_tables::record_models(kept@) == without_repeats(
            native_tables::record_models(records@),
            records@.len() as int,
        ),
{
    let ghost models = native_tables::record_models(records@);
    let mut kept: Vec<StoredConflict> = Vec::new();
    let mut n: usize = 0;
    proof {
        assert(native_tables::record_models(kept@) =~= Seq::empty());
    }
    while n < records.len()
        invariant
            n <= records.len(),
            models == native_tables::record_models(records@),
            native_tables::record_models(kept@) == without_repeats(models, n as int),
        decreases records.len() - n,
    {
        let ghost before = native_tables::record_models(kept@);
        assert(models[n as int] == records@[n as int]@);
        assert(before.len() == kept@.len());
        let repeated: bool = if kept.len() > 0 {
            assert(before.last() == kept@[kept@.len() - 1]@);
            same_record(&kept[kept.len() - 1], &records[n])
        } else {
            false
        };
        if !repeated {
            kept.push(repository::dup_conflict(&records[n]));
            assert(native_tables::record_models(kept@) =~= before.push(models[n as int]));
        }
        n = n + 1;
    }
    kept
}

fn group_conflicts(entries: &Vec<ConflictEntry>) -> (rows: Vec<NativeConflicts>)
    ensures
        native_tables::conflicts_models(rows@) == stored_conflicts(entry_models(entries@)),
{
    let ghost models = entry_models(entries@);
    let mut owners: Vec<(u64, Inode)> = Vec::new();
    let mut n: usize = 0;
    while n < entries.len()
        invariant
            n <= entries.len(),
            models == entry_models(entries@),
            owners@ == entry_owners(models, n as int),
        decreases entries.len() - n,
    {
        assert(models[n as int] == entries@[n as int]@);
        let owner: (u64, Inode) = (entries[n].view, entries[n].inode);
        if !holds_owner(&owners, owner) {
            owners.push(owner);
        }
        n = n + 1;
    }
    let ghost all = stored_conflicts(models);
    let mut rows: Vec<NativeConflicts> = Vec::new();
    let mut k: usize = 0;
    while k < owners.len()
        invariant
            k <= owners.len(),
            models == entry_models(entries@),
            owners@ == entry_owners(models, models.len() as int),
            all == stored_conflicts(models),
            native_tables::conflicts_models(rows@) =~= all.take(k as int),
        decreases owners.len() - k,
    {
        let owner: (u64, Inode) = owners[k];
        let mut records: Vec<StoredConflict> = Vec::new();
        let mut i: usize = 0;
        proof {
            assert(native_tables::record_models(records@) =~= Seq::empty());
        }
        while i < entries.len()
            invariant
                i <= entries.len(),
                models == entry_models(entries@),
                native_tables::record_models(records@) == records_of(models, owner, i as int),
            decreases entries.len() - i,
        {
            let ghost before = native_tables::record_models(records@);
            assert(models[i as int] == entries@[i as int]@);
            if entries[i].view == owner.0 && entries[i].inode == owner.1 {
                records.push(repository::dup_conflict(&entries[i].record));
                assert(native_tables::record_models(records@) =~= before.push(
                    models[i as int].record,
                ));
            }
            i = i + 1;
        }
        let ordered: Vec<StoredConflict> = native_tables::order_records(&records);
        assert(native_tables::record_models(records@).len() == records@.len());
        assert(native_tables::record_models(ordered@).len() == ordered@.len());
        let row = NativeConflicts {
            view: owner.0,
            inode: owner.1,
            records: drop_repeats(&ordered),
        };
        let ghost before = native_tables::conflicts_models(rows@);
        let ghost model = row@;
        assert(model == stored_for(models, owner));
        assert(all[k as int] == model);
        rows.push(row);
        assert(native_tables::conflicts_models(rows@) =~= before.push(model));
        k = k + 1;
    }
    assert(all.take(k as int) =~= all);
    rows
}

/// The tree while it is built.
pub ghost struct TreeModel {
    pub tree: Seq<(Seq<char>, Inode)>,
    pub reverse: Seq<(Inode, Seq<char>)>,
    /// Paths that were added and never recorded.
    pub staged: Seq<Seq<char>>,
    /// Directories that were added and never recorded.
    pub staged_directories: Seq<(Inode, Seq<char>)>,
}

/// A tree without paths.
pub open spec fn empty_tree() -> TreeModel {
    TreeModel {
        tree: Seq::empty(),
        reverse: Seq::empty(),
        staged: Seq::empty(),
        staged_directories: Seq::empty(),
    }
}

/// The tree with one more path; a path keeps its inode, and an inode its path.
pub open spec fn with_pair(tree: TreeModel, path: Seq<char>, inode: Inode) -> Result<
    TreeModel,
    PathRefusalModel,
> {
    let known = pristine::first_value(tree.tree, path);
    let place = pristine::first_value(tree.reverse, inode);
    if known is Some && known->0 != inode {
        Err(PathRefusalModel::SharedPath { path, inode: known->0, other: inode })
    } else if place is Some && place->0 != path {
        Err(PathRefusalModel::InodeAtTwoPaths { inode, first: place->0, second: path })
    } else {
        Ok(
            TreeModel {
                tree: if known is Some {
                    tree.tree
                } else {
                    tree.tree.push((path, inode))
                },
                reverse: if place is Some {
                    tree.reverse
                } else {
                    tree.reverse.push((inode, path))
                },
                ..tree
            },
        )
    }
}

/// Adds the present paths from the `i`-th on.
pub open spec fn present_from(present: Seq<ClaimedModel>, i: int, tree: TreeModel) -> Result<
    TreeModel,
    PathRefusalModel,
>
    decreases present.len() - i,
{
    if i < 0 || i >= present.len() {
        Ok(tree)
    } else {
        match with_pair(tree, present[i].path, present[i].inode) {
            Err(refusal) => Err(refusal),
            Ok(tree) => present_from(present, i + 1, tree),
        }
    }
}

/// Whether a change ever recorded an inode.
pub open spec fn is_recorded(inodes: Seq<(Inode, Position)>, inode: Inode) -> bool {
    pristine::first_value(inodes, inode) is Some
}

/// The tree with one stored path that no change recorded.
pub open spec fn with_staged(
    tables: PristineModel,
    flags: Seq<(Inode, u8)>,
    path: Seq<char>,
    inode: Inode,
    tree: TreeModel,
) -> Result<TreeModel, PathRefusalModel> {
    if tables.inode_position(inode) is Some {
        Err(PathRefusalModel::StagedBinding { path, inode })
    } else if tables.path(inode) != Some(path) {
        Err(PathRefusalModel::StagedNotBijective { path, inode })
    } else {
        match with_pair(tree, path, inode) {
            Err(refusal) => Err(refusal),
            Ok(grown) => {
                let kept = TreeModel { staged: grown.staged.push(path), ..grown };
                match pristine::first_value(flags, inode) {
                    None => Ok(kept),
                    Some(bits) => if bits > DIR_EXPLICIT + DIR_EMPTY {
                        Err(PathRefusalModel::StagedFlags { inode, flags: bits })
                    } else {
                        Ok(
                            TreeModel {
                                staged_directories: kept.staged_directories.push((inode, path)),
                                ..kept
                            },
                        )
                    },
                }
            },
        }
    }
}

/// Adds the stored paths from the `i`-th on that no change recorded.
pub open spec fn staged_from(
    tables: PristineModel,
    flags: Seq<(Inode, u8)>,
    inodes: Seq<(Inode, Position)>,
    i: int,
    tree: TreeModel,
) -> Result<TreeModel, PathRefusalModel>
    decreases tables.tree.len() - i,
{
    if i < 0 || i >= tables.tree.len() {
        Ok(tree)
    } else if is_recorded(inodes, tables.tree[i].1) {
        staged_from(tables, flags, inodes, i + 1, tree)
    } else {
        match with_staged(tables, flags, tables.tree[i].0, tables.tree[i].1, tree) {
            Err(refusal) => Err(refusal),
            Ok(tree) => staged_from(tables, flags, inodes, i + 1, tree),
        }
    }
}

/// What is wrong with the stored reverse rows from the `i`-th on that no
/// change recorded.
pub open spec fn reverse_refusal_from(
    tables: PristineModel,
    inodes: Seq<(Inode, Position)>,
    tree: Seq<(Seq<char>, Inode)>,
    i: int,
) -> Option<PathRefusalModel>
    decreases tables.rev_tree.len() - i,
{
    if i < 0 || i >= tables.rev_tree.len() {
        None
    } else {
        let inode = tables.rev_tree[i].0;
        if is_recorded(inodes, inode) {
            reverse_refusal_from(tables, inodes, tree, i + 1)
        } else if tables.inode_position(inode) is Some {
            Some(PathRefusalModel::ReverseBinding { path: tables.rev_tree[i].1, inode })
        } else if pristine::first_value(tree, tables.rev_tree[i].1) != Some(inode) {
            Some(PathRefusalModel::ReverseNotBijective { path: tables.rev_tree[i].1, inode })
        } else {
            reverse_refusal_from(tables, inodes, tree, i + 1)
        }
    }
}

/// The tree that the current view and staging come to.
pub open spec fn expected_tree(
    tables: PristineModel,
    flags: Seq<(Inode, u8)>,
    inodes: Seq<(Inode, Position)>,
    present: Seq<ClaimedModel>,
) -> Result<TreeModel, PathRefusalModel> {
    match present_from(present, 0, empty_tree()) {
        Err(refusal) => Err(refusal),
        Ok(shown) => match staged_from(tables, flags, inodes, 0, shown) {
            Err(refusal) => Err(refusal),
            Ok(tree) => match reverse_refusal_from(tables, inodes, tree.tree, 0) {
                Some(refusal) => Err(refusal),
                None => Ok(tree),
            },
        },
    }
}

struct TreeBuild {
    tree: Vec<(String, Inode)>,
    reverse: Vec<(Inode, String)>,
    staged: Vec<String>,
    staged_directories: Vec<(Inode, String)>,
}

impl View for TreeBuild {
    type V = TreeModel;

    closed spec fn view(&self) -> TreeModel {
        TreeModel {
            tree: native_tables::tree_models(self.tree@),
            reverse: native_tables::rev_tree_models(self.reverse@),
            staged: text::texts(self.staged@),
            staged_directories: native_tables::rev_tree_models(self.staged_directories@),
        }
    }
}

fn find_path(tree: &Vec<(String, Inode)>, path: &str) -> (found: Option<Inode>)
    ensures
        found == pristine::first_value(native_tables::tree_models(tree@), path@),
{
    let ghost pairs = native_tables::tree_models(tree@);
    let mut i: usize = 0;
    proof {
        assert(pairs.skip(0) =~= pairs);
    }
    while i < tree.len()
        invariant
            i <= tree.len(),
            pairs == native_tables::tree_models(tree@),
            pristine::first_value(pairs, path@) == pristine::first_value(
                pairs.skip(i as int),
                path@,
            ),
        decreases tree.len() - i,
    {
        assert(pairs.skip(i as int).drop_first() =~= pairs.skip(i + 1));
        assert(pairs.skip(i as int)[0] == pairs[i as int]);
        if text::same(tree[i].0.as_str(), path) {
            return Some(tree[i].1);
        }
        i = i + 1;
    }
    None
}

fn find_place(reverse: &Vec<(Inode, String)>, inode: Inode) -> (found: Option<usize>)
    ensures
        match found {
            Some(i) => i < reverse@.len() && pristine::first_value(
                native_tables::rev_tree_models(reverse@),
                inode,
            ) == Some(reverse@[i as int].1@),
            None => pristine::first_value(native_tables::rev_tree_models(reverse@), inode) is None,
        },
{
    let ghost pairs = native_tables::rev_tree_models(reverse@);
    let mut i: usize = 0;
    proof {
        assert(pairs.skip(0) =~= pairs);
    }
    while i < reverse.len()
        invariant
            i <= reverse.len(),
            pairs == native_tables::rev_tree_models(reverse@),
            pristine::first_value(pairs, inode) == pristine::first_value(
                pairs.skip(i as int),
                inode,
            ),
        decreases reverse.len() - i,
    {
        assert(pairs.skip(i as int).drop_first() =~= pairs.skip(i + 1));
        assert(pairs.skip(i as int)[0] == pairs[i as int]);
        if reverse[i].0 == inode {
            return Some(i);
        }
        i = i + 1;
    }
    None
}

fn insert_tree_pair(build: &mut TreeBuild, path: &str, inode: Inode) -> (inserted: Result<
    (),
    PathRefusal,
>)
    ensures
        match with_pair(old(build)@, path@, inode) {
            Err(refusal) => inserted matches Err(told) && told@ == refusal,
            Ok(tree) => inserted is Ok && final(build)@ == tree,
        },
{
    let ghost before = build@;
    let known: Option<Inode> = find_path(&build.tree, path);
    if let Some(other) = known {
        if other != inode {
            return Err(PathRefusal::SharedPath { path: path.to_owned(), inode: other, other: inode });
        }
    }
    let place: Option<usize> = find_place(&build.reverse, inode);
    if let Some(at) = place {
        if !text::same(build.reverse[at].1.as_str(), path) {
            return Err(
                PathRefusal::InodeAtTwoPaths {
                    inode,
                    first: build.reverse[at].1.clone(),
                    second: path.to_owned(),
                },
            );
        }
    }
    if known.is_none() {
        build.tree.push((path.to_owned(), inode));
        assert(native_tables::tree_models(build.tree@) =~= before.tree.push((path@, inode)));
    }
    if place.is_none() {
        build.reverse.push((inode, path.to_owned()));
        assert(native_tables::rev_tree_models(build.reverse@) =~= before.reverse.push(
            (inode, path@),
        ));
    }
    Ok(())
}

fn stage_path(
    tables: &Pristine,
    flags: &Vec<(Inode, u8)>,
    path: &str,
    inode: Inode,
    build: &mut TreeBuild,
) -> (staged: Result<(), PathRefusal>)
    ensures
        match with_staged(tables@, flags@, path@, inode, old(build)@) {
            Err(refusal) => staged matches Err(told) && told@ == refusal,
            Ok(tree) => staged is Ok && final(build)@ == tree,
        },
{
    if tables.inode_position(inode).is_some() {
        return Err(PathRefusal::StagedBinding { path: path.to_owned(), inode });
    }
    let bijective: bool = match tables.get_path(inode) {
        Some(stored) => text::same(stored.as_str(), path),
        None => false,
    };
    if !bijective {
        return Err(PathRefusal::StagedNotBijective { path: path.to_owned(), inode });
    }
    match insert_tree_pair(build, path, inode) {
        Err(refusal) => {
            return Err(refusal);
        },
        Ok(_) => {},
    }
    let ghost grown = build@;
    build.staged.push(path.to_owned());
    assert(text::texts(build.staged@) =~= grown.staged.push(path@));
    if let Some(bits) = pristine::find_value(flags, inode) {
        if bits > DIR_EXPLICIT + DIR_EMPTY {
            return Err(PathRefusal::StagedFlags { inode, flags: bits });
        }
        build.staged_directories.push((inode, path.to_owned()));
        assert(native_tables::rev_tree_models(build.staged_directories@)
            =~= grown.staged_directories.push((inode, path@)));
    }
    Ok(())
}

fn find_reverse_refusal(
    tables: &Pristine,
    inodes: &Vec<(Inode, Position)>,
    tree: &Vec<(String, Inode)>,
) -> (refusal: Option<PathRefusal>)
    ensures
        match reverse_refusal_from(tables@, inodes@, native_tables::tree_models(tree@), 0) {
            Some(model) => refusal matches Some(told) && told@ == model,
            None => refusal is None,
        },
{
    let ghost model = native_tables::tree_models(tree@);
    let mut i: usize = 0;
    while i < tables.rev_tree.len()
        invariant
            i <= tables.rev_tree.len(),
            model == native_tables::tree_models(tree@),
            reverse_refusal_from(tables@, inodes@, model, 0) == reverse_refusal_from(
                tables@,
                inodes@,
                model,
                i as int,
            ),
        decreases tables.rev_tree.len() - i,
    {
        let inode: Inode = tables.rev_tree[i].0;
        assert(tables@.rev_tree[i as int] == (inode, tables.rev_tree@[i as int].1@));
        if pristine::find_value(inodes, inode).is_none() {
            if tables.inode_position(inode).is_some() {
                return Some(PathRefusal::ReverseBinding { path: tables.rev_tree[i].1.clone(), inode });
            }
            let matched: bool = match find_path(tree, tables.rev_tree[i].1.as_str()) {
                Some(found) => found == inode,
                None => false,
            };
            if !matched {
                return Some(PathRefusal::ReverseNotBijective { path: tables.rev_tree[i].1.clone(), inode });
            }
        }
        i = i + 1;
    }
    None
}

fn build_tree(
    tables: &Pristine,
    flags: &Vec<(Inode, u8)>,
    inodes: &Vec<(Inode, Position)>,
    present: &Vec<ClaimedPath>,
) -> (built: Result<TreeBuild, PathRefusal>)
    ensures
        match expected_tree(tables@, flags@, inodes@, claimed_models(present@)) {
            Err(refusal) => built matches Err(told) && told@ == refusal,
            Ok(tree) => built matches Ok(build) && build@ == tree,
        },
{
    let ghost sides = claimed_models(present@);
    let mut build = TreeBuild {
        tree: Vec::new(),
        reverse: Vec::new(),
        staged: Vec::new(),
        staged_directories: Vec::new(),
    };
    let ghost empty = build@;
    proof {
        assert(empty.tree =~= Seq::empty());
        assert(empty.reverse =~= Seq::empty());
        assert(empty.staged =~= Seq::empty());
        assert(empty.staged_directories =~= Seq::empty());
    }
    let mut i: usize = 0;
    while i < present.len()
        invariant
            i <= present.len(),
            sides == claimed_models(present@),
            present_from(sides, 0, empty_tree()) == present_from(sides, i as int, build@),
        decreases present.len() - i,
    {
        assert(sides[i as int] == present@[i as int]@);
        match insert_tree_pair(&mut build, present[i].path.as_str(), present[i].inode) {
            Err(refusal) => {
                return Err(refusal);
            },
            Ok(_) => {},
        }
        i = i + 1;
    }
    let ghost shown = build@;
    let mut k: usize = 0;
    while k < tables.tree.len()
        invariant
            k <= tables.tree.len(),
            sides == claimed_models(present@),
            present_from(sides, 0, empty_tree()) == Ok::<TreeModel, PathRefusalModel>(shown),
            staged_from(tables@, flags@, inodes@, 0, shown) == staged_from(
                tables@,
                flags@,
                inodes@,
                k as int,
                build@,
            ),
        decreases tables.tree.len() - k,
    {
        let inode: Inode = tables.tree[k].1;
        assert(tables@.tree[k as int] == (tables.tree@[k as int].0@, inode));
        if pristine::find_value(inodes, inode).is_none() {
            match stage_path(tables, flags, tables.tree[k].0.as_str(), inode, &mut build) {
                Err(refusal) => {
                    return Err(refusal);
                },
                Ok(_) => {},
            }
        }
        k = k + 1;
    }
    match find_reverse_refusal(tables, inodes, &build.tree) {
        Some(refusal) => Err(refusal),
        None => Ok(build),
    }
}

/// A tree in which paths and inodes name each other.
pub open spec fn bijective(tree: TreeModel) -> bool {
    forall|path: Seq<char>, inode: Inode|
        #![trigger pristine::first_value(tree.tree, path), pristine::first_value(
            tree.reverse,
            inode,
        )]
        pristine::first_value(tree.tree, path) == Some(inode) <==> pristine::first_value(
            tree.reverse,
            inode,
        ) == Some(path)
}

proof fn pair_keeps_bijective(tree: TreeModel, path: Seq<char>, inode: Inode)
    requires
        bijective(tree),
    ensures
        with_pair(tree, path, inode) matches Ok(grown) ==> bijective(grown),
{
    if let Ok(grown) = with_pair(tree, path, inode) {
        assert(pristine::first_value(tree.tree, path) == Some(inode) <==> pristine::first_value(
            tree.reverse,
            inode,
        ) == Some(path));
        assert forall|p: Seq<char>, i: Inode|
            #![trigger pristine::first_value(grown.tree, p), pristine::first_value(
                grown.reverse,
                i,
            )]
            pristine::first_value(grown.tree, p) == Some(i) <==> pristine::first_value(
                grown.reverse,
                i,
            ) == Some(p) by {
            pristine::pushed_first(tree.tree, path, inode, p);
            pristine::pushed_first(tree.reverse, inode, path, i);
            assert(pristine::first_value(tree.tree, p) == Some(i) <==> pristine::first_value(
                tree.reverse,
                i,
            ) == Some(p));
        }
    }
}

proof fn present_keeps_bijective(present: Seq<ClaimedModel>, i: int, tree: TreeModel)
    requires
        bijective(tree),
    ensures
        present_from(present, i, tree) matches Ok(grown) ==> bijective(grown),
    decreases present.len() - i,
{
    if 0 <= i < present.len() {
        pair_keeps_bijective(tree, present[i].path, present[i].inode);
        if let Ok(grown) = with_pair(tree, present[i].path, present[i].inode) {
            present_keeps_bijective(present, i + 1, grown);
        }
    }
}

proof fn staged_keeps_bijective(
    tables: PristineModel,
    flags: Seq<(Inode, u8)>,
    inodes: Seq<(Inode, Position)>,
    i: int,
    tree: TreeModel,
)
    requires
        bijective(tree),
    ensures
        staged_from(tables, flags, inodes, i, tree) matches Ok(grown) ==> bijective(grown),
    decreases tables.tree.len() - i,
{
    if 0 <= i < tables.tree.len() {
        if is_recorded(inodes, tables.tree[i].1) {
            staged_keeps_bijective(tables, flags, inodes, i + 1, tree);
        } else {
            pair_keeps_bijective(tree, tables.tree[i].0, tables.tree[i].1);
            if let Ok(grown) = with_staged(
                tables,
                flags,
                tables.tree[i].0,
                tables.tree[i].1,
                tree,
            ) {
                let kept = with_pair(tree, tables.tree[i].0, tables.tree[i].1)->Ok_0;
                assert(grown.tree == kept.tree && grown.reverse == kept.reverse);
                assert(bijective(grown)) by {
                    assert(bijective(kept));
                }
                staged_keeps_bijective(tables, flags, inodes, i + 1, grown);
            }
        }
    }
}

/// A rebuilt tree is one to one: a path stands for an inode exactly when the
/// inode stands at that path.
pub proof fn rebuilt_tree_is_bijective(
    tables: PristineModel,
    flags: Seq<(Inode, u8)>,
    inodes: Seq<(Inode, Position)>,
    present: Seq<ClaimedModel>,
)
    ensures
        expected_tree(tables, flags, inodes, present) matches Ok(tree) ==> bijective(tree),
{
    assert(bijective(empty_tree())) by {
        assert forall|p: Seq<char>| #[trigger]
            pristine::first_value(Seq::<(Seq<char>, Inode)>::empty(), p) is None by {}
        assert forall|i: Inode| #[trigger]
            pristine::first_value(Seq::<(Inode, Seq<char>)>::empty(), i) is None by {}
    }
    present_keeps_bijective(present, 0, empty_tree());
    if let Ok(shown) = present_from(present, 0, empty_tree()) {
        staged_keeps_bijective(tables, flags, inodes, 0, shown);
    }
}

/// The claims of the first `n` conflicts.
pub open spec fn conflict_sides(conflicts: Seq<ReducedConflict>, n: int) -> Seq<ClaimedModel>
    decreases n,
{
    if n <= 0 {
        Seq::empty()
    } else {
        conflict_sides(conflicts, n - 1) + claimed_models(conflicts[n - 1].sides@)
    }
}

/// Everything that a view shows or contests.
pub open spec fn all_sides(view: ReducedView) -> Seq<ClaimedModel> {
    claimed_models(view.present@) + conflict_sides(view.conflicts@, view.conflicts@.len() as int)
}

/// The directories among the first `n` claims, with their paths.
pub open spec fn directory_sides(sides: Seq<ClaimedModel>, n: int) -> Seq<(Inode, Seq<char>)>
    decreases n,
{
    if n <= 0 {
        Seq::empty()
    } else {
        let rest = directory_sides(sides, n - 1);
        if sides[n - 1].is_directory {
            rest.push((sides[n - 1].inode, sides[n - 1].path))
        } else {
            rest
        }
    }
}

/// Whether something lies directly below one of a directory's paths.
pub open spec fn has_entry(
    directories: Seq<(Inode, Seq<char>)>,
    alive: Seq<Seq<char>>,
    inode: Inode,
) -> bool {
    exists|d: int, a: int|
        #![trigger directories[d], alive[a]]
        0 <= d < directories.len() && 0 <= a < alive.len() && directories[d].0 == inode
            && text::parent(alive[a]) == Some(directories[d].1)
}

/// The flags of a directory.
pub open spec fn directory_flags(
    directories: Seq<(Inode, Seq<char>)>,
    alive: Seq<Seq<char>>,
    inode: Inode,
) -> u8 {
    if has_entry(directories, alive, inode) {
        DIR_EXPLICIT
    } else {
        3u8
    }
}

/// The inodes of the first `n` directories, once each, with their flags.
pub open spec fn flagged_directories(
    directories: Seq<(Inode, Seq<char>)>,
    alive: Seq<Seq<char>>,
    n: int,
) -> Seq<(Inode, u8)>
    decreases n,
{
    if n <= 0 {
        Seq::empty()
    } else {
        let rest = flagged_directories(directories, alive, n - 1);
        let inode = directories[n - 1].0;
        if pristine::first_value(rest, inode) is Some {
            rest
        } else {
            rest.push((inode, directory_flags(directories, alive, inode)))
        }
    }
}

/// The directories that the current view and staging come to.
pub open spec fn expected_directories(view: ReducedView, tree: TreeModel) -> Seq<(Inode, u8)> {
    let sides = all_sides(view);
    let directories = directory_sides(sides, sides.len() as int) + tree.staged_directories;
    let alive = sides.map_values(|s: ClaimedModel| s.path) + tree.staged;
    flagged_directories(directories, alive, directories.len() as int)
}

fn push_directory(directories: &mut Vec<(Inode, String)>, inode: Inode, path: &str)
    ensures
        native_tables::rev_tree_models(final(directories)@) == native_tables::rev_tree_models(
            old(directories)@,
        ).push((inode, path@)),
{
    let ghost before = native_tables::rev_tree_models(directories@);
    directories.push((inode, path.to_owned()));
    assert(native_tables::rev_tree_models(directories@) =~= before.push((inode, path@)));
}

fn list_sides(
    sides: &Vec<ClaimedPath>,
    directories: &mut Vec<(Inode, String)>,
    alive: &mut Vec<String>,
    Ghost(seen): Ghost<Seq<ClaimedModel>>,
)
    requires
        native_tables::rev_tree_models(old(directories)@) == directory_sides(
            seen,
            seen.len() as int,
        ),
        text::texts(old(alive)@) == seen.map_values(|s: ClaimedModel| s.path),
    ensures
        ({
            let now = seen + claimed_models(sides@);
            &&& native_tables::rev_tree_models(final(directories)@) == directory_sides(
                now,
                now.len() as int,
            )
            &&& text::texts(final(alive)@) == now.map_values(|s: ClaimedModel| s.path)
        }),
{
    let ghost models = claimed_models(sides@);
    let ghost path_of = |s: ClaimedModel| s.path;
    let ghost whole = seen + models;
    let mut i: usize = 0;
    proof {
        directory_prefix_of(seen, models, seen.len() as int);
        assert((seen + models.take(0)).map_values(path_of) =~= seen.map_values(path_of));
    }
    while i < sides.len()
        invariant
            i <= sides.len(),
            models == claimed_models(sides@),
            path_of == (|s: ClaimedModel| s.path),
            whole == seen + models,
            native_tables::rev_tree_models(directories@) == directory_sides(
                whole,
                seen.len() + i,
            ),
            text::texts(alive@) == (seen + models.take(i as int)).map_values(path_of),
        decreases sides.len() - i,
    {
        let side: &ClaimedPath = &sides[i];
        assert(models[i as int] == side@);
        assert(whole[seen.len() + i] == side@);
        let ghost before = text::texts(alive@);
        if side.is_directory {
            push_directory(directories, side.inode, side.path.as_str());
        }
        alive.push(side.path.clone());
        assert(text::texts(alive@) =~= before.push(side@.path));
        assert((seen + models.take(i + 1)).map_values(path_of) =~= before.push(side@.path));
        i = i + 1;
    }
    assert(models.take(i as int) =~= models);
}

proof fn directory_prefix_of(seen: Seq<ClaimedModel>, more: Seq<ClaimedModel>, n: int)
    requires
        0 <= n <= seen.len(),
    ensures
        directory_sides(seen + more, n) == directory_sides(seen, n),
    decreases n,
{
    if n > 0 {
        directory_prefix_of(seen, more, n - 1);
    }
}

fn find_entry(directories: &Vec<(Inode, String)>, alive: &Vec<String>, inode: Inode) -> (found: bool)
    ensures
        found == has_entry(
            native_tables::rev_tree_models(directories@),
            text::texts(alive@),
            inode,
        ),
{
    let ghost dirs = native_tables::rev_tree_models(directories@);
    let ghost paths = text::texts(alive@);
    let mut d: usize = 0;
    while d < directories.len()
        invariant
            d <= directories.len(),
            dirs == native_tables::rev_tree_models(directories@),
            paths == text::texts(alive@),
            forall|x: int, a: int|
                #![trigger dirs[x], paths[a]]
                0 <= x < d && 0 <= a < paths.len() ==> !(dirs[x].0 == inode && text::parent(
                    paths[a],
                ) == Some(dirs[x].1)),
        decreases directories.len() - d,
    {
        assert(dirs[d as int] == (directories@[d as int].0, directories@[d as int].1@));
        if directories[d].0 == inode {
            let mut a: usize = 0;
            while a < alive.len()
                invariant
                    a <= alive.len(),
                    d < directories.len(),
                    dirs == native_tables::rev_tree_models(directories@),
                    paths == text::texts(alive@),
                    dirs[d as int] == (inode, directories@[d as int].1@),
                    forall|y: int|
                        0 <= y < a ==> text::parent(#[trigger] paths[y]) != Some(
                            dirs[d as int].1,
                        ),
                decreases alive.len() - a,
            {
                assert(paths[a as int] == alive@[a as int]@);
                if let Some(parent) = text::parent_of(alive[a].as_str()) {
                    if text::same(parent.as_str(), directories[d].1.as_str()) {
                        assert(text::parent(paths[a as int]) == Some(dirs[d as int].1));
                        return true;
                    }
                }
                a = a + 1;
            }
        }
        d = d + 1;
    }
    false
}

fn flag_directories(directories: &Vec<(Inode, String)>, alive: &Vec<String>) -> (flagged: Vec<
    (Inode, u8),
>)
    ensures
        flagged@ == flagged_directories(
            native_tables::rev_tree_models(directories@),
            text::texts(alive@),
            directories@.len() as int,
        ),
{
    let ghost dirs = native_tables::rev_tree_models(directories@);
    let ghost paths = text::texts(alive@);
    let mut flagged: Vec<(Inode, u8)> = Vec::new();
    let mut n: usize = 0;
    while n < directories.len()
        invariant
            n <= directories.len(),
            dirs == native_tables::rev_tree_models(directories@),
            paths == text::texts(alive@),
            flagged@ == flagged_directories(dirs, paths, n as int),
        decreases directories.len() - n,
    {
        let inode: Inode = directories[n].0;
        assert(dirs[n as int].0 == inode);
        if pristine::find_value(&flagged, inode).is_none() {
            let flags: u8 = if find_entry(directories, alive, inode) {
                DIR_EXPLICIT
            } else {
                DIR_EXPLICIT + DIR_EMPTY
            };
            flagged.push((inode, flags));
        }
        n = n + 1;
    }
    flagged
}

fn build_directories(view: &ReducedView, build: &TreeBuild) -> (flagged: Vec<(Inode, u8)>)
    ensures
        flagged@ == expected_directories(*view, build@),
{
    let ghost path_of = |s: ClaimedModel| s.path;
    let mut directories: Vec<(Inode, String)> = Vec::new();
    let mut alive: Vec<String> = Vec::new();
    let ghost mut seen: Seq<ClaimedModel> = Seq::empty();
    proof {
        assert(native_tables::rev_tree_models(directories@) =~= Seq::empty());
        assert(text::texts(alive@) =~= seen.map_values(path_of));
    }
    list_sides(&view.present, &mut directories, &mut alive, Ghost(seen));
    proof {
        seen = claimed_models(view.present@);
        assert(Seq::<ClaimedModel>::empty() + seen =~= seen);
    }
    let ghost shown = seen;
    let mut c: usize = 0;
    proof {
        assert(shown + conflict_sides(view.conflicts@, 0) =~= shown);
    }
    while c < view.conflicts.len()
        invariant
            c <= view.conflicts.len(),
            path_of == (|s: ClaimedModel| s.path),
            seen == shown + conflict_sides(view.conflicts@, c as int),
            native_tables::rev_tree_models(directories@) == directory_sides(
                seen,
                seen.len() as int,
            ),
            text::texts(alive@) == seen.map_values(path_of),
        decreases view.conflicts.len() - c,
    {
        list_sides(&view.conflicts[c].sides, &mut directories, &mut alive, Ghost(seen));
        proof {
            let more = claimed_models(view.conflicts@[c as int].sides@);
            assert(seen + more =~= shown + conflict_sides(view.conflicts@, c + 1));
            seen = shown + conflict_sides(view.conflicts@, c + 1);
        }
        c = c + 1;
    }
    let ghost dirs = native_tables::rev_tree_models(directories@);
    let ghost paths = text::texts(alive@);
    let ghost late = build@.staged_directories;
    let mut k: usize = 0;
    proof {
        assert(dirs + late.take(0) =~= dirs);
    }
    while k < build.staged_directories.len()
        invariant
            k <= build.staged_directories.len(),
            late == native_tables::rev_tree_models(build.staged_directories@),
            native_tables::rev_tree_models(directories@) == dirs + late.take(k as int),
        decreases build.staged_directories.len() - k,
    {
        let ghost before = native_tables::rev_tree_models(directories@);
        assert(late[k as int] == (
            build.staged_directories@[k as int].0,
            build.staged_directories@[k as int].1@,
        ));
        push_directory(
            &mut directories,
            build.staged_directories[k].0,
            build.staged_directories[k].1.as_str(),
        );
        assert(dirs + late.take(k + 1) =~= before.push(late[k as int]));
        k = k + 1;
    }
    assert(late.take(k as int) =~= late);
    let mut s: usize = 0;
    let ghost extra = build@.staged;
    proof {
        assert(paths + extra.take(0) =~= paths);
    }
    while s < build.staged.len()
        invariant
            s <= build.staged.len(),
            extra == text::texts(build.staged@),
            text::texts(alive@) == paths + extra.take(s as int),
        decreases build.staged.len() - s,
    {
        let ghost before = text::texts(alive@);
        assert(extra[s as int] == build.staged@[s as int]@);
        alive.push(build.staged[s].clone());
        assert(text::texts(alive@) =~= before.push(extra[s as int]));
        assert(paths + extra.take(s + 1) =~= before.push(extra[s as int]));
        s = s + 1;
    }
    assert(extra.take(s as int) =~= extra);
    assert(native_tables::rev_tree_models(directories@).len() == directories@.len());
    flag_directories(&directories, &alive)
}

/// What claims come to, view by view.
#[derive(Debug)]
pub struct NativeClaims {
    /// Every claim event of the replayed changes.
    pub claims: Vec<PathClaim>,
    /// What the claims of each view come to, in the order of the views.
    pub reduced: Vec<ReducedView>,
    /// The stored directory flags.
    pub flags: Vec<(Inode, u8)>,
}

/// Whether claims name their inodes by the roots that they are about.
pub open spec fn sides_are_bound(sides: Seq<ClaimedModel>, bindings: Seq<(Position, Inode)>) -> bool {
    forall|k: int|
        0 <= k < sides.len() ==> pristine::first_value(bindings, (#[trigger] sides[k]).position)
            == Some(sides[k].inode)
}

/// Whether everything that a view shows or contests names its inode by the root
/// that it is about.
pub open spec fn view_is_bound(view: ReducedView, bindings: Seq<(Position, Inode)>) -> bool {
    &&& sides_are_bound(claimed_models(view.present@), bindings)
    &&& forall|c: int|
        0 <= c < view.conflicts@.len() ==> sides_are_bound(
            claimed_models((#[trigger] view.conflicts@[c]).sides@),
            bindings,
        )
}

/// Whether what claims come to was worked out with these owners of roots.
pub open spec fn facts_are_bound(facts: NativeClaims, bindings: Seq<(Position, Inode)>) -> bool {
    forall|v: int|
        0 <= v < facts.reduced@.len() ==> view_is_bound(#[trigger] facts.reduced@[v], bindings)
}

fn are_sides_bound(sides: &Vec<ClaimedPath>, bindings: &Vec<(Position, Inode)>) -> (answer: bool)
    ensures
        answer == sides_are_bound(claimed_models(sides@), bindings@),
{
    let ghost models = claimed_models(sides@);
    let mut k: usize = 0;
    while k < sides.len()
        invariant
            k <= sides.len(),
            models == claimed_models(sides@),
            forall|j: int|
                0 <= j < k ==> pristine::first_value(bindings@, (#[trigger] models[j]).position)
                    == Some(models[j].inode),
        decreases sides.len() - k,
    {
        assert(models[k as int] == sides@[k as int]@);
        match pristine::find_value(bindings, sides[k].position) {
            Some(inode) => {
                if inode != sides[k].inode {
                    return false;
                }
            },
            None => {
                return false;
            },
        }
        k = k + 1;
    }
    true
}

/// Whether what claims come to was worked out with these owners of roots.
pub fn are_facts_bound(facts: &NativeClaims, bindings: &Vec<(Position, Inode)>) -> (answer: bool)
    ensures
        answer == facts_are_bound(*facts, bindings@),
{
    let mut v: usize = 0;
    while v < facts.reduced.len()
        invariant
            v <= facts.reduced.len(),
            forall|j: int|
                0 <= j < v ==> view_is_bound(#[trigger] facts.reduced@[j], bindings@),
        decreases facts.reduced.len() - v,
    {
        let view: &ReducedView = &facts.reduced[v];
        if !are_sides_bound(&view.present, bindings) {
            assert(!view_is_bound(facts.reduced@[v as int], bindings@));
            return false;
        }
        let mut c: usize = 0;
        while c < view.conflicts.len()
            invariant
                c <= view.conflicts.len(),
                v < facts.reduced.len(),
                *view == facts.reduced@[v as int],
                forall|d: int|
                    0 <= d < c ==> sides_are_bound(
                        claimed_models((#[trigger] view.conflicts@[d]).sides@),
                        bindings@,
                    ),
            decreases view.conflicts.len() - c,
        {
            if !are_sides_bound(&view.conflicts[c].sides, bindings) {
                assert(!sides_are_bound(
                    claimed_models(view.conflicts@[c as int].sides@),
                    bindings@,
                ));
                assert(!view_is_bound(facts.reduced@[v as int], bindings@));
                return false;
            }
            c = c + 1;
        }
        v = v + 1;
    }
    true
}

/// Rows by key.
pub open spec fn in_key_order<T: Ranked>(list: Seq<T::Row>) -> Seq<T::Row> {
    ordering::sorted::<T>(list, list.len() as int)
}

/// The tables that graph and changes project, each by key.
pub open spec fn expected_indexes(
    repo: Repository,
    bindings: Seq<(Position, Inode)>,
    facts: NativeClaims,
) -> Result<IndexesModel, FaultModel> {
    let all = native_tables::claim_models(facts.claims@);
    let claims = in_key_order::<PathClaim>(distinct_claims(all, all.len() as int));
    let inodes = ordered_inodes(bindings);
    let unowned = unowned_from(claims, bindings, 0);
    if unowned is Some {
        Err(
            FaultModel::Unpaired(
                PathRefusalModel::UnownedClaim {
                    path: claims[unowned->0].path,
                    claimant: claims[unowned->0].claimant,
                },
            ),
        )
    } else if shared_from(inodes, 1) is Some {
        Err(FaultModel::Refused(shared_from(inodes, 1)->0))
    } else {
        match repo.view_at(repo.current_view@) {
            None => Err(FaultModel::ViewNotFound(repo.current_view@)),
            Some(at) => match view_entries_from(repo, facts.reduced@, 0, Seq::empty()) {
                Err(fault) => Err(fault),
                Ok(entries) => {
                    let view = facts.reduced@[at];
                    match expected_tree(
                        repo.pristine@,
                        facts.flags@,
                        inodes,
                        claimed_models(view.present@),
                    ) {
                        Err(refusal) => Err(FaultModel::Unpaired(refusal)),
                        Ok(tree) => Ok(
                            IndexesModel {
                                path_claims: claims,
                                tree: in_key_order::<(String, Inode)>(tree.tree),
                                rev_tree: in_key_order::<(Inode, String)>(tree.reverse),
                                inodes,
                                rev_inodes: bindings,
                                directories: in_key_order::<(Inode, u8)>(
                                    expected_directories(view, tree),
                                ),
                                conflicts: in_key_order::<NativeConflicts>(
                                    stored_conflicts(entries),
                                ),
                            },
                        ),
                    }
                },
            },
        }
    }
}

fn dup_bindings(bindings: &Vec<(Position, Inode)>) -> (copy: Vec<(Position, Inode)>)
    ensures
        copy@ == bindings@,
{
    let mut copy: Vec<(Position, Inode)> = Vec::new();
    let mut i: usize = 0;
    while i < bindings.len()
        invariant
            i <= bindings.len(),
            copy@ =~= bindings@.take(i as int),
        decreases bindings.len() - i,
    {
        copy.push(bindings[i]);
        i = i + 1;
    }
    copy
}

impl Repository {
    /// Projects the native derived tables from the owners of graph roots and
    /// from what claims come to.
    pub fn build_native_derived_indexes(
        &self,
        bindings: &Vec<(Position, Inode)>,
        facts: &NativeClaims,
    ) -> (built: Result<NativeDerivedIndexes, NativeFault>)
        requires
            native_roots::in_position_order(bindings@),
            facts_are_bound(*facts, bindings@),
            facts.reduced@.len() == self.views@.len(),
        ensures
            match expected_indexes(*self, bindings@, *facts) {
                Err(model) => built matches Err(fault) && fault@ == model,
                Ok(model) => built matches Ok(indexes) && indexes@ == model,
            },
    {
        let claims: Vec<PathClaim> = keep_distinct_claims(&facts.claims);
        assert(native_tables::claim_models(facts.claims@).len() == facts.claims@.len());
        assert(ordering::rows(claims@) =~= native_tables::claim_models(claims@));
        let path_claims: Vec<PathClaim> = ordering::sort_rows(claims);
        assert(ordering::rows(path_claims@) =~= native_tables::claim_models(path_claims@));
        if let Some(i) = find_unowned(&path_claims, bindings) {
            assert(native_tables::claim_models(path_claims@)[i as int] == path_claims@[i as int]@);
            return Err(
                NativeFault::Unpaired(
                    PathRefusal::UnownedClaim {
                        path: path_claims[i].path.clone(),
                        claimant: path_claims[i].claimant,
                    },
                ),
            );
        }
        let inodes: Vec<(Inode, Position)> = order_inodes(bindings);
        if let Some(refusal) = find_shared(&inodes) {
            return Err(NativeFault::Refused(refusal));
        }
        let at: usize = match self.find_view(self.current_view.as_str()) {
            None => {
                return Err(NativeFault::ViewNotFound(self.current_view.clone()));
            },
            Some(at) => at,
        };
        let entries: Vec<ConflictEntry> = match self.collect_expected_conflicts(&facts.reduced) {
            Err(fault) => {
                return Err(fault);
            },
            Ok(entries) => entries,
        };
        let view: &ReducedView = &facts.reduced[at];
        let build: TreeBuild = match build_tree(
            &self.pristine,
            &facts.flags,
            &inodes,
            &view.present,
        ) {
            Err(refusal) => {
                return Err(NativeFault::Unpaired(refusal));
            },
            Ok(build) => build,
        };
        let directories: Vec<(Inode, u8)> = build_directories(view, &build);
        let conflicts: Vec<NativeConflicts> = group_conflicts(&entries);
        proof {
            assert(ordering::rows(build.tree@) =~= native_tables::tree_models(build.tree@));
            assert(ordering::rows(build.reverse@) =~= native_tables::rev_tree_models(
                build.reverse@,
            ));
            assert(ordering::rows(directories@) =~= directories@);
            assert(ordering::rows(conflicts@) =~= native_tables::conflicts_models(conflicts@));
        }
        let tree: Vec<(String, Inode)> = ordering::sort_rows(build.tree);
        let rev_tree: Vec<(Inode, String)> = ordering::sort_rows(build.reverse);
        let directories: Vec<(Inode, u8)> = ordering::sort_rows(directories);
        let conflicts: Vec<NativeConflicts> = ordering::sort_rows(conflicts);
        proof {
            assert(ordering::rows(tree@) =~= native_tables::tree_models(tree@));
            assert(ordering::rows(rev_tree@) =~= native_tables::rev_tree_models(rev_tree@));
            assert(ordering::rows(directories@) =~= directories@);
            assert(ordering::rows(conflicts@) =~= native_tables::conflicts_models(conflicts@));
        }
        Ok(
            NativeDerivedIndexes {
                path_claims,
                tree,
                rev_tree,
                inodes,
                rev_inodes: dup_bindings(bindings),
                directories,
                conflicts,
            },
        )
    }
}

/// The text of the error for a fault.
pub open spec fn fault_text(fault: FaultModel) -> Seq<char> {
    match fault {
        FaultModel::Refused(refusal) => if error::is_storage_fault(refusal) {
            "Database error: "@ + error::native_text(refusal)
        } else {
            "Invalid operation: "@ + error::native_text(refusal)
        },
        FaultModel::Unpaired(refusal) => "Invalid operation: "@ + error::path_text(refusal),
        FaultModel::Database(message) => "Database error: "@ + message,
        FaultModel::Output(message) => "Output error: "@ + message,
        FaultModel::ViewNotFound(name) => "View not found: "@ + name,
    }
}

/// The text of the error for a fault is that of the error itself.
pub proof fn fault_text_is_the_errors(fault: NativeFault, error: RepositoryError)
    requires
        error::reports_native(error, fault),
    ensures
        error.text() == fault_text(fault@),
{
}

fn fault_message(fault: NativeFault) -> (message: String)
    ensures
        message@ == fault_text(fault@),
{
    let error: RepositoryError = error::native_error(fault);
    proof {
        fault_text_is_the_errors(fault, error);
    }
    error.message()
}

/// Whether a report is what comparing the tables comes to; a projection that
/// fails is the only problem then.
pub open spec fn report_told(
    report: NativeIndexReport,
    expected: Result<IndexesModel, FaultModel>,
    actual: RowsModel,
    current: u32,
) -> bool {
    match expected {
        Err(fault) => {
            &&& report.expected_rows == 0
            &&& report.actual_rows == 0
            &&& native_index::problem_models(report.problems@) == seq![
                ProblemModel {
                    index: NativeIndex::Inodes,
                    kind: NativeIndexProblemKind::Unrepairable,
                    key: "<projection>"@,
                    expected: None,
                    actual: Some(fault_text(fault)),
                },
            ]
        },
        Ok(indexes) => {
            let problems = native_tables::all_problems(indexes, actual, current);
            &&& report.expected_rows as nat == indexes.row_count()
            &&& report.actual_rows as int == actual.row_count()
            &&& report.problems@.len() == problems.len()
            &&& native_index::problem_models(report.problems@) == native_index::ordered_problems(
                problems,
                problems.len() as int,
            )
        },
    }
}

/// What repairing the tables comes to.
#[derive(Debug)]
pub enum NativeRepair {
    /// Nothing is to be written.
    Healthy(NativeIndexRepairOutcome),
    /// All tables are to be replaced at once, compared again, and committed.
    Replace { indexes: NativeDerivedIndexes, problems: usize },
}

impl Repository {
    /// Compares every native derived table with what graph and changes
    /// project. `current` is the version that the claim table should have.
    pub fn verify_native_derived_indexes(
        &self,
        bindings: &Vec<(Position, Inode)>,
        facts: &NativeClaims,
        actual: &NativeRows,
        current: u32,
    ) -> (report: NativeIndexReport)
        requires
            native_roots::in_position_order(bindings@),
            facts_are_bound(*facts, bindings@),
            facts.reduced@.len() == self.views@.len(),
            expected_indexes(*self, bindings@, *facts) matches Ok(indexes) ==> indexes.row_count()
                <= usize::MAX,
            actual@.row_count() <= usize::MAX,
        ensures
            report_told(
                report,
                expected_indexes(*self, bindings@, *facts),
                actual@,
                current,
            ),
            health_laws::rows_are_keyed(actual@) ==> (report.problems@.len() == 0 <==> (
            expected_indexes(*self, bindings@, *facts) matches Ok(tables)
                && health_laws::tables_are_equal(tables, actual@, current))),
    {
        proof {
            if health_laws::rows_are_keyed(actual@) {
                health_laws::healthy_means_projected(*self, bindings@, *facts, actual@, current);
            }
        }
        match self.build_native_derived_indexes(bindings, facts) {
            Err(fault) => {
                let problem = NativeIndexProblem {
                    index: NativeIndex::Inodes,
                    kind: NativeIndexProblemKind::Unrepairable,
                    key: "<projection>".to_owned(),
                    expected: None,
                    actual: Some(fault_message(fault)),
                };
                let ghost model = problem@;
                let mut problems: Vec<NativeIndexProblem> = Vec::new();
                problems.push(problem);
                assert(native_index::problem_models(problems@) =~= seq![model]);
                NativeIndexReport { expected_rows: 0, actual_rows: 0, problems }
            },
            Ok(expected) => native_tables::compare_native_derived_indexes(
                &expected,
                actual,
                current,
            ),
        }
    }

    /// Plans to rebuild every native derived table at once; healthy tables are
    /// left alone, and a projection that fails is an error.
    pub fn repair_native_derived_indexes(
        &self,
        bindings: &Vec<(Position, Inode)>,
        facts: &NativeClaims,
        actual: &NativeRows,
        current: u32,
    ) -> (repair: Result<NativeRepair, NativeFault>)
        requires
            native_roots::in_position_order(bindings@),
            facts_are_bound(*facts, bindings@),
            facts.reduced@.len() == self.views@.len(),
            expected_indexes(*self, bindings@, *facts) matches Ok(indexes) ==> indexes.row_count()
                <= usize::MAX,
            actual@.row_count() <= usize::MAX,
        ensures
            match expected_indexes(*self, bindings@, *facts) {
                Err(model) => repair matches Err(fault) && fault@ == model,
                Ok(model) => {
                    let problems = native_tables::all_problems(model, actual@, current);
                    if problems.len() == 0 {
                        repair matches Ok(NativeRepair::Healthy(outcome))
                            && outcome.already_healthy && outcome.problems_repaired == 0
                            && outcome.rows_written as nat == model.row_count()
                    } else {
                        repair matches Ok(NativeRepair::Replace { indexes, problems: count })
                            && indexes@ == model && count == problems.len()
                    }
                },
            },
            health_laws::rows_are_keyed(actual@) ==> (repair matches Ok(NativeRepair::Healthy(_))
                <==> (expected_indexes(*self, bindings@, *facts) matches Ok(tables)
                && health_laws::tables_are_equal(tables, actual@, current))),
    {
        proof {
            if health_laws::rows_are_keyed(actual@) {
                health_laws::healthy_means_projected(*self, bindings@, *facts, actual@, current);
            }
        }
        match self.build_native_derived_indexes(bindings, facts) {
            Err(fault) => Err(fault),
            Ok(expected) => {
                let before: NativeIndexReport = native_tables::compare_native_derived_indexes(
                    &expected,
                    actual,
                    current,
                );
                if before.is_healthy() {
                    return Ok(
                        NativeRepair::Healthy(
                            NativeIndexRepairOutcome {
                                problems_repaired: 0,
                                rows_written: native_tables::native_row_count(&expected),
                                already_healthy: true,
                            },
                        ),
                    );
                }
                Ok(
                    NativeRepair::Replace { indexes: expected, problems: before.problems.len() },
                )
            },
        }
    }
}

/// Settles a replacement by the tables as they were read back, before the
/// commit.
pub fn settle_native_repair(
    indexes: &NativeDerivedIndexes,
    problems: usize,
    written: &NativeRows,
    current: u32,
) -> (settled: Result<NativeIndexRepairOutcome, RepositoryError>)
    requires
        indexes@.row_count() <= usize::MAX,
        written@.row_count() <= usize::MAX,
    ensures
        ({
            let left = native_tables::all_problems(indexes@, written@, current);
            if left.len() == 0 {
                settled matches Ok(outcome) && !outcome.already_healthy
                    && outcome.problems_repaired == problems && outcome.rows_written as nat
                    == indexes@.row_count()
            } else {
                settled matches Err(error) && error.says(
                    "native-index replacement failed post-write verification with "@
                        + text::numeral(left.len()) + " problem(s)"@,
                )
            }
        }),
        health_laws::tables_are_keyed(indexes@) && health_laws::rows_are_keyed(written@) ==> (
        settled is Ok <==> health_laws::tables_are_equal(indexes@, written@, current)),
{
    proof {
        if health_laws::tables_are_keyed(indexes@) && health_laws::rows_are_keyed(written@) {
            health_laws::healthy_means_equal(indexes@, written@, current);
        }
    }
    let after: NativeIndexReport = native_tables::compare_native_derived_indexes(
        indexes,
        written,
        current,
    );
    if !after.is_healthy() {
        let mut message: String =
            "native-index replacement failed post-write verification with ".to_owned();
        message.append(text::decimal(after.problems.len() as u64).as_str());
        message.append(" problem(s)");
        return Err(error::invalid(message.as_str()));
    }
    Ok(
        NativeIndexRepairOutcome {
            problems_repaired: problems,
            rows_written: native_tables::native_row_count(indexes),
            already_healthy: false,
        },
    )
}

} // verus!
