//! Bringing the tree cache in line with what a set of visible changes
//! projects, and keeping the journal that this is derived from.

use crate::collections;
use crate::deferred_tree;
use crate::deferred_tree::{DeferredTreeOp, DesiredModel, DesiredTreePath, OpModel, TreeRefusal};
use crate::pristine::{Pristine, PristineModel, Visibility};
use crate::text;
use crate::types::{ExternalPosition, Inode, NodeId, Position};
use vstd::prelude::*;

verus! {

/// The journal format that this library writes and reads.
pub const DEFERRED_TREE_JOURNAL_VERSION: u32 = 1;

/// The lifecycle operations of all views.
#[derive(Debug)]
pub struct DeferredTreeJournal {
    pub version: u32,
    pub ops: Vec<DeferredTreeOp>,
}

impl Default for DeferredTreeJournal {
    fn default() -> (journal: Self)
        ensures
            journal.version == DEFERRED_TREE_JOURNAL_VERSION,
            journal.ops@.len() == 0,
    {
        DeferredTreeJournal { version: DEFERRED_TREE_JOURNAL_VERSION, ops: Vec::new() }
    }
}

/// The journal that a loaded file stands for: none is an empty journal, and
/// any other version than the current one is refused with that version.
pub fn accept_journal(loaded: Option<DeferredTreeJournal>) -> (journal: Result<
    DeferredTreeJournal,
    u32,
>)
    ensures
        match loaded {
            None => journal matches Ok(j) && j.version == DEFERRED_TREE_JOURNAL_VERSION
                && j.ops@.len() == 0,
            Some(found) => if found.version == DEFERRED_TREE_JOURNAL_VERSION {
                journal == Ok::<DeferredTreeJournal, u32>(found)
            } else {
                journal == Err::<DeferredTreeJournal, u32>(found.version)
            },
        },
{
    match loaded {
        None => Ok(DeferredTreeJournal { version: DEFERRED_TREE_JOURNAL_VERSION, ops: Vec::new() }),
        Some(found) => if found.version == DEFERRED_TREE_JOURNAL_VERSION {
            Ok(found)
        } else {
            Err(found.version)
        },
    }
}

/// Where the journal of a repository directory lies.
pub fn deferred_tree_journal_path(dot_dir: &str) -> (path: String)
    ensures
        path@ == text::joined(dot_dir@, "deferred-tree-ops.json"@),
{
    text::join(dot_dir, "deferred-tree-ops.json")
}

/// The text before the last `/` of a path.
pub fn projected_parent(path: &str) -> (found: Option<String>)
    ensures
        text::opt_text(found) == text::parent(path@),
{
    text::parent_of(path)
}

/// Whether two operations record the same event.
pub open spec fn same_event(a: OpModel, b: OpModel) -> bool {
    a.change == b.change && a.inode == b.inode && a.action == b.action
}

/// Whether two operations record the same event.
pub fn is_same_event(a: &DeferredTreeOp, b: &DeferredTreeOp) -> (same: bool)
    ensures
        same == same_event(a@, b@),
{
    a.change == b.change && a.inode == b.inode && deferred_tree::same_action(&a.action, &b.action)
}

/// Place of the first operation that records the event of `op`, from the
/// `i`-th on.
pub open spec fn event_from(ops: Seq<OpModel>, op: OpModel, i: int) -> Option<int>
    decreases ops.len() - i,
{
    if i < 0 || i >= ops.len() {
        None
    } else if same_event(ops[i], op) {
        Some(i)
    } else {
        event_from(ops, op, i + 1)
    }
}

/// Place of the first operation that records the event of `op`.
pub fn find_event(ops: &Vec<DeferredTreeOp>, op: &DeferredTreeOp) -> (found: Option<usize>)
    ensures
        match found {
            Some(i) => i < ops@.len() && event_from(deferred_tree::op_models(ops@), op@, 0) == Some(
                i as int,
            ) && same_event(ops@[i as int]@, op@),
            None => event_from(deferred_tree::op_models(ops@), op@, 0) is None,
        },
{
    let ghost models = deferred_tree::op_models(ops@);
    let mut i: usize = 0;
    while i < ops.len()
        invariant
            i <= ops.len(),
            models == deferred_tree::op_models(ops@),
            event_from(models, op@, 0) == event_from(models, op@, i as int),
        decreases ops.len() - i,
    {
        assert(models[i as int] == ops@[i as int]@);
        if is_same_event(&ops[i], op) {
            return Some(i);
        }
        i = i + 1;
    }
    None
}

/// `existing` with what it lacks taken from another record of the event.
pub open spec fn completed(existing: OpModel, op: OpModel) -> OpModel {
    OpModel {
        baseline_path: if existing.baseline_path is None {
            op.baseline_path
        } else {
            existing.baseline_path
        },
        directory: if existing.directory is None {
            op.directory
        } else {
            existing.directory
        },
        ..existing
    }
}

/// A journal with one more record merged into it.
pub open spec fn merged_one(ops: Seq<OpModel>, op: OpModel) -> Seq<OpModel> {
    match event_from(ops, op, 0) {
        Some(i) => ops.update(i, completed(ops[i], op)),
        None => ops.push(op),
    }
}

/// Whether merging one record counts as a change of the journal: the event is
/// new, or its record lacked the baseline path or the node kind.
pub open spec fn merge_counts(ops: Seq<OpModel>, op: OpModel) -> bool {
    match event_from(ops, op, 0) {
        Some(i) => ops[i].baseline_path is None || ops[i].directory is None,
        None => true,
    }
}

/// A journal with the records from the `i`-th on merged into it.
pub open spec fn merged_from(journal: Seq<OpModel>, ops: Seq<OpModel>, i: int) -> Seq<OpModel>
    decreases ops.len() - i,
{
    if i < 0 || i >= ops.len() {
        journal
    } else {
        merged_from(merged_one(journal, ops[i]), ops, i + 1)
    }
}

/// Whether merging the records from the `i`-th on changes the journal.
pub open spec fn merge_counts_from(journal: Seq<OpModel>, ops: Seq<OpModel>, i: int) -> bool
    decreases ops.len() - i,
{
    if i < 0 || i >= ops.len() {
        false
    } else {
        merge_counts(journal, ops[i]) || merge_counts_from(merged_one(journal, ops[i]), ops, i + 1)
    }
}

/// Merges lifecycle operations into a journal. Every operation takes part,
/// whichever view was active when it arrived. The flag says whether the
/// journal has to be written.
pub fn merge_deferred_tree_ops(
    journal: DeferredTreeJournal,
    ops: &Vec<DeferredTreeOp>,
) -> (merged: (DeferredTreeJournal, bool))
    ensures
        merged.0.version == journal.version,
        deferred_tree::op_models(merged.0.ops@) == merged_from(
            deferred_tree::op_models(journal.ops@),
            deferred_tree::op_models(ops@),
            0,
        ),
        merged.1 == merge_counts_from(
            deferred_tree::op_models(journal.ops@),
            deferred_tree::op_models(ops@),
            0,
        ),
{
    let ghost start = deferred_tree::op_models(journal.ops@);
    let ghost models = deferred_tree::op_models(ops@);
    let version: u32 = journal.version;
    let mut held: Vec<DeferredTreeOp> = journal.ops;
    let mut changed: bool = false;
    let mut i: usize = 0;
    while i < ops.len()
        invariant
            i <= ops.len(),
            models == deferred_tree::op_models(ops@),
            merged_from(start, models, 0) == merged_from(
                deferred_tree::op_models(held@),
                models,
                i as int,
            ),
            merge_counts_from(start, models, 0) == (changed || merge_counts_from(
                deferred_tree::op_models(held@),
                models,
                i as int,
            )),
        decreases ops.len() - i,
    {
        let ghost before = deferred_tree::op_models(held@);
        assert(models[i as int] == ops@[i as int]@);
        match find_event(&held, &ops[i]) {
            Some(k) => {
                assert(before[k as int] == held@[k as int]@);
                let existing: &DeferredTreeOp = &held[k];
                let lacks: bool = existing.baseline_path.is_none() || existing.directory.is_none();
                let mut entry: DeferredTreeOp = deferred_tree::dup_op(existing);
                if entry.baseline_path.is_none() {
                    entry.baseline_path = text::dup_opt(&ops[i].baseline_path);
                }
                if entry.directory.is_none() {
                    entry.directory = ops[i].directory;
                }
                if lacks {
                    changed = true;
                }
                let ghost model = entry@;
                held.set(k, entry);
                assert(deferred_tree::op_models(held@) =~= before.update(k as int, model));
            },
            None => {
                held.push(deferred_tree::dup_op(&ops[i]));
                changed = true;
                assert(deferred_tree::op_models(held@) =~= before.push(ops@[i as int]@));
            },
        }
        i = i + 1;
    }
    (DeferredTreeJournal { version, ops: held }, changed)
}

/// Refuses planned inodes from the `i`-th on that the tables do not know, or
/// know as the other kind.
pub open spec fn check_plan(
    pristine: PristineModel,
    plan: Seq<(ExternalPosition, DesiredModel)>,
    i: int,
) -> Result<(), TreeRefusal>
    decreases plan.len() - i,
{
    if i < 0 || i >= plan.len() {
        Ok(())
    } else {
        match locate(pristine, plan[i].0) {
            Err(refusal) => Err(refusal),
            Ok((_, inode)) => if plan[i].1.directory is Some && plan[i].1.directory != Some(
                pristine.is_directory(inode),
            ) {
                Err(TreeRefusal::KindDisagrees { inode })
            } else {
                check_plan(pristine, plan, i + 1)
            },
        }
    }
}

/// Position and inode of a stable position.
pub open spec fn locate(pristine: PristineModel, at: ExternalPosition) -> Result<
    (Position, Inode),
    TreeRefusal,
> {
    match pristine.internal(at.change) {
        None => Err(TreeRefusal::UnknownChange { change: at.change }),
        Some(change) => {
            let position = Position { change, pos: at.pos };
            match pristine.position_inode(position) {
                None => Err(TreeRefusal::PositionWithoutInode { position }),
                Some(inode) => Ok((position, inode)),
            }
        },
    }
}

pub fn locate_position(pristine: &Pristine, at: ExternalPosition) -> (found: Result<
    (Position, Inode),
    TreeRefusal,
>)
    ensures
        found == locate(pristine@, at),
{
    match pristine.get_internal(at.change) {
        None => Err(TreeRefusal::UnknownChange { change: at.change }),
        Some(change) => {
            let position = Position { change, pos: at.pos };
            match pristine.position_inode(position) {
                None => Err(TreeRefusal::PositionWithoutInode { position }),
                Some(inode) => Ok((position, inode)),
            }
        },
    }
}

/// What validating a journal under a visibility gives.
pub open spec fn validated(
    pristine: PristineModel,
    ops: Seq<OpModel>,
    changes: Seq<NodeId>,
) -> Result<(), TreeRefusal> {
    match deferred_tree::journal_plan(pristine, ops, changes) {
        Err(refusal) => Err(refusal),
        Ok(plan) => check_plan(pristine, plan, 0),
    }
}

/// Refuses a journal that cannot be planned, or whose inodes the tables do
/// not know or know as the other kind.
pub fn validate_deferred_tree_metadata(
    pristine: &Pristine,
    ops: &Vec<DeferredTreeOp>,
    visibility: &Visibility,
) -> (checked: Result<(), TreeRefusal>)
    requires
        pristine@.dependency_first(),
    ensures
        checked == validated(pristine@, deferred_tree::op_models(ops@), visibility.changes@),
{
    let plan: Vec<(ExternalPosition, DesiredTreePath)> =
        match deferred_tree::desired_tree_paths_for_txn(pristine, ops, &visibility.changes) {
        Err(refusal) => {
            return Err(refusal);
        },
        Ok(plan) => plan,
    };
    let ghost models = deferred_tree::plan_models(plan@);
    let mut i: usize = 0;
    while i < plan.len()
        invariant
            i <= plan.len(),
            models == deferred_tree::plan_models(plan@),
            deferred_tree::journal_plan(
                pristine@,
                deferred_tree::op_models(ops@),
                visibility.changes@,
            ) == Ok::<Seq<(ExternalPosition, DesiredModel)>, TreeRefusal>(models),
            check_plan(pristine@, models, 0) == check_plan(pristine@, models, i as int),
        decreases plan.len() - i,
    {
        assert(models[i as int] == (plan@[i as int].0, plan@[i as int].1@));
        match locate_position(pristine, plan[i].0) {
            Err(refusal) => {
                return Err(refusal);
            },
            Ok((_, inode)) => {
                if let Some(expected) = plan[i].1.directory {
                    if expected != pristine.is_directory(inode) {
                        return Err(TreeRefusal::KindDisagrees { inode });
                    }
                }
            },
        }
        i = i + 1;
    }
    Ok(())
}

/// One change to the tree cache.
#[derive(Debug)]
pub enum AlignmentOperation {
    /// Bind an inode to a path, restoring it where it was gone.
    Undelete { inode: Inode, path: String, is_directory: bool },
    Move { inode: Inode, path: String },
    /// Unbind an inode without retiring it.
    Delete { inode: Inode },
    /// Record whether a directory has direct children.
    DirectoryOccupancy { inode: Inode, empty: bool },
}

/// What an [`AlignmentOperation`] says.
pub ghost enum AlignmentModel {
    Undelete { inode: Inode, path: Seq<char>, is_directory: bool },
    Move { inode: Inode, path: Seq<char> },
    Delete { inode: Inode },
    DirectoryOccupancy { inode: Inode, empty: bool },
}

impl View for AlignmentOperation {
    type V = AlignmentModel;

    open spec fn view(&self) -> AlignmentModel {
        match self {
            AlignmentOperation::Undelete { inode, path, is_directory } => AlignmentModel::Undelete {
                inode: *inode,
                path: path@,
                is_directory: *is_directory,
            },
            AlignmentOperation::Move { inode, path } => AlignmentModel::Move {
                inode: *inode,
                path: path@,
            },
            AlignmentOperation::Delete { inode } => AlignmentModel::Delete { inode: *inode },
            AlignmentOperation::DirectoryOccupancy { inode, empty } =>
                AlignmentModel::DirectoryOccupancy { inode: *inode, empty: *empty },
        }
    }
}

/// What alignment operations say.
pub open spec fn alignment_models(ops: Seq<AlignmentOperation>) -> Seq<AlignmentModel> {
    ops.map_values(|op: AlignmentOperation| op@)
}

/// Where an inode is in the cache, and where it should be.
struct PathUpdate {
    inode: Inode,
    is_directory: bool,
    current: Option<String>,
    desired: Option<String>,
}

/// What a path update says.
pub ghost struct UpdateModel {
    pub inode: Inode,
    pub is_directory: bool,
    pub current: Option<Seq<char>>,
    pub desired: Option<Seq<char>>,
}

impl View for PathUpdate {
    type V = UpdateModel;

    closed spec fn view(&self) -> UpdateModel {
        UpdateModel {
            inode: self.inode,
            is_directory: self.is_directory,
            current: text::opt_text(self.current),
            desired: text::opt_text(self.desired),
        }
    }
}

spec fn update_models(updates: Seq<PathUpdate>) -> Seq<UpdateModel> {
    updates.map_values(|u: PathUpdate| u@)
}

/// The update of one planned inode: the path that the visibility projects, or
/// none where the inode's own change is not visible.
pub open spec fn update_for(
    pristine: PristineModel,
    visibility: Visibility,
    at: ExternalPosition,
    state: DesiredModel,
) -> Result<UpdateModel, TreeRefusal> {
    match locate(pristine, at) {
        Err(refusal) => Err(refusal),
        Ok((position, inode)) => {
            let is_directory = pristine.is_directory(inode);
            if state.directory is Some && state.directory != Some(is_directory) {
                Err(TreeRefusal::KindDisagrees { inode })
            } else {
                let current = pristine.path(inode);
                Ok(
                    UpdateModel {
                        inode,
                        is_directory,
                        current,
                        desired: if visibility.spec_shows(position.change) {
                            deferred_tree::projected_path(
                                state,
                                current,
                                is_directory,
                                visibility.spec_is_live(position),
                            )
                        } else {
                            None
                        },
                    },
                )
            }
        },
    }
}

/// Adds to `updates` those of the planned inodes from the `i`-th on.
pub open spec fn updates_from(
    pristine: PristineModel,
    visibility: Visibility,
    plan: Seq<(ExternalPosition, DesiredModel)>,
    i: int,
    updates: Seq<UpdateModel>,
) -> Result<Seq<UpdateModel>, TreeRefusal>
    decreases plan.len() - i,
{
    if i < 0 || i >= plan.len() {
        Ok(updates)
    } else {
        match update_for(pristine, visibility, plan[i].0, plan[i].1) {
            Err(refusal) => Err(refusal),
            Ok(update) => updates_from(pristine, visibility, plan, i + 1, updates.push(update)),
        }
    }
}

/// The operation that brings one inode to its desired path.
pub open spec fn update_operation(update: UpdateModel) -> Seq<AlignmentModel> {
    match update.desired {
        Some(path) => if update.current is Some && update.current != Some(path) {
            seq![AlignmentModel::Move { inode: update.inode, path }]
        } else {
            seq![
                AlignmentModel::Undelete {
                    inode: update.inode,
                    path,
                    is_directory: update.is_directory,
                },
            ]
        },
        None => if update.current is Some {
            seq![AlignmentModel::Delete { inode: update.inode }]
        } else {
            Seq::empty()
        },
    }
}

/// The operations that bring a list of inodes to their desired paths.
pub open spec fn update_operations(updates: Seq<UpdateModel>) -> Seq<AlignmentModel>
    decreases updates.len(),
{
    if updates.len() == 0 {
        Seq::empty()
    } else {
        update_operations(updates.drop_last()) + update_operation(updates.last())
    }
}

/// The paths that a list of updates leaves or takes.
pub open spec fn affected(updates: Seq<UpdateModel>) -> Set<Seq<char>> {
    Set::new(
        |path: Seq<char>|
            exists|i: int|
                0 <= i < updates.len() && (#[trigger] updates[i]).current != updates[i].desired && (
                updates[i].current == Some(path) || updates[i].desired == Some(path)),
    )
}

/// The TREE table as a map; a later row of a path counts.
pub open spec fn tree_map(tree: Seq<(Seq<char>, Inode)>) -> Map<Seq<char>, Inode>
    decreases tree.len(),
{
    if tree.len() == 0 {
        Map::empty()
    } else {
        tree_map(tree.drop_last()).insert(tree.last().0, tree.last().1)
    }
}

/// `paths` without the current bindings of the updated inodes.
pub open spec fn without_current(
    paths: Map<Seq<char>, Inode>,
    updates: Seq<UpdateModel>,
) -> Map<Seq<char>, Inode>
    decreases updates.len(),
{
    if updates.len() == 0 {
        paths
    } else {
        let rest = without_current(paths, updates.drop_last());
        let update = updates.last();
        if update.current is Some && rest.dom().contains(update.current->0)
            && rest[update.current->0] == update.inode {
            rest.remove(update.current->0)
        } else {
            rest
        }
    }
}

/// `paths` with the desired bindings of the updated inodes.
pub open spec fn with_desired(
    paths: Map<Seq<char>, Inode>,
    updates: Seq<UpdateModel>,
) -> Map<Seq<char>, Inode>
    decreases updates.len(),
{
    if updates.len() == 0 {
        paths
    } else {
        let rest = with_desired(paths, updates.drop_last());
        let update = updates.last();
        match update.desired {
            Some(path) => rest.insert(path, update.inode),
            None => rest,
        }
    }
}

/// The cache after all updates.
pub open spec fn final_paths(pristine: PristineModel, updates: Seq<UpdateModel>) -> Map<
    Seq<char>,
    Inode,
> {
    with_desired(without_current(tree_map(pristine.tree), updates), updates)
}

/// Whether some path of the cache is a direct child of `directory`.
pub open spec fn has_child(paths: Map<Seq<char>, Inode>, directory: Seq<char>) -> bool {
    exists|path: Seq<char>| #[trigger]
        paths.dom().contains(path) && text::parent(path) == Some(directory)
}

/// Occupancy of every updated directory that stays, from exact direct-child
/// membership after all updates.
pub open spec fn occupancy_operations(
    paths: Map<Seq<char>, Inode>,
    updates: Seq<UpdateModel>,
) -> Seq<AlignmentModel>
    decreases updates.len(),
{
    if updates.len() == 0 {
        Seq::empty()
    } else {
        let rest = occupancy_operations(paths, updates.drop_last());
        let update = updates.last();
        if update.is_directory && update.desired is Some {
            rest.push(
                AlignmentModel::DirectoryOccupancy {
                    inode: update.inode,
                    empty: !has_child(paths, update.desired->0),
                },
            )
        } else {
            rest
        }
    }
}

/// What aligning the cache with a visibility takes: the operations, and the
/// paths that they leave or take.
pub ghost struct AlignmentPlanModel {
    pub operations: Seq<AlignmentModel>,
    pub affected: Set<Seq<char>>,
}

/// The alignment of the cache with a journal under a visibility.
pub open spec fn alignment(
    pristine: PristineModel,
    ops: Seq<OpModel>,
    visibility: Visibility,
) -> Result<AlignmentPlanModel, TreeRefusal> {
    match deferred_tree::journal_plan(pristine, ops, visibility.changes@) {
        Err(refusal) => Err(refusal),
        Ok(plan) => match updates_from(pristine, visibility, plan, 0, Seq::empty()) {
            Err(refusal) => Err(refusal),
            Ok(updates) => Ok(
                AlignmentPlanModel {
                    operations: update_operations(updates) + occupancy_operations(
                        final_paths(pristine, updates),
                        updates,
                    ),
                    affected: affected(updates),
                },
            ),
        },
    }
}

/// What aligning the cache takes.
#[derive(Debug)]
pub struct AlignmentPlan {
    pub operations: Vec<AlignmentOperation>,
    pub affected: collections::TextSet,
}

impl View for AlignmentPlan {
    type V = AlignmentPlanModel;

    open spec fn view(&self) -> AlignmentPlanModel {
        AlignmentPlanModel {
            operations: alignment_models(self.operations@),
            affected: self.affected@,
        }
    }
}

fn plan_update(
    pristine: &Pristine,
    visibility: &Visibility,
    at: ExternalPosition,
    state: &DesiredTreePath,
) -> (planned: Result<PathUpdate, TreeRefusal>)
    ensures
        match planned {
            Ok(update) => update_for(pristine@, *visibility, at, state@) == Ok::<
                UpdateModel,
                TreeRefusal,
            >(update@),
            Err(refusal) => update_for(pristine@, *visibility, at, state@) == Err::<
                UpdateModel,
                TreeRefusal,
            >(refusal),
        },
{
    match locate_position(pristine, at) {
        Err(refusal) => Err(refusal),
        Ok((position, inode)) => {
            let is_directory: bool = pristine.is_directory(inode);
            if let Some(expected) = state.directory {
                if expected != is_directory {
                    return Err(TreeRefusal::KindDisagrees { inode });
                }
            }
            let current: Option<String> = pristine.get_path(inode);
            let desired: Option<String> = if visibility.shows(position.change) {
                deferred_tree::project_path(
                    state,
                    &current,
                    is_directory,
                    visibility.is_live(position),
                )
            } else {
                None
            };
            Ok(PathUpdate { inode, is_directory, current, desired })
        },
    }
}

fn plan_updates(
    pristine: &Pristine,
    visibility: &Visibility,
    plan: &Vec<(ExternalPosition, DesiredTreePath)>,
) -> (planned: Result<Vec<PathUpdate>, TreeRefusal>)
    ensures
        match planned {
            Ok(updates) => updates_from(
                pristine@,
                *visibility,
                deferred_tree::plan_models(plan@),
                0,
                Seq::empty(),
            ) == Ok::<Seq<UpdateModel>, TreeRefusal>(update_models(updates@)),
            Err(refusal) => updates_from(
                pristine@,
                *visibility,
                deferred_tree::plan_models(plan@),
                0,
                Seq::empty(),
            ) == Err::<Seq<UpdateModel>, TreeRefusal>(refusal),
        },
{
    let ghost models = deferred_tree::plan_models(plan@);
    let mut updates: Vec<PathUpdate> = Vec::new();
    let mut i: usize = 0;
    proof {
        assert(update_models(updates@) =~= Seq::empty());
    }
    while i < plan.len()
        invariant
            i <= plan.len(),
            models == deferred_tree::plan_models(plan@),
            updates_from(pristine@, *visibility, models, 0, Seq::empty()) == updates_from(
                pristine@,
                *visibility,
                models,
                i as int,
                update_models(updates@),
            ),
        decreases plan.len() - i,
    {
        assert(models[i as int] == (plan@[i as int].0, plan@[i as int].1@));
        match plan_update(pristine, visibility, plan[i].0, &plan[i].1) {
            Err(refusal) => {
                return Err(refusal);
            },
            Ok(update) => {
                let ghost before = update_models(updates@);
                let ghost model = update@;
                updates.push(update);
                assert(update_models(updates@) =~= before.push(model));
            },
        }
        i = i + 1;
    }
    Ok(updates)
}

fn push_update_operation(update: &PathUpdate, operations: &mut Vec<AlignmentOperation>)
    ensures
        alignment_models(final(operations)@) == alignment_models(old(operations)@)
            + update_operation(update@),
{
    let ghost before = alignment_models(operations@);
    match &update.desired {
        Some(path) => {
            if update.current.is_some() && !text::same_opt(&update.current, &update.desired) {
                operations.push(
                    AlignmentOperation::Move { inode: update.inode, path: path.clone() },
                );
            } else {
                operations.push(
                    AlignmentOperation::Undelete {
                        inode: update.inode,
                        path: path.clone(),
                        is_directory: update.is_directory,
                    },
                );
            }
        },
        None => {
            if update.current.is_some() {
                operations.push(AlignmentOperation::Delete { inode: update.inode });
            }
        },
    }
    assert(alignment_models(operations@) =~= before + update_operation(update@));
}

fn note_affected(update: &PathUpdate, paths: &mut collections::TextSet)
    requires
        old(paths).wf(),
    ensures
        final(paths).wf(),
        forall|path: Seq<char>| #[trigger]
            final(paths)@.contains(path) == (old(paths)@.contains(path) || (update@.current
                != update@.desired && (update@.current == Some(path) || update@.desired == Some(
                path,
            )))),
{
    if !text::same_opt(&update.current, &update.desired) {
        if let Some(path) = &update.current {
            paths.insert(path.as_str());
        }
        if let Some(path) = &update.desired {
            paths.insert(path.as_str());
        }
    }
}

fn read_tree(pristine: &Pristine) -> (paths: collections::TextMap<Inode>)
    ensures
        paths.wf(),
        paths@ == tree_map(pristine@.tree),
{
    let ghost tree = pristine@.tree;
    let mut paths: collections::TextMap<Inode> = collections::TextMap::new();
    let mut i: usize = 0;
    while i < pristine.tree.len()
        invariant
            i <= pristine.tree.len(),
            tree == pristine@.tree,
            paths.wf(),
            paths@ == tree_map(tree.take(i as int)),
        decreases pristine.tree.len() - i,
    {
        assert(tree.take(i + 1).drop_last() =~= tree.take(i as int));
        assert(tree[i as int] == (pristine.tree@[i as int].0@, pristine.tree@[i as int].1));
        paths.insert(pristine.tree[i].0.as_str(), pristine.tree[i].1);
        i = i + 1;
    }
    assert(tree.take(i as int) =~= tree);
    paths
}

fn compute_final_paths(pristine: &Pristine, updates: &Vec<PathUpdate>) -> (paths:
    collections::TextMap<Inode>)
    ensures
        paths.wf(),
        paths@ == final_paths(pristine@, update_models(updates@)),
{
    let ghost models = update_models(updates@);
    let mut paths: collections::TextMap<Inode> = read_tree(pristine);
    let ghost start = paths@;
    let mut i: usize = 0;
    while i < updates.len()
        invariant
            i <= updates.len(),
            models == update_models(updates@),
            paths.wf(),
            paths@ == without_current(start, models.take(i as int)),
        decreases updates.len() - i,
    {
        assert(models.take(i + 1).drop_last() =~= models.take(i as int));
        assert(models.take(i + 1).last() == updates@[i as int]@);
        if let Some(path) = &updates[i].current {
            if let Some(inode) = paths.get(path.as_str()) {
                if inode == updates[i].inode {
                    paths.remove(path.as_str());
                }
            }
        }
        i = i + 1;
    }
    assert(models.take(i as int) =~= models);
    let ghost cleared = paths@;
    let mut k: usize = 0;
    while k < updates.len()
        invariant
            k <= updates.len(),
            models == update_models(updates@),
            paths.wf(),
            paths@ == with_desired(cleared, models.take(k as int)),
        decreases updates.len() - k,
    {
        assert(models.take(k + 1).drop_last() =~= models.take(k as int));
        assert(models.take(k + 1).last() == updates@[k as int]@);
        if let Some(path) = &updates[k].desired {
            paths.insert(path.as_str(), updates[k].inode);
        }
        k = k + 1;
    }
    assert(models.take(k as int) =~= models);
    paths
}

fn is_occupied(paths: &collections::TextMap<Inode>, directory: &str) -> (occupied: bool)
    requires
        paths.wf(),
    ensures
        occupied == has_child(paths@, directory@),
{
    let ghost ks = collections::keys(paths.entries@);
    let mut i: usize = 0;
    while i < paths.entries.len()
        invariant
            i <= paths.entries.len(),
            ks == collections::keys(paths.entries@),
            forall|j: int| 0 <= j < i ==> text::parent(#[trigger] ks[j]) != Some(directory@),
        decreases paths.entries.len() - i,
    {
        assert(ks[i as int] == paths.entries@[i as int].0@);
        let parent: Option<String> = text::parent_of(paths.entries[i].0.as_str());
        if let Some(name) = &parent {
            if text::same(name.as_str(), directory) {
                assert(ks.contains(ks[i as int]));
                assert(paths@.dom().contains(ks[i as int]));
                return true;
            }
        }
        i = i + 1;
    }
    assert forall|path: Seq<char>| #[trigger] paths@.dom().contains(path) implies text::parent(path)
        != Some(directory@) by {
        let at = ks.index_of(path);
        assert(ks[at] == path);
    }
    false
}

/// Plans how the tree cache follows a journal under a set of visible changes:
/// which inodes move, come back or go, and which directories are empty
/// afterwards.
pub fn apply_deferred_tree_ops_in_txn(
    pristine: &Pristine,
    ops: &Vec<DeferredTreeOp>,
    visibility: &Visibility,
) -> (planned: Result<AlignmentPlan, TreeRefusal>)
    requires
        pristine@.dependency_first(),
    ensures
        match planned {
            Ok(plan) => alignment(pristine@, deferred_tree::op_models(ops@), *visibility) == Ok::<
                AlignmentPlanModel,
                TreeRefusal,
            >(plan@) && plan.affected.wf(),
            Err(refusal) => alignment(pristine@, deferred_tree::op_models(ops@), *visibility)
                == Err::<AlignmentPlanModel, TreeRefusal>(refusal),
        },
{
    let plan: Vec<(ExternalPosition, DesiredTreePath)> =
        match deferred_tree::desired_tree_paths_for_txn(pristine, ops, &visibility.changes) {
        Err(refusal) => {
            return Err(refusal);
        },
        Ok(plan) => plan,
    };
    let updates: Vec<PathUpdate> = match plan_updates(pristine, visibility, &plan) {
        Err(refusal) => {
            return Err(refusal);
        },
        Ok(updates) => updates,
    };
    let ghost models = update_models(updates@);
    let mut operations: Vec<AlignmentOperation> = Vec::new();
    let mut touched = collections::TextSet::new();
    let mut i: usize = 0;
    proof {
        assert(alignment_models(operations@) =~= update_operations(models.take(0)));
        assert(touched@ =~= affected(models.take(0)));
    }
    while i < updates.len()
        invariant
            i <= updates.len(),
            models == update_models(updates@),
            touched.wf(),
            alignment_models(operations@) == update_operations(models.take(i as int)),
            touched@ == affected(models.take(i as int)),
        decreases updates.len() - i,
    {
        let ghost head = models.take(i as int);
        let ghost next = models.take(i + 1);
        assert(next.drop_last() =~= head);
        assert(next.last() == updates@[i as int]@);
        push_update_operation(&updates[i], &mut operations);
        note_affected(&updates[i], &mut touched);
        proof {
            assert forall|path: Seq<char>| touched@.contains(path) == #[trigger] affected(
                next,
            ).contains(path) by {
                if affected(next).contains(path) {
                    let k = choose|k: int|
                        0 <= k < next.len() && (#[trigger] next[k]).current != next[k].desired && (
                        next[k].current == Some(path) || next[k].desired == Some(path));
                    if k < i {
                        assert(head[k] == next[k]);
                        assert(affected(head).contains(path));
                    }
                }
                if affected(head).contains(path) {
                    let k = choose|k: int|
                        0 <= k < head.len() && (#[trigger] head[k]).current != head[k].desired && (
                        head[k].current == Some(path) || head[k].desired == Some(path));
                    assert(next[k] == head[k]);
                }
                assert(next[i as int] == updates@[i as int]@);
            }
            assert(touched@ =~= affected(next));
        }
        i = i + 1;
    }
    assert(models.take(i as int) =~= models);
    let paths: collections::TextMap<Inode> = compute_final_paths(pristine, &updates);
    let ghost placed = alignment_models(operations@);
    let mut k: usize = 0;
    proof {
        assert(alignment_models(operations@) =~= placed + occupancy_operations(
            paths@,
            models.take(0),
        ));
    }
    while k < updates.len()
        invariant
            k <= updates.len(),
            models == update_models(updates@),
            paths.wf(),
            alignment_models(operations@) == placed + occupancy_operations(
                paths@,
                models.take(k as int),
            ),
        decreases updates.len() - k,
    {
        let ghost before = alignment_models(operations@);
        assert(models.take(k + 1).drop_last() =~= models.take(k as int));
        assert(models.take(k + 1).last() == updates@[k as int]@);
        if updates[k].is_directory {
            if let Some(path) = &updates[k].desired {
                let empty: bool = !is_occupied(&paths, path.as_str());
                operations.push(
                    AlignmentOperation::DirectoryOccupancy { inode: updates[k].inode, empty },
                );
                assert(alignment_models(operations@) =~= before.push(
                    AlignmentModel::DirectoryOccupancy { inode: updates@[k as int].inode, empty },
                ));
                assert(alignment_models(operations@) =~= placed + occupancy_operations(
                    paths@,
                    models.take(k + 1),
                ));
            }
        }
        k = k + 1;
    }
    assert(models.take(k as int) =~= models);
    Ok(AlignmentPlan { operations, affected: touched })
}

/// An inode that stands where its visibility puts it is put there again.
pub proof fn alignment_is_stable(
    state: DesiredModel,
    current: Option<Seq<char>>,
    is_directory: bool,
    live: bool,
)
    ensures
        ({
            let placed = deferred_tree::projected_path(state, current, is_directory, live);
            deferred_tree::projected_path(state, placed, is_directory, live) == placed
        }),
{
}

/// Whether a journal already says all that a record says of its event.
spec fn absorbed(journal: Seq<OpModel>, op: OpModel) -> bool {
    event_from(journal, op, 0) matches Some(i) && 0 <= i < journal.len() && completed(
        journal[i],
        op,
    ) == journal[i]
}

pub(crate) proof fn event_from_is_first(ops: Seq<OpModel>, op: OpModel, i: int)
    requires
        0 <= i <= ops.len(),
    ensures
        match event_from(ops, op, i) {
            Some(k) => i <= k < ops.len() && same_event(ops[k], op) && forall|j: int|
                i <= j < k ==> !same_event(#[trigger] ops[j], op),
            None => forall|j: int| i <= j < ops.len() ==> !same_event(#[trigger] ops[j], op),
        },
    decreases ops.len() - i,
{
    if i < ops.len() && !same_event(ops[i], op) {
        event_from_is_first(ops, op, i + 1);
    }
}

proof fn event_from_is_unique(ops: Seq<OpModel>, op: OpModel, i: int, k: int)
    requires
        0 <= i <= k < ops.len(),
        same_event(ops[k], op),
        forall|j: int| i <= j < k ==> !same_event(#[trigger] ops[j], op),
    ensures
        event_from(ops, op, i) == Some(k),
    decreases k - i,
{
    if i < k {
        event_from_is_unique(ops, op, i + 1, k);
    }
}

/// Merging a record absorbs it, and forgets nothing absorbed before.
proof fn merging_absorbs(journal: Seq<OpModel>, op: OpModel, earlier: OpModel)
    ensures
        absorbed(merged_one(journal, op), op),
        absorbed(journal, earlier) ==> absorbed(merged_one(journal, op), earlier),
        absorbed(journal, op) ==> merged_one(journal, op) == journal,
{
    let next = merged_one(journal, op);
    event_from_is_first(journal, op, 0);
    event_from_is_first(journal, earlier, 0);
    match event_from(journal, op, 0) {
        Some(i) => {
            assert(forall|j: int|
                0 <= j < journal.len() ==> (#[trigger] next[j]).change == journal[j].change
                    && next[j].inode == journal[j].inode && next[j].action == journal[j].action);
            event_from_is_unique(next, op, 0, i);
            if absorbed(journal, earlier) {
                event_from_is_unique(next, earlier, 0, event_from(journal, earlier, 0)->0);
            }
            if absorbed(journal, op) {
                assert(next =~= journal);
            }
        },
        None => {
            assert(next[journal.len() as int] == op);
            assert(forall|j: int| 0 <= j < journal.len() ==> #[trigger] next[j] == journal[j]);
            event_from_is_unique(next, op, 0, journal.len() as int);
            if absorbed(journal, earlier) {
                event_from_is_unique(next, earlier, 0, event_from(journal, earlier, 0)->0);
            }
        },
    }
}

proof fn merging_all_absorbs(journal: Seq<OpModel>, ops: Seq<OpModel>, i: int)
    requires
        0 <= i <= ops.len(),
        forall|k: int| 0 <= k < i ==> absorbed(journal, #[trigger] ops[k]),
    ensures
        forall|k: int| 0 <= k < ops.len() ==> absorbed(merged_from(journal, ops, i), #[trigger] ops[k]),
    decreases ops.len() - i,
{
    if i < ops.len() {
        let next = merged_one(journal, ops[i]);
        assert forall|k: int| 0 <= k < i + 1 implies absorbed(next, #[trigger] ops[k]) by {
            merging_absorbs(journal, ops[i], ops[k]);
        }
        merging_all_absorbs(next, ops, i + 1);
    }
}

proof fn absorbed_merges_to_itself(journal: Seq<OpModel>, ops: Seq<OpModel>, i: int)
    requires
        0 <= i <= ops.len(),
        forall|k: int| 0 <= k < ops.len() ==> absorbed(journal, #[trigger] ops[k]),
    ensures
        merged_from(journal, ops, i) == journal,
    decreases ops.len() - i,
{
    if i < ops.len() {
        merging_absorbs(journal, ops[i], ops[i]);
        absorbed_merges_to_itself(journal, ops, i + 1);
    }
}

/// Merging the same operations a second time adds nothing to a journal.
pub proof fn merging_again_adds_nothing(journal: Seq<OpModel>, ops: Seq<OpModel>)
    ensures
        ({
            let merged = merged_from(journal, ops, 0);
            merged_from(merged, ops, 0) == merged
        }),
{
    merging_all_absorbs(journal, ops, 0);
    absorbed_merges_to_itself(merged_from(journal, ops, 0), ops, 0);
}

} // verus!
