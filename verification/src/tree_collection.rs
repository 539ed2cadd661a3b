//! Reading lifecycle operations off a change, and preparing the inodes that
//! they need.

use crate::deferred_tree;
use crate::deferred_tree::{ActionModel, DeferredTreeAction, DeferredTreeOp, OpModel, TreeRefusal};
use crate::pristine::{Pristine, PristineModel};
use crate::text;
use crate::tree_alignment;
use crate::types::{ContentHash, ExternalPosition, Inode, NodeId, Position};
use vstd::prelude::*;

verus! {

/// A position inside a change: no hash stands for the change itself.
#[derive(Clone, Copy, Debug, PartialEq, Eq, Structural)]
pub struct HunkPosition {
    pub change: Option<ContentHash>,
    pub pos: u64,
}

/// What tree logic reads of a change's hunk.
#[derive(Debug)]
pub enum GraphOp {
    FileAdd { start: u64, path: String },
    DirAdd { start: u64, path: String },
    FileMove { inode: HunkPosition, path: String },
    FileDel { inode: HunkPosition, path: String },
    DirDel { inode: HunkPosition, path: String },
    FileUndel { inode: HunkPosition, path: String },
    DirUndel { inode: HunkPosition, path: String },
    /// An edge update or replacement in the content of a file.
    Rewrite { inode: HunkPosition, path: String },
    Other,
}

/// What a [`GraphOp`] says.
pub ghost enum HunkModel {
    FileAdd { start: u64, path: Seq<char> },
    DirAdd { start: u64, path: Seq<char> },
    FileMove { inode: HunkPosition, path: Seq<char> },
    FileDel { inode: HunkPosition, path: Seq<char> },
    DirDel { inode: HunkPosition, path: Seq<char> },
    FileUndel { inode: HunkPosition, path: Seq<char> },
    DirUndel { inode: HunkPosition, path: Seq<char> },
    Rewrite { inode: HunkPosition, path: Seq<char> },
    Other,
}

impl View for GraphOp {
    type V = HunkModel;

    open spec fn view(&self) -> HunkModel {
        match self {
            GraphOp::FileAdd { start, path } => HunkModel::FileAdd { start: *start, path: path@ },
            GraphOp::DirAdd { start, path } => HunkModel::DirAdd { start: *start, path: path@ },
            GraphOp::FileMove { inode, path } => HunkModel::FileMove { inode: *inode, path: path@ },
            GraphOp::FileDel { inode, path } => HunkModel::FileDel { inode: *inode, path: path@ },
            GraphOp::DirDel { inode, path } => HunkModel::DirDel { inode: *inode, path: path@ },
            GraphOp::FileUndel { inode, path } => HunkModel::FileUndel {
                inode: *inode,
                path: path@,
            },
            GraphOp::DirUndel { inode, path } => HunkModel::DirUndel { inode: *inode, path: path@ },
            GraphOp::Rewrite { inode, path } => HunkModel::Rewrite { inode: *inode, path: path@ },
            GraphOp::Other => HunkModel::Other,
        }
    }
}

/// What a change's hunks say.
pub open spec fn hunk_models(hunks: Seq<GraphOp>) -> Seq<HunkModel> {
    hunks.map_values(|h: GraphOp| h@)
}

/// A hunk position with the change's own hash filled in; ROOT is refused.
pub open spec fn externalized(change: ContentHash, position: HunkPosition) -> Result<
    ExternalPosition,
    TreeRefusal,
> {
    match position.change {
        None => Ok(ExternalPosition { change, pos: position.pos }),
        Some(hash) => if hash.spec_is_none() {
            Err(TreeRefusal::RootReference)
        } else {
            Ok(ExternalPosition { change: hash, pos: position.pos })
        },
    }
}

/// A hunk position with the change's own hash filled in; ROOT is refused.
pub fn external_position(change: ContentHash, position: HunkPosition) -> (found: Result<
    ExternalPosition,
    TreeRefusal,
>)
    ensures
        found == externalized(change, position),
{
    match position.change {
        None => Ok(ExternalPosition { change, pos: position.pos }),
        Some(hash) => if hash.is_none() {
            Err(TreeRefusal::RootReference)
        } else {
            Ok(ExternalPosition { change: hash, pos: position.pos })
        },
    }
}

/// The stable position of a tracked inode.
pub open spec fn stable_position(pristine: PristineModel, inode: Inode) -> Result<
    ExternalPosition,
    TreeRefusal,
> {
    match pristine.inode_position(inode) {
        None => Err(TreeRefusal::InodeWithoutPosition { inode }),
        Some(position) => if position.change.spec_is_root() {
            Err(TreeRefusal::InodeAtRoot { inode })
        } else {
            match pristine.external(position.change) {
                None => Err(TreeRefusal::InodeWithoutHash { inode, id: position.change }),
                Some(change) => Ok(ExternalPosition { change, pos: position.pos }),
            }
        },
    }
}

/// The stable position of a tracked inode; one without a position, at the
/// ROOT change, or in a change without a hash is refused.
pub fn external_inode_position(pristine: &Pristine, inode: Inode) -> (found: Result<
    ExternalPosition,
    TreeRefusal,
>)
    ensures
        found == stable_position(pristine@, inode),
{
    match pristine.inode_position(inode) {
        None => Err(TreeRefusal::InodeWithoutPosition { inode }),
        Some(position) => if position.change.is_root() {
            Err(TreeRefusal::InodeAtRoot { inode })
        } else {
            match pristine.get_external(position.change) {
                None => Err(TreeRefusal::InodeWithoutHash { inode, id: position.change }),
                Some(change) => Ok(ExternalPosition { change, pos: position.pos }),
            }
        },
    }
}

/// A refusal to locate a stable position, told of a tree operation.
pub open spec fn of_operand(refusal: TreeRefusal, at: ExternalPosition) -> TreeRefusal {
    match refusal {
        TreeRefusal::UnknownChange { change } => TreeRefusal::UnknownOperand { change },
        TreeRefusal::PositionWithoutInode { .. } => TreeRefusal::OperandWithoutInode { at },
        other => other,
    }
}

/// A refusal to locate a stable position, told of a restoration.
pub open spec fn of_restoration(refusal: TreeRefusal) -> TreeRefusal {
    match refusal {
        TreeRefusal::UnknownChange { change } => TreeRefusal::UnknownRestored { change },
        TreeRefusal::PositionWithoutInode { position } => TreeRefusal::RestoredWithoutInode {
            position,
        },
        other => other,
    }
}

/// The cached path of the inode at a stable position.
pub open spec fn cached_path(pristine: PristineModel, at: ExternalPosition) -> Result<
    Option<Seq<char>>,
    TreeRefusal,
> {
    match tree_alignment::locate(pristine, at) {
        Err(refusal) => Err(of_operand(refusal, at)),
        Ok((_, inode)) => Ok(pristine.path(inode)),
    }
}

/// The cached path of the inode at a stable position; an unregistered change
/// or a position without an inode is refused.
pub fn current_path_for_position(pristine: &Pristine, at: ExternalPosition) -> (found: Result<
    Option<String>,
    TreeRefusal,
>)
    ensures
        match found {
            Ok(path) => cached_path(pristine@, at) == Ok::<Option<Seq<char>>, TreeRefusal>(
                text::opt_text(path),
            ),
            Err(refusal) => cached_path(pristine@, at) == Err::<Option<Seq<char>>, TreeRefusal>(
                refusal,
            ),
        },
{
    match tree_alignment::locate_position(pristine, at) {
        Err(TreeRefusal::UnknownChange { change }) => Err(TreeRefusal::UnknownOperand { change }),
        Err(TreeRefusal::PositionWithoutInode { .. }) => Err(
            TreeRefusal::OperandWithoutInode { at },
        ),
        Err(refusal) => Err(refusal),
        Ok((_, inode)) => Ok(pristine.get_path(inode)),
    }
}

/// `ops` with `op` at the end, unless they record its event already.
pub open spec fn pushed_unique(ops: Seq<OpModel>, op: OpModel) -> Seq<OpModel> {
    if tree_alignment::event_from(ops, op, 0) is Some {
        ops
    } else {
        ops.push(op)
    }
}

/// Adds an operation unless its event is recorded already.
pub fn push_unique(ops: &mut Vec<DeferredTreeOp>, op: DeferredTreeOp)
    ensures
        deferred_tree::op_models(final(ops)@) == pushed_unique(
            deferred_tree::op_models(old(ops)@),
            op@,
        ),
{
    let ghost before = deferred_tree::op_models(ops@);
    if tree_alignment::find_event(ops, &op).is_none() {
        let ghost model = op@;
        ops.push(op);
        assert(deferred_tree::op_models(ops@) =~= before.push(model));
    }
}

/// The lifecycle operation of a hunk, if it has one.
pub open spec fn hunk_op(
    pristine: PristineModel,
    change: ContentHash,
    hunk: HunkModel,
    deleted: Seq<Seq<char>>,
) -> Result<Option<OpModel>, TreeRefusal> {
    match hunk {
        HunkModel::FileAdd { start, path } => Ok(Some(added(change, start, path, false))),
        HunkModel::DirAdd { start, path } => Ok(Some(added(change, start, path, true))),
        HunkModel::FileMove { inode, path } => placed(pristine, change, inode, path, false),
        HunkModel::FileUndel { inode, path } => placed(pristine, change, inode, path, false),
        HunkModel::DirUndel { inode, path } => placed(pristine, change, inode, path, true),
        HunkModel::FileDel { inode, path } => removed(change, inode, path, false),
        HunkModel::DirDel { inode, path } => removed(change, inode, path, true),
        HunkModel::Rewrite { inode, path } => if deleted.contains(path) {
            removed(change, inode, path, false)
        } else {
            Ok(None)
        },
        HunkModel::Other => Ok(None),
    }
}

/// An added entry.
pub open spec fn added(change: ContentHash, start: u64, path: Seq<char>, directory: bool) -> OpModel {
    OpModel {
        change,
        inode: ExternalPosition { change, pos: start },
        baseline_path: None,
        directory: Some(directory),
        action: ActionModel::Place { path },
    }
}

/// A moved or restored entry, with its cached path for a baseline.
pub open spec fn placed(
    pristine: PristineModel,
    change: ContentHash,
    inode: HunkPosition,
    path: Seq<char>,
    directory: bool,
) -> Result<Option<OpModel>, TreeRefusal> {
    match externalized(change, inode) {
        Err(refusal) => Err(refusal),
        Ok(at) => match cached_path(pristine, at) {
            Err(refusal) => Err(refusal),
            Ok(baseline_path) => Ok(
                Some(
                    OpModel {
                        change,
                        inode: at,
                        baseline_path,
                        directory: Some(directory),
                        action: ActionModel::Place { path },
                    },
                ),
            ),
        },
    }
}

/// A deleted entry.
pub open spec fn removed(
    change: ContentHash,
    inode: HunkPosition,
    path: Seq<char>,
    directory: bool,
) -> Result<Option<OpModel>, TreeRefusal> {
    match externalized(change, inode) {
        Err(refusal) => Err(refusal),
        Ok(at) => Ok(
            Some(
                OpModel {
                    change,
                    inode: at,
                    baseline_path: Some(path),
                    directory: Some(directory),
                    action: ActionModel::Delete,
                },
            ),
        ),
    }
}

/// Adds to `ops` those of the hunks from the `i`-th on.
pub open spec fn collected_from(
    pristine: PristineModel,
    change: ContentHash,
    hunks: Seq<HunkModel>,
    deleted: Seq<Seq<char>>,
    i: int,
    ops: Seq<OpModel>,
) -> Result<Seq<OpModel>, TreeRefusal>
    decreases hunks.len() - i,
{
    if i < 0 || i >= hunks.len() {
        Ok(ops)
    } else {
        match hunk_op(pristine, change, hunks[i], deleted) {
            Err(refusal) => Err(refusal),
            Ok(None) => collected_from(pristine, change, hunks, deleted, i + 1, ops),
            Ok(Some(op)) => collected_from(
                pristine,
                change,
                hunks,
                deleted,
                i + 1,
                pushed_unique(ops, op),
            ),
        }
    }
}

/// Whether `ops` delete the entry with this baseline path.
pub open spec fn deletes_path(ops: Seq<OpModel>, path: Seq<char>) -> bool {
    exists|k: int|
        0 <= k < ops.len() && (#[trigger] ops[k]).action is Delete && ops[k].baseline_path == Some(
            path,
        )
}

/// `ops` with the deletion of the inode cached under `path`; a path without
/// an inode adds nothing.
pub open spec fn with_deleted_path(
    pristine: PristineModel,
    change: ContentHash,
    path: Seq<char>,
    ops: Seq<OpModel>,
) -> Result<Seq<OpModel>, TreeRefusal> {
    match pristine.inode(path) {
        None => Ok(ops),
        Some(inode) => match stable_position(pristine, inode) {
            Err(refusal) => Err(refusal),
            Ok(at) => Ok(
                pushed_unique(
                    ops,
                    OpModel {
                        change,
                        inode: at,
                        baseline_path: Some(path),
                        directory: Some(pristine.is_directory(inode)),
                        action: ActionModel::Delete,
                    },
                ),
            ),
        },
    }
}

/// Adds to `ops` the deletions of the paths from the `i`-th on that they do
/// not hold yet.
pub open spec fn deletions_from(
    pristine: PristineModel,
    change: ContentHash,
    deleted: Seq<Seq<char>>,
    i: int,
    ops: Seq<OpModel>,
) -> Result<Seq<OpModel>, TreeRefusal>
    decreases deleted.len() - i,
{
    if i < 0 || i >= deleted.len() {
        Ok(ops)
    } else if deletes_path(ops, deleted[i]) {
        deletions_from(pristine, change, deleted, i + 1, ops)
    } else {
        match with_deleted_path(pristine, change, deleted[i], ops) {
            Err(refusal) => Err(refusal),
            Ok(next) => deletions_from(pristine, change, deleted, i + 1, next),
        }
    }
}

/// The lifecycle operations of a change.
pub open spec fn tree_ops(
    pristine: PristineModel,
    change: ContentHash,
    hunks: Seq<HunkModel>,
    deleted: Seq<Seq<char>>,
) -> Result<Seq<OpModel>, TreeRefusal> {
    match collected_from(pristine, change, hunks, deleted, 0, Seq::empty()) {
        Err(refusal) => Err(refusal),
        Ok(ops) => deletions_from(pristine, change, deleted, 0, ops),
    }
}

/// Adds the deletion of the inode cached under a path.
pub fn push_delete_for_path(
    pristine: &Pristine,
    change: ContentHash,
    path: &str,
    ops: &mut Vec<DeferredTreeOp>,
) -> (pushed: Result<(), TreeRefusal>)
    ensures
        match pushed {
            Ok(_) => with_deleted_path(
                pristine@,
                change,
                path@,
                deferred_tree::op_models(old(ops)@),
            ) == Ok::<Seq<OpModel>, TreeRefusal>(deferred_tree::op_models(final(ops)@)),
            Err(refusal) => with_deleted_path(
                pristine@,
                change,
                path@,
                deferred_tree::op_models(old(ops)@),
            ) == Err::<Seq<OpModel>, TreeRefusal>(refusal),
        },
{
    let inode: Inode = match pristine.get_inode(path) {
        None => {
            return Ok(());
        },
        Some(inode) => inode,
    };
    match external_inode_position(pristine, inode) {
        Err(refusal) => Err(refusal),
        Ok(at) => {
            push_unique(
                ops,
                DeferredTreeOp {
                    change,
                    inode: at,
                    baseline_path: Some(path.to_owned()),
                    directory: Some(pristine.is_directory(inode)),
                    action: DeferredTreeAction::Delete,
                },
            );
            Ok(())
        },
    }
}

fn place_hunk(
    pristine: &Pristine,
    change: ContentHash,
    inode: HunkPosition,
    path: &String,
    directory: bool,
) -> (op: Result<Option<DeferredTreeOp>, TreeRefusal>)
    ensures
        placed(pristine@, change, inode, path@, directory) == op_result(op),
{
    match external_position(change, inode) {
        Err(refusal) => Err(refusal),
        Ok(at) => match current_path_for_position(pristine, at) {
            Err(refusal) => Err(refusal),
            Ok(baseline_path) => Ok(
                Some(
                    DeferredTreeOp {
                        change,
                        inode: at,
                        baseline_path,
                        directory: Some(directory),
                        action: DeferredTreeAction::Place { path: path.clone() },
                    },
                ),
            ),
        },
    }
}

fn remove_hunk(change: ContentHash, inode: HunkPosition, path: &String, directory: bool) -> (op:
    Result<Option<DeferredTreeOp>, TreeRefusal>)
    ensures
        removed(change, inode, path@, directory) == op_result(op),
{
    match external_position(change, inode) {
        Err(refusal) => Err(refusal),
        Ok(at) => Ok(
            Some(
                DeferredTreeOp {
                    change,
                    inode: at,
                    baseline_path: Some(path.clone()),
                    directory: Some(directory),
                    action: DeferredTreeAction::Delete,
                },
            ),
        ),
    }
}

/// What a computed operation says.
pub open spec fn op_result(op: Result<Option<DeferredTreeOp>, TreeRefusal>) -> Result<
    Option<OpModel>,
    TreeRefusal,
> {
    match op {
        Err(refusal) => Err(refusal),
        Ok(None) => Ok(None),
        Ok(Some(op)) => Ok(Some(op@)),
    }
}

fn add_hunk(change: ContentHash, start: u64, path: &String, directory: bool) -> (op: DeferredTreeOp)
    ensures
        op@ == added(change, start, path@, directory),
{
    DeferredTreeOp {
        change,
        inode: ExternalPosition { change, pos: start },
        baseline_path: None,
        directory: Some(directory),
        action: DeferredTreeAction::Place { path: path.clone() },
    }
}

fn read_hunk(
    pristine: &Pristine,
    change: ContentHash,
    hunk: &GraphOp,
    deleted: &Vec<String>,
) -> (op: Result<Option<DeferredTreeOp>, TreeRefusal>)
    ensures
        hunk_op(pristine@, change, hunk@, text::texts(deleted@)) == op_result(op),
{
    match hunk {
        GraphOp::FileAdd { start, path } => Ok(Some(add_hunk(change, *start, path, false))),
        GraphOp::DirAdd { start, path } => Ok(Some(add_hunk(change, *start, path, true))),
        GraphOp::FileMove { inode, path } => place_hunk(pristine, change, *inode, path, false),
        GraphOp::FileUndel { inode, path } => place_hunk(pristine, change, *inode, path, false),
        GraphOp::DirUndel { inode, path } => place_hunk(pristine, change, *inode, path, true),
        GraphOp::FileDel { inode, path } => remove_hunk(change, *inode, path, false),
        GraphOp::DirDel { inode, path } => remove_hunk(change, *inode, path, true),
        GraphOp::Rewrite { inode, path } => if crate::collections::contains_text(
            deleted,
            path.as_str(),
        ) {
            remove_hunk(change, *inode, path, false)
        } else {
            Ok(None)
        },
        GraphOp::Other => Ok(None),
    }
}

fn has_deletion(ops: &Vec<DeferredTreeOp>, path: &str) -> (found: bool)
    ensures
        found == deletes_path(deferred_tree::op_models(ops@), path@),
{
    let ghost models = deferred_tree::op_models(ops@);
    let mut i: usize = 0;
    while i < ops.len()
        invariant
            i <= ops.len(),
            models == deferred_tree::op_models(ops@),
            forall|k: int|
                0 <= k < i ==> !((#[trigger] models[k]).action is Delete && models[k].baseline_path
                    == Some(path@)),
        decreases ops.len() - i,
    {
        assert(models[i as int] == ops@[i as int]@);
        if let DeferredTreeAction::Delete = &ops[i].action {
            if let Some(baseline) = &ops[i].baseline_path {
                if text::same(baseline.as_str(), path) {
                    return true;
                }
            }
        }
        i = i + 1;
    }
    false
}

/// Collects the lifecycle operations of a change: every add, delete, move and
/// undelete, each event once. Deletions that a change expresses as content
/// replacements are kept for the paths listed as deleted.
pub fn collect_tree_ops(
    pristine: &Pristine,
    change: ContentHash,
    hunks: &Vec<GraphOp>,
    deleted: &Vec<String>,
) -> (collected: Result<Vec<DeferredTreeOp>, TreeRefusal>)
    ensures
        match collected {
            Ok(ops) => tree_ops(pristine@, change, hunk_models(hunks@), text::texts(deleted@))
                == Ok::<Seq<OpModel>, TreeRefusal>(deferred_tree::op_models(ops@)),
            Err(refusal) => tree_ops(pristine@, change, hunk_models(hunks@), text::texts(deleted@))
                == Err::<Seq<OpModel>, TreeRefusal>(refusal),
        },
{
    let ghost models = hunk_models(hunks@);
    let ghost paths = text::texts(deleted@);
    let mut ops: Vec<DeferredTreeOp> = Vec::new();
    let mut i: usize = 0;
    proof {
        assert(deferred_tree::op_models(ops@) =~= Seq::empty());
    }
    while i < hunks.len()
        invariant
            i <= hunks.len(),
            models == hunk_models(hunks@),
            paths == text::texts(deleted@),
            collected_from(pristine@, change, models, paths, 0, Seq::empty()) == collected_from(
                pristine@,
                change,
                models,
                paths,
                i as int,
                deferred_tree::op_models(ops@),
            ),
        decreases hunks.len() - i,
    {
        assert(models[i as int] == hunks@[i as int]@);
        match read_hunk(pristine, change, &hunks[i], deleted) {
            Err(refusal) => {
                return Err(refusal);
            },
            Ok(None) => {},
            Ok(Some(op)) => {
                push_unique(&mut ops, op);
            },
        }
        i = i + 1;
    }
    let ghost start = deferred_tree::op_models(ops@);
    let mut k: usize = 0;
    while k < deleted.len()
        invariant
            k <= deleted.len(),
            models == hunk_models(hunks@),
            paths == text::texts(deleted@),
            collected_from(pristine@, change, models, paths, 0, Seq::empty()) == Ok::<
                Seq<OpModel>,
                TreeRefusal,
            >(start),
            deletions_from(pristine@, change, paths, 0, start) == deletions_from(
                pristine@,
                change,
                paths,
                k as int,
                deferred_tree::op_models(ops@),
            ),
        decreases deleted.len() - k,
    {
        assert(paths[k as int] == deleted@[k as int]@);
        if !has_deletion(&ops, deleted[k].as_str()) {
            match push_delete_for_path(pristine, change, deleted[k].as_str(), &mut ops) {
                Err(refusal) => {
                    return Err(refusal);
                },
                Ok(_) => {},
            }
        }
        k = k + 1;
    }
    Ok(ops)
}

/// An inode that must be bound to a graph position before tree operations
/// apply. Without an inode, a new one is to be allocated.
#[derive(Clone, Copy, Debug, PartialEq, Eq, Structural)]
pub struct Prerequisite {
    pub inode: Option<Inode>,
    pub position: Position,
    pub is_directory: bool,
}

/// The entry that a hunk adds: where it starts, its path and its kind.
pub open spec fn addition(hunk: HunkModel) -> Option<(u64, Seq<char>, bool)> {
    match hunk {
        HunkModel::FileAdd { start, path } => Some((start, path, false)),
        HunkModel::DirAdd { start, path } => Some((start, path, true)),
        _ => None,
    }
}

/// The inode that a hunk restores, and its kind.
pub open spec fn restoration(hunk: HunkModel) -> Option<(HunkPosition, bool)> {
    match hunk {
        HunkModel::FileUndel { inode, .. } => Some((inode, false)),
        HunkModel::DirUndel { inode, .. } => Some((inode, true)),
        _ => None,
    }
}

/// Whether a change adds an entry at this position.
pub open spec fn adds_at(hunks: Seq<HunkModel>, id: NodeId, position: Position) -> bool {
    exists|k: int|
        0 <= k < hunks.len() && (#[trigger] addition(hunks[k]) matches Some(entry)
            && position == Position { change: id, pos: entry.0 })
}

/// Refuses operations from the `i`-th on whose inode the tables do not know,
/// unless the change itself adds it.
pub open spec fn check_ops(
    pristine: PristineModel,
    id: NodeId,
    hunks: Seq<HunkModel>,
    ops: Seq<OpModel>,
    i: int,
) -> Result<(), TreeRefusal>
    decreases ops.len() - i,
{
    if i < 0 || i >= ops.len() {
        Ok(())
    } else {
        match pristine.internal(ops[i].inode.change) {
            None => Err(TreeRefusal::UnknownChange { change: ops[i].inode.change }),
            Some(change) => {
                let position = Position { change, pos: ops[i].inode.pos };
                if !adds_at(hunks, id, position) && pristine.position_inode(position) is None {
                    Err(TreeRefusal::PositionWithoutInode { position })
                } else {
                    check_ops(pristine, id, hunks, ops, i + 1)
                }
            },
        }
    }
}

/// The inode for an added entry: the one already at its position, else, where
/// cached paths may be taken over, the staged one at its path. A path bound to
/// another graph inode is refused.
pub open spec fn inode_for_addition(
    pristine: PristineModel,
    position: Position,
    path: Seq<char>,
    preserve: bool,
) -> Result<Option<Inode>, TreeRefusal> {
    match pristine.position_inode(position) {
        Some(inode) => Ok(Some(inode)),
        None => if preserve {
            Ok(None)
        } else {
            match pristine.inode(path) {
                None => Ok(None),
                Some(inode) => if pristine.inode_position(inode) is None {
                    Ok(Some(inode))
                } else {
                    Err(TreeRefusal::PathOccupied { inode })
                },
            }
        },
    }
}

/// Adds to `found` the inodes for entries that the hunks from the `i`-th on add.
pub open spec fn addition_inodes(
    pristine: PristineModel,
    id: NodeId,
    hunks: Seq<HunkModel>,
    preserve: bool,
    i: int,
    found: Seq<Prerequisite>,
) -> Result<Seq<Prerequisite>, TreeRefusal>
    decreases hunks.len() - i,
{
    if i < 0 || i >= hunks.len() {
        Ok(found)
    } else {
        match addition(hunks[i]) {
            None => addition_inodes(pristine, id, hunks, preserve, i + 1, found),
            Some((start, path, is_directory)) => {
                let position = Position { change: id, pos: start };
                match inode_for_addition(pristine, position, path, preserve) {
                    Err(refusal) => Err(refusal),
                    Ok(inode) => addition_inodes(
                        pristine,
                        id,
                        hunks,
                        preserve,
                        i + 1,
                        found.push(Prerequisite { inode, position, is_directory }),
                    ),
                }
            },
        }
    }
}

/// Adds to `found` the inodes that the hunks from the `i`-th on restore.
pub open spec fn restoration_inodes(
    pristine: PristineModel,
    change: ContentHash,
    hunks: Seq<HunkModel>,
    i: int,
    found: Seq<Prerequisite>,
) -> Result<Seq<Prerequisite>, TreeRefusal>
    decreases hunks.len() - i,
{
    if i < 0 || i >= hunks.len() {
        Ok(found)
    } else {
        match restoration(hunks[i]) {
            None => restoration_inodes(pristine, change, hunks, i + 1, found),
            Some((inode, is_directory)) => match externalized(change, inode) {
                Err(refusal) => Err(refusal),
                Ok(at) => match tree_alignment::locate(pristine, at) {
                    Err(refusal) => Err(of_restoration(refusal)),
                    Ok((position, inode)) => restoration_inodes(
                        pristine,
                        change,
                        hunks,
                        i + 1,
                        found.push(Prerequisite { inode: Some(inode), position, is_directory }),
                    ),
                },
            },
        }
    }
}

/// What applying a change to the tree takes: its lifecycle operations and the
/// inodes that they need.
pub open spec fn prepared(
    pristine: PristineModel,
    id: NodeId,
    change: ContentHash,
    hunks: Seq<HunkModel>,
    deleted: Seq<Seq<char>>,
    preserve: bool,
) -> Result<(Seq<OpModel>, Seq<Prerequisite>), TreeRefusal> {
    match tree_ops(pristine, change, hunks, deleted) {
        Err(refusal) => Err(refusal),
        Ok(ops) => match check_ops(pristine, id, hunks, ops, 0) {
            Err(refusal) => Err(refusal),
            Ok(_) => match addition_inodes(pristine, id, hunks, preserve, 0, Seq::empty()) {
                Err(refusal) => Err(refusal),
                Ok(found) => match restoration_inodes(pristine, change, hunks, 0, found) {
                    Err(refusal) => Err(refusal),
                    Ok(found) => Ok((ops, found)),
                },
            },
        },
    }
}

/// What applying a change to the tree takes.
#[derive(Debug)]
pub struct PreparedTreeProjection {
    pub ops: Vec<DeferredTreeOp>,
    pub prerequisites: Vec<Prerequisite>,
}

fn find_addition(hunks: &Vec<GraphOp>, id: NodeId, position: Position) -> (found: bool)
    ensures
        found == adds_at(hunk_models(hunks@), id, position),
{
    let ghost models = hunk_models(hunks@);
    let mut i: usize = 0;
    while i < hunks.len()
        invariant
            i <= hunks.len(),
            models == hunk_models(hunks@),
            forall|k: int|
                0 <= k < i ==> !(#[trigger] addition(models[k]) matches Some(entry) && position
                    == Position { change: id, pos: entry.0 }),
        decreases hunks.len() - i,
    {
        assert(models[i as int] == hunks@[i as int]@);
        let start: Option<u64> = match &hunks[i] {
            GraphOp::FileAdd { start, .. } => Some(*start),
            GraphOp::DirAdd { start, .. } => Some(*start),
            _ => None,
        };
        if let Some(start) = start {
            if position.change == id && position.pos == start {
                assert(addition(models[i as int]) is Some);
                return true;
            }
        }
        i = i + 1;
    }
    false
}

fn check_operations(
    pristine: &Pristine,
    id: NodeId,
    hunks: &Vec<GraphOp>,
    ops: &Vec<DeferredTreeOp>,
) -> (checked: Result<(), TreeRefusal>)
    ensures
        checked == check_ops(
            pristine@,
            id,
            hunk_models(hunks@),
            deferred_tree::op_models(ops@),
            0,
        ),
{
    let ghost models = deferred_tree::op_models(ops@);
    let ghost hs = hunk_models(hunks@);
    let mut i: usize = 0;
    while i < ops.len()
        invariant
            i <= ops.len(),
            models == deferred_tree::op_models(ops@),
            hs == hunk_models(hunks@),
            check_ops(pristine@, id, hs, models, 0) == check_ops(
                pristine@,
                id,
                hs,
                models,
                i as int,
            ),
        decreases ops.len() - i,
    {
        assert(models[i as int] == ops@[i as int]@);
        match pristine.get_internal(ops[i].inode.change) {
            None => {
                return Err(TreeRefusal::UnknownChange { change: ops[i].inode.change });
            },
            Some(change) => {
                let position = Position { change, pos: ops[i].inode.pos };
                if !find_addition(hunks, id, position) && pristine.position_inode(
                    position,
                ).is_none() {
                    return Err(TreeRefusal::PositionWithoutInode { position });
                }
            },
        }
        i = i + 1;
    }
    Ok(())
}

fn choose_inode(pristine: &Pristine, position: Position, path: &str, preserve: bool) -> (chosen:
    Result<Option<Inode>, TreeRefusal>)
    ensures
        chosen == inode_for_addition(pristine@, position, path@, preserve),
{
    match pristine.position_inode(position) {
        Some(inode) => Ok(Some(inode)),
        None => if preserve {
            Ok(None)
        } else {
            match pristine.get_inode(path) {
                None => Ok(None),
                Some(inode) => if pristine.inode_position(inode).is_none() {
                    Ok(Some(inode))
                } else {
                    Err(TreeRefusal::PathOccupied { inode })
                },
            }
        },
    }
}

fn prepare_additions(pristine: &Pristine, id: NodeId, hunks: &Vec<GraphOp>, preserve: bool) -> (found:
    Result<Vec<Prerequisite>, TreeRefusal>)
    ensures
        match found {
            Ok(list) => addition_inodes(
                pristine@,
                id,
                hunk_models(hunks@),
                preserve,
                0,
                Seq::empty(),
            ) == Ok::<Seq<Prerequisite>, TreeRefusal>(list@),
            Err(refusal) => addition_inodes(
                pristine@,
                id,
                hunk_models(hunks@),
                preserve,
                0,
                Seq::empty(),
            ) == Err::<Seq<Prerequisite>, TreeRefusal>(refusal),
        },
{
    let ghost models = hunk_models(hunks@);
    let mut list: Vec<Prerequisite> = Vec::new();
    let mut i: usize = 0;
    while i < hunks.len()
        invariant
            i <= hunks.len(),
            models == hunk_models(hunks@),
            addition_inodes(pristine@, id, models, preserve, 0, Seq::empty()) == addition_inodes(
                pristine@,
                id,
                models,
                preserve,
                i as int,
                list@,
            ),
        decreases hunks.len() - i,
    {
        assert(models[i as int] == hunks@[i as int]@);
        let added: Option<(u64, &String, bool)> = match &hunks[i] {
            GraphOp::FileAdd { start, path } => Some((*start, path, false)),
            GraphOp::DirAdd { start, path } => Some((*start, path, true)),
            _ => None,
        };
        if let Some((start, path, is_directory)) = added {
            let position = Position { change: id, pos: start };
            match choose_inode(pristine, position, path.as_str(), preserve) {
                Err(refusal) => {
                    return Err(refusal);
                },
                Ok(inode) => list.push(Prerequisite { inode, position, is_directory }),
            }
        }
        i = i + 1;
    }
    Ok(list)
}

fn prepare_restorations(
    pristine: &Pristine,
    change: ContentHash,
    hunks: &Vec<GraphOp>,
    list: &mut Vec<Prerequisite>,
) -> (found: Result<(), TreeRefusal>)
    ensures
        match found {
            Ok(_) => restoration_inodes(pristine@, change, hunk_models(hunks@), 0, old(list)@)
                == Ok::<Seq<Prerequisite>, TreeRefusal>(final(list)@),
            Err(refusal) => restoration_inodes(
                pristine@,
                change,
                hunk_models(hunks@),
                0,
                old(list)@,
            ) == Err::<Seq<Prerequisite>, TreeRefusal>(refusal),
        },
{
    let ghost models = hunk_models(hunks@);
    let ghost start = list@;
    let mut i: usize = 0;
    while i < hunks.len()
        invariant
            i <= hunks.len(),
            models == hunk_models(hunks@),
            start == old(list)@,
            restoration_inodes(pristine@, change, models, 0, start) == restoration_inodes(
                pristine@,
                change,
                models,
                i as int,
                list@,
            ),
        decreases hunks.len() - i,
    {
        assert(models[i as int] == hunks@[i as int]@);
        let restored: Option<(HunkPosition, bool)> = match &hunks[i] {
            GraphOp::FileUndel { inode, .. } => Some((*inode, false)),
            GraphOp::DirUndel { inode, .. } => Some((*inode, true)),
            _ => None,
        };
        if let Some((inode, is_directory)) = restored {
            match external_position(change, inode) {
                Err(refusal) => {
                    return Err(refusal);
                },
                Ok(at) => match tree_alignment::locate_position(pristine, at) {
                    Err(TreeRefusal::UnknownChange { change }) => {
                        return Err(TreeRefusal::UnknownRestored { change });
                    },
                    Err(TreeRefusal::PositionWithoutInode { position }) => {
                        return Err(TreeRefusal::RestoredWithoutInode { position });
                    },
                    Err(refusal) => {
                        return Err(refusal);
                    },
                    Ok((position, inode)) => list.push(
                        Prerequisite { inode: Some(inode), position, is_directory },
                    ),
                },
            }
        }
        i = i + 1;
    }
    Ok(())
}

/// Plans the tree effects of a change before anything is written: which
/// lifecycle operations it has, and which inodes must exist for them. An
/// unknown change or a position without an inode is refused here.
pub fn plan_tree_projection(
    pristine: &Pristine,
    id: NodeId,
    change: ContentHash,
    hunks: &Vec<GraphOp>,
    deleted: &Vec<String>,
    preserve: bool,
) -> (planned: Result<PreparedTreeProjection, TreeRefusal>)
    ensures
        match planned {
            Ok(plan) => prepared(
                pristine@,
                id,
                change,
                hunk_models(hunks@),
                text::texts(deleted@),
                preserve,
            ) == Ok::<(Seq<OpModel>, Seq<Prerequisite>), TreeRefusal>(
                (deferred_tree::op_models(plan.ops@), plan.prerequisites@),
            ),
            Err(refusal) => prepared(
                pristine@,
                id,
                change,
                hunk_models(hunks@),
                text::texts(deleted@),
                preserve,
            ) == Err::<(Seq<OpModel>, Seq<Prerequisite>), TreeRefusal>(refusal),
        },
{
    let ops: Vec<DeferredTreeOp> = match collect_tree_ops(pristine, change, hunks, deleted) {
        Err(refusal) => {
            return Err(refusal);
        },
        Ok(ops) => ops,
    };
    match check_operations(pristine, id, hunks, &ops) {
        Err(refusal) => {
            return Err(refusal);
        },
        Ok(_) => {},
    }
    let mut prerequisites: Vec<Prerequisite> = match prepare_additions(
        pristine,
        id,
        hunks,
        preserve,
    ) {
        Err(refusal) => {
            return Err(refusal);
        },
        Ok(list) => list,
    };
    match prepare_restorations(pristine, change, hunks, &mut prerequisites) {
        Err(refusal) => {
            return Err(refusal);
        },
        Ok(_) => {},
    }
    Ok(PreparedTreeProjection { ops, prerequisites })
}

/// What recording a change's tree effects under a view takes.
#[derive(Debug)]
pub struct TreeUpdate {
    pub journal: tree_alignment::DeferredTreeJournal,
    /// Whether the journal has to be written.
    pub changed: bool,
    /// How the cache follows; nothing where cached paths are kept.
    pub alignment: Option<tree_alignment::AlignmentPlan>,
}

/// Merges prepared operations into the journal, checks the result against the
/// view's visibility, and plans how the cache follows. Metadata that does not
/// validate leaves the journal unwritten.
pub fn apply_tree_projection(
    pristine: &Pristine,
    journal: tree_alignment::DeferredTreeJournal,
    ops: &Vec<DeferredTreeOp>,
    visibility: &crate::pristine::Visibility,
    preserve: bool,
) -> (applied: Result<TreeUpdate, TreeRefusal>)
    requires
        pristine@.dependency_first(),
    ensures
        ({
            let before = deferred_tree::op_models(journal.ops@);
            let merged = tree_alignment::merged_from(before, deferred_tree::op_models(ops@), 0);
            match tree_alignment::validated(pristine@, merged, visibility.changes@) {
                Err(refusal) => applied == Err::<TreeUpdate, TreeRefusal>(refusal),
                Ok(_) => if preserve {
                    applied matches Ok(update) && update.alignment is None
                        && deferred_tree::op_models(update.journal.ops@) == merged
                        && update.journal.version == journal.version && update.changed
                        == tree_alignment::merge_counts_from(
                        before,
                        deferred_tree::op_models(ops@),
                        0,
                    )
                } else {
                    match tree_alignment::alignment(pristine@, merged, *visibility) {
                        Err(refusal) => applied == Err::<TreeUpdate, TreeRefusal>(refusal),
                        Ok(model) => applied matches Ok(update) && update.alignment matches Some(
                            plan,
                        ) && plan@ == model && deferred_tree::op_models(update.journal.ops@)
                            == merged && update.journal.version == journal.version && update.changed
                            == tree_alignment::merge_counts_from(
                            before,
                            deferred_tree::op_models(ops@),
                            0,
                        ),
                    }
                },
            }
        }),
{
    let (merged, changed) = tree_alignment::merge_deferred_tree_ops(journal, ops);
    match tree_alignment::validate_deferred_tree_metadata(pristine, &merged.ops, visibility) {
        Err(refusal) => {
            return Err(refusal);
        },
        Ok(_) => {},
    }
    if preserve {
        return Ok(TreeUpdate { journal: merged, changed, alignment: None });
    }
    match tree_alignment::apply_deferred_tree_ops_in_txn(pristine, &merged.ops, visibility) {
        Err(refusal) => Err(refusal),
        Ok(plan) => Ok(TreeUpdate { journal: merged, changed, alignment: Some(plan) }),
    }
}

} // verus!
