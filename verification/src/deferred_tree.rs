//! Lifecycle operations on tracked paths and the tree that a set of visible
//! changes projects from them.

use crate::collections;
use crate::pristine::{Pristine, PristineModel};
use crate::text;
use crate::types::{ContentHash, ExternalPosition, Inode, NodeId, Position};
use vstd::prelude::*;

verus! {

/// Why tree metadata cannot be projected.
#[derive(Clone, Copy, Debug, PartialEq, Eq, Structural)]
pub enum TreeRefusal {
    /// A change is not registered.
    UnknownChange { change: ContentHash },
    /// A journaled change is not registered.
    UnknownLifecycle { change: ContentHash },
    /// The change that a tree operation is about is not registered.
    UnknownOperand { change: ContentHash },
    /// The change that a restoration is about is not registered.
    UnknownRestored { change: ContentHash },
    /// The dependency metadata of a change could not be read.
    DependenciesUnavailable { change: ContentHash },
    /// Journaled changes depend on each other in a circle.
    DependencyCycle { change: ContentHash },
    /// One inode is both a file and a directory in the metadata.
    KindChanges { at: ExternalPosition },
    /// Concurrent paths precede the deletion of an inode.
    AmbiguousPriorPaths { at: ExternalPosition },
    /// A graph position has no inode.
    PositionWithoutInode { position: Position },
    /// The position that a tree operation is about has no inode.
    OperandWithoutInode { at: ExternalPosition },
    /// The position that a restoration is about has no inode.
    RestoredWithoutInode { position: Position },
    /// Metadata and the DIRECTORIES table disagree on an inode.
    KindDisagrees { inode: Inode },
    /// A visible change has no external hash.
    UnhashedChange { id: NodeId },
    /// An inode has no graph position.
    InodeWithoutPosition { inode: Inode },
    /// An inode's position belongs to the ROOT change.
    InodeAtRoot { inode: Inode },
    /// An inode's position names a change without an external hash.
    InodeWithoutHash { inode: Inode, id: NodeId },
    /// A tree operation names the ROOT change.
    RootReference,
    /// A new path is already bound to a graph inode.
    PathOccupied { inode: Inode },
}

/// What a lifecycle operation does to its inode's path.
#[derive(Debug)]
pub enum DeferredTreeAction {
    Place { path: String },
    Delete,
}

/// What a [`DeferredTreeAction`] says.
pub ghost enum ActionModel {
    Place { path: Seq<char> },
    Delete,
}

impl View for DeferredTreeAction {
    type V = ActionModel;

    open spec fn view(&self) -> ActionModel {
        match self {
            DeferredTreeAction::Place { path } => ActionModel::Place { path: path@ },
            DeferredTreeAction::Delete => ActionModel::Delete,
        }
    }
}

/// A lifecycle operation, in force wherever its change is visible.
#[derive(Debug)]
pub struct DeferredTreeOp {
    /// Change whose visibility activates this operation.
    pub change: ContentHash,
    /// Stable inode position.
    pub inode: ExternalPosition,
    /// Path visible before this inode's first journaled operation.
    pub baseline_path: Option<String>,
    /// Whether the inode is a directory, where the journal says so.
    pub directory: Option<bool>,
    pub action: DeferredTreeAction,
}

/// What a [`DeferredTreeOp`] says.
pub ghost struct OpModel {
    pub change: ContentHash,
    pub inode: ExternalPosition,
    pub baseline_path: Option<Seq<char>>,
    pub directory: Option<bool>,
    pub action: ActionModel,
}

impl View for DeferredTreeOp {
    type V = OpModel;

    open spec fn view(&self) -> OpModel {
        OpModel {
            change: self.change,
            inode: self.inode,
            baseline_path: text::opt_text(self.baseline_path),
            directory: self.directory,
            action: self.action@,
        }
    }
}

/// What a journal's operations say.
pub open spec fn op_models(ops: Seq<DeferredTreeOp>) -> Seq<OpModel> {
    ops.map_values(|op: DeferredTreeOp| op@)
}

/// What borrowed operations say.
pub open spec fn ref_models(ops: Seq<&DeferredTreeOp>) -> Seq<OpModel> {
    ops.map_values(|op: &DeferredTreeOp| op@)
}

/// Whether `ancestor` is found from row `i`, searching its dependencies from
/// the `k`-th on, depth first.
pub open spec fn reaches(
    pristine: PristineModel,
    i: int,
    k: int,
    ancestor: ContentHash,
) -> Result<bool, TreeRefusal>
    decreases
            i,
            (match pristine.changes[i].dependencies {
                Some(list) => list.len() - k,
                None => 0int,
            }),
{
    match pristine.changes[i].dependencies {
        None => Err(TreeRefusal::DependenciesUnavailable { change: pristine.changes[i].hash }),
        Some(list) => if k < 0 || k >= list.len() {
            Ok(false)
        } else if list[k] == ancestor {
            Ok(true)
        } else {
            match pristine.row(list[k]) {
                None => Err(TreeRefusal::UnknownChange { change: list[k] }),
                Some(j) => if 0 <= j < i {
                    match reaches(pristine, j, 0, ancestor) {
                        Ok(false) => reaches(pristine, i, k + 1, ancestor),
                        other => other,
                    }
                } else {
                    Ok(false)
                },
            }
        },
    }
}

/// Whether `descendant` is `ancestor` or depends on it, directly or not.
pub open spec fn depends_on(
    pristine: PristineModel,
    descendant: ContentHash,
    ancestor: ContentHash,
) -> Result<bool, TreeRefusal> {
    if descendant == ancestor {
        Ok(true)
    } else {
        match pristine.row(descendant) {
            None => Err(TreeRefusal::UnknownChange { change: descendant }),
            Some(i) => reaches(pristine, i, 0, ancestor),
        }
    }
}

/// Whether `descendant` is `ancestor` or depends on it, directly or not. A
/// change outside the tables, or one without dependency metadata, is refused
/// when the search comes to it.
pub fn change_depends_on(
    pristine: &Pristine,
    descendant: ContentHash,
    ancestor: ContentHash,
) -> (found: Result<bool, TreeRefusal>)
    requires
        pristine@.dependency_first(),
    ensures
        found == depends_on(pristine@, descendant, ancestor),
{
    if descendant == ancestor {
        return Ok(true);
    }
    let last: usize = match pristine.row(descendant) {
        None => {
            return Err(TreeRefusal::UnknownChange { change: descendant });
        },
        Some(i) => i,
    };
    let mut known: Vec<Result<bool, TreeRefusal>> = Vec::new();
    let mut i: usize = 0;
    let end: usize = last + 1;
    while i < end
        invariant
            pristine@.dependency_first(),
            end <= pristine.changes@.len(),
            i <= end,
            known@.len() == i,
            forall|j: int| 0 <= j < i ==> #[trigger] known@[j] == reaches(pristine@, j, 0, ancestor),
        decreases end - i,
    {
        let answer: Result<bool, TreeRefusal> = search_row(pristine, i, ancestor, &known);
        known.push(answer);
        i = i + 1;
    }
    known[last]
}

/// Searches one row, given the answers of the rows before it.
fn search_row(
    pristine: &Pristine,
    i: usize,
    ancestor: ContentHash,
    known: &Vec<Result<bool, TreeRefusal>>,
) -> (found: Result<bool, TreeRefusal>)
    requires
        pristine@.dependency_first(),
        i < pristine.changes@.len(),
        known@.len() == i,
        forall|j: int| 0 <= j < i ==> #[trigger] known@[j] == reaches(pristine@, j, 0, ancestor),
    ensures
        found == reaches(pristine@, i as int, 0, ancestor),
{
    match &pristine.changes[i].dependencies {
        None => Err(TreeRefusal::DependenciesUnavailable { change: pristine.changes[i].hash }),
        Some(list) => {
            let mut k: usize = 0;
            while k < list.len()
                invariant
                    k <= list.len(),
                    pristine@.dependency_first(),
                    i < pristine.changes@.len(),
                    pristine@.changes[i as int].dependencies == Some(list@),
                    known@.len() == i,
                    forall|j: int|
                        0 <= j < i ==> #[trigger] known@[j] == reaches(pristine@, j, 0, ancestor),
                    reaches(pristine@, i as int, 0, ancestor) == reaches(
                        pristine@,
                        i as int,
                        k as int,
                        ancestor,
                    ),
                decreases list.len() - k,
            {
                assert(pristine@.changes[i as int].dependencies->0[k as int] == list@[k as int]);
                if list[k] == ancestor {
                    return Ok(true);
                }
                match pristine.row(list[k]) {
                    None => {
                        return Err(TreeRefusal::UnknownChange { change: list[k] });
                    },
                    Some(j) => {
                        match known[j] {
                            Ok(false) => {},
                            other => {
                                return other;
                            },
                        }
                    },
                }
                k = k + 1;
            }
            Ok(false)
        },
    }
}

/// The path that one inode should have, and what is known of it besides.
#[derive(Debug)]
pub struct DesiredTreePath {
    pub desired_path: Option<String>,
    pub last_present_path: Option<String>,
    pub known_paths: collections::TextSet,
    pub deleted: bool,
    /// Concurrent, causally maximal actions disagree; the current cache path
    /// then stays.
    pub ambiguous: bool,
    pub directory: Option<bool>,
}

/// What a [`DesiredTreePath`] says.
pub ghost struct DesiredModel {
    pub desired_path: Option<Seq<char>>,
    pub last_present_path: Option<Seq<char>>,
    pub known_paths: Set<Seq<char>>,
    pub deleted: bool,
    pub ambiguous: bool,
    pub directory: Option<bool>,
}

impl View for DesiredTreePath {
    type V = DesiredModel;

    open spec fn view(&self) -> DesiredModel {
        DesiredModel {
            desired_path: text::opt_text(self.desired_path),
            last_present_path: text::opt_text(self.last_present_path),
            known_paths: self.known_paths@,
            deleted: self.deleted,
            ambiguous: self.ambiguous,
            directory: self.directory,
        }
    }
}

/// The first baseline path among an inode's operations.
pub open spec fn first_baseline(ops: Seq<OpModel>) -> Option<Seq<char>>
    decreases ops.len(),
{
    if ops.len() == 0 {
        None
    } else if ops[0].baseline_path is Some {
        ops[0].baseline_path
    } else {
        first_baseline(ops.drop_first())
    }
}

/// Every path that an inode's operations mention.
pub open spec fn mentioned_paths(ops: Seq<OpModel>) -> Set<Seq<char>> {
    Set::new(
        |path: Seq<char>|
            exists|i: int|
                0 <= i < ops.len() && (#[trigger] ops[i].baseline_path == Some(path)
                    || ops[i].action == ActionModel::Place { path }),
    )
}

/// The node kind on which an inode's operations from the `i`-th on agree with
/// `kind`; disagreement is refused.
pub open spec fn agreed_kind(
    ops: Seq<OpModel>,
    i: int,
    kind: Option<bool>,
    at: ExternalPosition,
) -> Result<Option<bool>, TreeRefusal>
    decreases ops.len() - i,
{
    if i < 0 || i >= ops.len() {
        Ok(kind)
    } else if ops[i].directory is Some && kind is Some && kind != ops[i].directory {
        Err(TreeRefusal::KindChanges { at })
    } else {
        agreed_kind(
            ops,
            i + 1,
            if ops[i].directory is Some {
                ops[i].directory
            } else {
                kind
            },
            at,
        )
    }
}

/// Whether an operation from the `j`-th on supersedes the `i`-th: a later one
/// of the same change, or one of a change that depends on the `i`-th's.
pub open spec fn superseded(
    pristine: PristineModel,
    ops: Seq<OpModel>,
    i: int,
    j: int,
) -> Result<bool, TreeRefusal>
    decreases ops.len() - j,
{
    if j < 0 || j >= ops.len() {
        Ok(false)
    } else if j != i && ops[i].change == ops[j].change && j > i {
        Ok(true)
    } else if ops[i].change == ops[j].change {
        superseded(pristine, ops, i, j + 1)
    } else {
        match depends_on(pristine, ops[j].change, ops[i].change) {
            Ok(false) => superseded(pristine, ops, i, j + 1),
            other => other,
        }
    }
}

/// Adds to `found` the causally maximal operations from the `i`-th on.
pub open spec fn maximal(
    pristine: PristineModel,
    ops: Seq<OpModel>,
    i: int,
    found: Seq<int>,
) -> Result<Seq<int>, TreeRefusal>
    decreases ops.len() - i,
{
    if i < 0 || i >= ops.len() {
        Ok(found)
    } else {
        match superseded(pristine, ops, i, 0) {
            Err(refusal) => Err(refusal),
            Ok(true) => maximal(pristine, ops, i + 1, found),
            Ok(false) => maximal(pristine, ops, i + 1, found.push(i)),
        }
    }
}

/// Whether operation `s` precedes one of the deletions listed from the `d`-th
/// on: an earlier one of the same change, or one of a dependency.
pub open spec fn precedes(
    pristine: PristineModel,
    ops: Seq<OpModel>,
    s: int,
    deletions: Seq<int>,
    d: int,
) -> Result<bool, TreeRefusal>
    decreases deletions.len() - d,
{
    if d < 0 || d >= deletions.len() {
        Ok(false)
    } else if ops[s].change == ops[deletions[d]].change {
        if s < deletions[d] {
            Ok(true)
        } else {
            precedes(pristine, ops, s, deletions, d + 1)
        }
    } else {
        match depends_on(pristine, ops[deletions[d]].change, ops[s].change) {
            Ok(false) => precedes(pristine, ops, s, deletions, d + 1),
            other => other,
        }
    }
}

/// Adds to `found` the placements from the `s`-th operation on that precede a
/// listed deletion.
pub open spec fn predecessors(
    pristine: PristineModel,
    ops: Seq<OpModel>,
    deletions: Seq<int>,
    s: int,
    found: Seq<OpModel>,
) -> Result<Seq<OpModel>, TreeRefusal>
    decreases ops.len() - s,
{
    if s < 0 || s >= ops.len() {
        Ok(found)
    } else if ops[s].action is Delete {
        predecessors(pristine, ops, deletions, s + 1, found)
    } else {
        match precedes(pristine, ops, s, deletions, 0) {
            Err(refusal) => Err(refusal),
            Ok(true) => predecessors(pristine, ops, deletions, s + 1, found.push(ops[s])),
            Ok(false) => predecessors(pristine, ops, deletions, s + 1, found),
        }
    }
}

/// The operations whose changes are visible.
pub open spec fn visible_ops(ops: Seq<OpModel>, visible: Seq<ContentHash>) -> Seq<OpModel> {
    ops.filter(|op: OpModel| visible.contains(op.change))
}

/// The path that a deleted inode last had: that of the causally maximal
/// placements before the deletions, which must agree, or else the baseline.
pub open spec fn path_before_deletion(
    pristine: PristineModel,
    ops: Seq<OpModel>,
    deletions: Seq<int>,
    baseline: Option<Seq<char>>,
    at: ExternalPosition,
) -> Result<Option<Seq<char>>, TreeRefusal> {
    match predecessors(pristine, ops, deletions, 0, Seq::empty()) {
        Err(refusal) => Err(refusal),
        Ok(placed) => match maximal(pristine, placed, 0, Seq::empty()) {
            Err(refusal) => Err(refusal),
            Ok(last) => if exists|k: int|
                0 < k < last.len() && #[trigger] placed[last[k]].action != placed[last[0]].action {
                Err(TreeRefusal::AmbiguousPriorPaths { at })
            } else if last.len() > 0 {
                Ok(Some(placed[last[0]].action->path))
            } else {
                Ok(baseline)
            },
        },
    }
}

/// Where one inode's operations put it under a set of visible changes.
pub open spec fn desired_for(
    pristine: PristineModel,
    ops: Seq<OpModel>,
    visible: Seq<ContentHash>,
    at: ExternalPosition,
) -> Result<DesiredModel, TreeRefusal> {
    let baseline = first_baseline(ops);
    let shown = visible_ops(ops, visible);
    match agreed_kind(ops, 0, None, at) {
        Err(refusal) => Err(refusal),
        Ok(directory) => {
            let plain = DesiredModel {
                desired_path: baseline,
                last_present_path: baseline,
                known_paths: mentioned_paths(ops),
                deleted: false,
                ambiguous: false,
                directory,
            };
            match maximal(pristine, shown, 0, Seq::empty()) {
                Err(refusal) => Err(refusal),
                Ok(last) => if last.len() == 0 {
                    Ok(plain)
                } else if exists|k: int|
                    0 < k < last.len() && #[trigger] shown[last[k]].action
                        != shown[last[0]].action {
                    Ok(DesiredModel { desired_path: None, ambiguous: true, ..plain })
                } else {
                    match shown[last[0]].action {
                        ActionModel::Place { path } => Ok(
                            DesiredModel {
                                desired_path: Some(path),
                                last_present_path: Some(path),
                                ..plain
                            },
                        ),
                        ActionModel::Delete => match path_before_deletion(
                            pristine,
                            shown,
                            last,
                            baseline,
                            at,
                        ) {
                            Err(refusal) => Err(refusal),
                            Ok(path) => Ok(
                                DesiredModel {
                                    desired_path: None,
                                    last_present_path: path,
                                    deleted: true,
                                    ..plain
                                },
                            ),
                        },
                    }
                },
            }
        },
    }
}

/// The operations of one inode.
pub open spec fn ops_of(ops: Seq<OpModel>, at: ExternalPosition) -> Seq<OpModel> {
    ops.filter(|op: OpModel| op.inode == at)
}

/// The inodes of a list of operations, in the order of their first operation.
pub open spec fn inodes_of(ops: Seq<OpModel>) -> Seq<ExternalPosition>
    decreases ops.len(),
{
    if ops.len() == 0 {
        Seq::empty()
    } else {
        let rest = inodes_of(ops.drop_last());
        if rest.contains(ops.last().inode) {
            rest
        } else {
            rest.push(ops.last().inode)
        }
    }
}

/// Adds to `plan` the desired paths of the inodes from the `i`-th on.
pub open spec fn desired_from(
    pristine: PristineModel,
    ops: Seq<OpModel>,
    visible: Seq<ContentHash>,
    inodes: Seq<ExternalPosition>,
    i: int,
    plan: Seq<(ExternalPosition, DesiredModel)>,
) -> Result<Seq<(ExternalPosition, DesiredModel)>, TreeRefusal>
    decreases inodes.len() - i,
{
    if i < 0 || i >= inodes.len() {
        Ok(plan)
    } else {
        match desired_for(pristine, ops_of(ops, inodes[i]), visible, inodes[i]) {
            Err(refusal) => Err(refusal),
            Ok(desired) => desired_from(
                pristine,
                ops,
                visible,
                inodes,
                i + 1,
                plan.push((inodes[i], desired)),
            ),
        }
    }
}

/// The desired path of every journaled inode.
pub open spec fn desired_paths(
    pristine: PristineModel,
    ops: Seq<OpModel>,
    visible: Seq<ContentHash>,
) -> Result<Seq<(ExternalPosition, DesiredModel)>, TreeRefusal> {
    desired_from(pristine, ops, visible, inodes_of(ops), 0, Seq::empty())
}

/// What a computed plan says.
pub open spec fn plan_models(plan: Seq<(ExternalPosition, DesiredTreePath)>) -> Seq<
    (ExternalPosition, DesiredModel),
> {
    plan.map_values(|e: (ExternalPosition, DesiredTreePath)| (e.0, e.1@))
}

/// Whether two actions are the same.
pub fn same_action(a: &DeferredTreeAction, b: &DeferredTreeAction) -> (equal: bool)
    ensures
        equal == (a@ == b@),
{
    match (a, b) {
        (DeferredTreeAction::Place { path: x }, DeferredTreeAction::Place { path: y }) => text::same(
            x.as_str(),
            y.as_str(),
        ),
        (DeferredTreeAction::Delete, DeferredTreeAction::Delete) => true,
        _ => false,
    }
}

fn agree_on_kind(ops: &Vec<&DeferredTreeOp>, at: ExternalPosition) -> (kind: Result<
    Option<bool>,
    TreeRefusal,
>)
    ensures
        kind == agreed_kind(ref_models(ops@), 0, None, at),
{
    let ghost models = ref_models(ops@);
    let mut kind: Option<bool> = None;
    let mut i: usize = 0;
    while i < ops.len()
        invariant
            i <= ops.len(),
            models == ref_models(ops@),
            agreed_kind(models, 0, None, at) == agreed_kind(models, i as int, kind, at),
        decreases ops.len() - i,
    {
        assert(models[i as int] == ops@[i as int]@);
        if let Some(candidate) = ops[i].directory {
            if let Some(existing) = kind {
                if existing != candidate {
                    return Err(TreeRefusal::KindChanges { at });
                }
            }
            kind = Some(candidate);
        }
        i = i + 1;
    }
    Ok(kind)
}

fn find_baseline(ops: &Vec<&DeferredTreeOp>) -> (baseline: Option<String>)
    ensures
        text::opt_text(baseline) == first_baseline(ref_models(ops@)),
{
    let ghost models = ref_models(ops@);
    let mut i: usize = 0;
    proof {
        assert(models.skip(0) =~= models);
    }
    while i < ops.len()
        invariant
            i <= ops.len(),
            models == ref_models(ops@),
            first_baseline(models) == first_baseline(models.skip(i as int)),
        decreases ops.len() - i,
    {
        assert(models.skip(i as int).drop_first() =~= models.skip(i + 1));
        assert(models.skip(i as int)[0] == ops@[i as int]@);
        if ops[i].baseline_path.is_some() {
            return text::dup_opt(&ops[i].baseline_path);
        }
        i = i + 1;
    }
    None
}

fn collect_paths(ops: &Vec<&DeferredTreeOp>) -> (paths: collections::TextSet)
    ensures
        paths.wf(),
        paths@ == mentioned_paths(ref_models(ops@)),
{
    let ghost models = ref_models(ops@);
    let mut paths = collections::TextSet::new();
    let mut i: usize = 0;
    proof {
        assert(mentioned_paths(models.take(0)) =~= Set::empty());
    }
    while i < ops.len()
        invariant
            i <= ops.len(),
            models == ref_models(ops@),
            paths.wf(),
            paths@ == mentioned_paths(models.take(i as int)),
        decreases ops.len() - i,
    {
        let ghost head = models.take(i as int);
        let ghost next = models.take(i + 1);
        let ghost before = paths@;
        let ghost op = models[i as int];
        if let Some(path) = &ops[i].baseline_path {
            paths.insert(path.as_str());
        }
        if let DeferredTreeAction::Place { path } = &ops[i].action {
            paths.insert(path.as_str());
        }
        proof {
            assert(op == ops@[i as int]@);
            assert forall|path: Seq<char>| paths@.contains(path) == #[trigger] mentioned_paths(
                next,
            ).contains(path) by {
                if mentioned_paths(next).contains(path) {
                    let k = choose|k: int|
                        0 <= k < next.len() && (#[trigger] next[k].baseline_path == Some(path)
                            || next[k].action == ActionModel::Place { path });
                    if k < i {
                        assert(head[k] == next[k]);
                        assert(mentioned_paths(head).contains(path));
                    }
                }
                if mentioned_paths(head).contains(path) {
                    let k = choose|k: int|
                        0 <= k < head.len() && (#[trigger] head[k].baseline_path == Some(path)
                            || head[k].action == ActionModel::Place { path });
                    assert(next[k] == head[k]);
                }
                assert(next[i as int] == op);
                if op.baseline_path == Some(path) || op.action == (ActionModel::Place { path }) {
                    assert(next[i as int].baseline_path == Some(path) || next[i as int].action
                        == ActionModel::Place { path });
                }
            }
            assert(paths@ =~= mentioned_paths(next));
        }
        i = i + 1;
    }
    assert(models.take(i as int) =~= models);
    paths
}

/// The models at the listed places.
pub open spec fn indices(list: Seq<usize>) -> Seq<int> {
    list.map_values(|k: usize| k as int)
}

fn is_superseded(pristine: &Pristine, ops: &Vec<&DeferredTreeOp>, i: usize) -> (found: Result<
    bool,
    TreeRefusal,
>)
    requires
        pristine@.dependency_first(),
        i < ops@.len(),
    ensures
        found == superseded(pristine@, ref_models(ops@), i as int, 0),
{
    let ghost models = ref_models(ops@);
    let mut j: usize = 0;
    while j < ops.len()
        invariant
            j <= ops.len(),
            i < ops.len(),
            pristine@.dependency_first(),
            models == ref_models(ops@),
            superseded(pristine@, models, i as int, 0) == superseded(
                pristine@,
                models,
                i as int,
                j as int,
            ),
        decreases ops.len() - j,
    {
        assert(models[i as int] == ops@[i as int]@);
        assert(models[j as int] == ops@[j as int]@);
        if ops[i].change == ops[j].change {
            if j > i {
                return Ok(true);
            }
        } else {
            match change_depends_on(pristine, ops[j].change, ops[i].change) {
                Ok(false) => {},
                other => {
                    return other;
                },
            }
        }
        j = j + 1;
    }
    Ok(false)
}

fn find_maximal(pristine: &Pristine, ops: &Vec<&DeferredTreeOp>) -> (found: Result<
    Vec<usize>,
    TreeRefusal,
>)
    requires
        pristine@.dependency_first(),
    ensures
        match found {
            Ok(list) => maximal(pristine@, ref_models(ops@), 0, Seq::empty()) == Ok::<
                Seq<int>,
                TreeRefusal,
            >(indices(list@)) && forall|k: int| 0 <= k < list@.len() ==> #[trigger] list@[k] < ops@.len(),
            Err(refusal) => maximal(pristine@, ref_models(ops@), 0, Seq::empty()) == Err::<
                Seq<int>,
                TreeRefusal,
            >(refusal),
        },
{
    let ghost models = ref_models(ops@);
    let mut list: Vec<usize> = Vec::new();
    let mut i: usize = 0;
    proof {
        assert(indices(list@) =~= Seq::empty());
    }
    while i < ops.len()
        invariant
            i <= ops.len(),
            pristine@.dependency_first(),
            models == ref_models(ops@),
            forall|k: int| 0 <= k < list@.len() ==> #[trigger] list@[k] < ops@.len(),
            maximal(pristine@, models, 0, Seq::empty()) == maximal(
                pristine@,
                models,
                i as int,
                indices(list@),
            ),
        decreases ops.len() - i,
    {
        match is_superseded(pristine, ops, i) {
            Err(refusal) => {
                return Err(refusal);
            },
            Ok(true) => {},
            Ok(false) => {
                let ghost before = indices(list@);
                list.push(i);
                assert(indices(list@) =~= before.push(i as int));
            },
        }
        i = i + 1;
    }
    Ok(list)
}

fn does_precede(
    pristine: &Pristine,
    ops: &Vec<&DeferredTreeOp>,
    s: usize,
    deletions: &Vec<usize>,
) -> (found: Result<bool, TreeRefusal>)
    requires
        pristine@.dependency_first(),
        s < ops@.len(),
        forall|k: int| 0 <= k < deletions@.len() ==> #[trigger] deletions@[k] < ops@.len(),
    ensures
        found == precedes(pristine@, ref_models(ops@), s as int, indices(deletions@), 0),
{
    let ghost models = ref_models(ops@);
    let ghost list = indices(deletions@);
    let mut d: usize = 0;
    while d < deletions.len()
        invariant
            d <= deletions.len(),
            s < ops@.len(),
            pristine@.dependency_first(),
            models == ref_models(ops@),
            list == indices(deletions@),
            forall|k: int| 0 <= k < deletions@.len() ==> #[trigger] deletions@[k] < ops@.len(),
            precedes(pristine@, models, s as int, list, 0) == precedes(
                pristine@,
                models,
                s as int,
                list,
                d as int,
            ),
        decreases deletions.len() - d,
    {
        let k: usize = deletions[d];
        assert(list[d as int] == k as int);
        assert(models[s as int] == ops@[s as int]@);
        assert(models[k as int] == ops@[k as int]@);
        if ops[s].change == ops[k].change {
            if s < k {
                return Ok(true);
            }
        } else {
            match change_depends_on(pristine, ops[k].change, ops[s].change) {
                Ok(false) => {},
                other => {
                    return other;
                },
            }
        }
        d = d + 1;
    }
    Ok(false)
}

fn find_predecessors<'a>(
    pristine: &Pristine,
    ops: &Vec<&'a DeferredTreeOp>,
    deletions: &Vec<usize>,
) -> (found: Result<Vec<&'a DeferredTreeOp>, TreeRefusal>)
    requires
        pristine@.dependency_first(),
        forall|k: int| 0 <= k < deletions@.len() ==> #[trigger] deletions@[k] < ops@.len(),
    ensures
        match found {
            Ok(list) => predecessors(
                pristine@,
                ref_models(ops@),
                indices(deletions@),
                0,
                Seq::empty(),
            ) == Ok::<Seq<OpModel>, TreeRefusal>(ref_models(list@)) && forall|k: int|
                0 <= k < list@.len() ==> #[trigger] ref_models(list@)[k].action is Place,
            Err(refusal) => predecessors(
                pristine@,
                ref_models(ops@),
                indices(deletions@),
                0,
                Seq::empty(),
            ) == Err::<Seq<OpModel>, TreeRefusal>(refusal),
        },
{
    let ghost models = ref_models(ops@);
    let ghost dels = indices(deletions@);
    let mut list: Vec<&'a DeferredTreeOp> = Vec::new();
    let mut s: usize = 0;
    proof {
        assert(ref_models(list@) =~= Seq::empty());
    }
    while s < ops.len()
        invariant
            s <= ops.len(),
            pristine@.dependency_first(),
            models == ref_models(ops@),
            dels == indices(deletions@),
            forall|k: int| 0 <= k < deletions@.len() ==> #[trigger] deletions@[k] < ops@.len(),
            forall|k: int| 0 <= k < list@.len() ==> #[trigger] ref_models(list@)[k].action is Place,
            predecessors(pristine@, models, dels, 0, Seq::empty()) == predecessors(
                pristine@,
                models,
                dels,
                s as int,
                ref_models(list@),
            ),
        decreases ops.len() - s,
    {
        assert(models[s as int] == ops@[s as int]@);
        if let DeferredTreeAction::Place { .. } = &ops[s].action {
            match does_precede(pristine, ops, s, deletions) {
                Err(refusal) => {
                    return Err(refusal);
                },
                Ok(true) => {
                    let ghost before = ref_models(list@);
                    list.push(ops[s]);
                    assert(ref_models(list@) =~= before.push(models[s as int]));
                },
                Ok(false) => {},
            }
        }
        s = s + 1;
    }
    Ok(list)
}

/// Whether a listed operation acts otherwise than the first listed one.
fn actions_differ(ops: &Vec<&DeferredTreeOp>, list: &Vec<usize>) -> (differ: bool)
    requires
        forall|k: int| 0 <= k < list@.len() ==> #[trigger] list@[k] < ops@.len(),
        list@.len() > 0,
    ensures
        differ == exists|k: int|
            0 < k < list@.len() && #[trigger] ref_models(ops@)[indices(list@)[k]].action
                != ref_models(ops@)[indices(list@)[0]].action,
{
    let ghost models = ref_models(ops@);
    let ghost at = indices(list@);
    let mut k: usize = 1;
    while k < list.len()
        invariant
            1 <= k <= list.len(),
            models == ref_models(ops@),
            at == indices(list@),
            forall|j: int| 0 <= j < list@.len() ==> #[trigger] list@[j] < ops@.len(),
            forall|j: int| 0 < j < k ==> #[trigger] models[at[j]].action == models[at[0]].action,
        decreases list.len() - k,
    {
        assert(at[k as int] == list@[k as int] as int);
        assert(at[0] == list@[0] as int);
        assert(models[at[k as int]] == ops@[list@[k as int] as int]@);
        assert(models[at[0]] == ops@[list@[0] as int]@);
        if !same_action(&ops[list[k]].action, &ops[list[0]].action) {
            assert(models[at[k as int]].action != models[at[0]].action);
            return true;
        }
        k = k + 1;
    }
    false
}

fn find_path_before_deletion(
    pristine: &Pristine,
    ops: &Vec<&DeferredTreeOp>,
    deletions: &Vec<usize>,
    baseline: &Option<String>,
    at: ExternalPosition,
) -> (found: Result<Option<String>, TreeRefusal>)
    requires
        pristine@.dependency_first(),
        forall|k: int| 0 <= k < deletions@.len() ==> #[trigger] deletions@[k] < ops@.len(),
    ensures
        match found {
            Ok(path) => path_before_deletion(
                pristine@,
                ref_models(ops@),
                indices(deletions@),
                text::opt_text(*baseline),
                at,
            ) == Ok::<Option<Seq<char>>, TreeRefusal>(text::opt_text(path)),
            Err(refusal) => path_before_deletion(
                pristine@,
                ref_models(ops@),
                indices(deletions@),
                text::opt_text(*baseline),
                at,
            ) == Err::<Option<Seq<char>>, TreeRefusal>(refusal),
        },
{
    let placed: Vec<&DeferredTreeOp> = match find_predecessors(pristine, ops, deletions) {
        Err(refusal) => {
            return Err(refusal);
        },
        Ok(list) => list,
    };
    let last: Vec<usize> = match find_maximal(pristine, &placed) {
        Err(refusal) => {
            return Err(refusal);
        },
        Ok(list) => list,
    };
    if last.len() == 0 {
        return Ok(text::dup_opt(baseline));
    }
    if actions_differ(&placed, &last) {
        return Err(TreeRefusal::AmbiguousPriorPaths { at });
    }
    let ghost models = ref_models(placed@);
    assert(indices(last@)[0] == last@[0] as int);
    assert(models[last@[0] as int] == placed@[last@[0] as int]@);
    match &placed[last[0]].action {
        DeferredTreeAction::Place { path } => Ok(Some(path.clone())),
        DeferredTreeAction::Delete => {
            assert(models[last@[0] as int].action is Place);
            Ok(None)
        },
    }
}

fn keep_visible<'a>(ops: &Vec<&'a DeferredTreeOp>, visible: &Vec<ContentHash>) -> (kept: Vec<
    &'a DeferredTreeOp,
>)
    ensures
        ref_models(kept@) == visible_ops(ref_models(ops@), visible@),
{
    let ghost models = ref_models(ops@);
    let ghost shown = |op: OpModel| visible@.contains(op.change);
    let mut kept: Vec<&'a DeferredTreeOp> = Vec::new();
    let mut i: usize = 0;
    proof {
        reveal(Seq::filter);
        assert(ref_models(kept@) =~= models.take(0).filter(shown));
    }
    while i < ops.len()
        invariant
            i <= ops.len(),
            models == ref_models(ops@),
            shown == (|op: OpModel| visible@.contains(op.change)),
            ref_models(kept@) == models.take(i as int).filter(shown),
        decreases ops.len() - i,
    {
        let ghost before = ref_models(kept@);
        proof {
            reveal(Seq::filter);
            assert(models.take(i + 1).drop_last() =~= models.take(i as int));
            assert(models.take(i + 1).last() == ops@[i as int]@);
        }
        if collections::contains(visible, ops[i].change) {
            kept.push(ops[i]);
            assert(ref_models(kept@) =~= before.push(ops@[i as int]@));
        }
        i = i + 1;
    }
    assert(models.take(i as int) =~= models);
    kept
}

fn select_inode<'a>(ops: &'a Vec<DeferredTreeOp>, at: ExternalPosition) -> (kept: Vec<
    &'a DeferredTreeOp,
>)
    ensures
        ref_models(kept@) == ops_of(op_models(ops@), at),
{
    let ghost models = op_models(ops@);
    let ghost mine = |op: OpModel| op.inode == at;
    let mut kept: Vec<&'a DeferredTreeOp> = Vec::new();
    let mut i: usize = 0;
    proof {
        reveal(Seq::filter);
        assert(ref_models(kept@) =~= models.take(0).filter(mine));
    }
    while i < ops.len()
        invariant
            i <= ops.len(),
            models == op_models(ops@),
            mine == (|op: OpModel| op.inode == at),
            ref_models(kept@) == models.take(i as int).filter(mine),
        decreases ops.len() - i,
    {
        let ghost before = ref_models(kept@);
        proof {
            reveal(Seq::filter);
            assert(models.take(i + 1).drop_last() =~= models.take(i as int));
            assert(models.take(i + 1).last() == ops@[i as int]@);
        }
        if ops[i].inode == at {
            kept.push(&ops[i]);
            assert(ref_models(kept@) =~= before.push(ops@[i as int]@));
        }
        i = i + 1;
    }
    assert(models.take(i as int) =~= models);
    kept
}

fn list_inodes(ops: &Vec<DeferredTreeOp>) -> (inodes: Vec<ExternalPosition>)
    ensures
        inodes@ == inodes_of(op_models(ops@)),
{
    let ghost models = op_models(ops@);
    let mut inodes: Vec<ExternalPosition> = Vec::new();
    let mut i: usize = 0;
    while i < ops.len()
        invariant
            i <= ops.len(),
            models == op_models(ops@),
            inodes@ == inodes_of(models.take(i as int)),
        decreases ops.len() - i,
    {
        proof {
            assert(models.take(i + 1).drop_last() =~= models.take(i as int));
            assert(models.take(i + 1).last() == ops@[i as int]@);
        }
        if !collections::contains(&inodes, ops[i].inode) {
            inodes.push(ops[i].inode);
        }
        i = i + 1;
    }
    assert(models.take(i as int) =~= models);
    inodes
}

/// Where one inode's operations put it under a set of visible changes.
fn plan_inode(
    pristine: &Pristine,
    ops: &Vec<&DeferredTreeOp>,
    visible: &Vec<ContentHash>,
    at: ExternalPosition,
) -> (planned: Result<DesiredTreePath, TreeRefusal>)
    requires
        pristine@.dependency_first(),
    ensures
        match planned {
            Ok(desired) => desired.known_paths.wf() && desired_for(
                pristine@,
                ref_models(ops@),
                visible@,
                at,
            ) == Ok::<DesiredModel, TreeRefusal>(desired@),
            Err(refusal) => desired_for(pristine@, ref_models(ops@), visible@, at) == Err::<
                DesiredModel,
                TreeRefusal,
            >(refusal),
        },
{
    let baseline: Option<String> = find_baseline(ops);
    let directory: Option<bool> = match agree_on_kind(ops, at) {
        Err(refusal) => {
            return Err(refusal);
        },
        Ok(kind) => kind,
    };
    let known_paths: collections::TextSet = collect_paths(ops);
    let shown: Vec<&DeferredTreeOp> = keep_visible(ops, visible);
    let last: Vec<usize> = match find_maximal(pristine, &shown) {
        Err(refusal) => {
            return Err(refusal);
        },
        Ok(list) => list,
    };
    if last.len() == 0 {
        let present: Option<String> = text::dup_opt(&baseline);
        return Ok(
            DesiredTreePath {
                desired_path: baseline,
                last_present_path: present,
                known_paths,
                deleted: false,
                ambiguous: false,
                directory,
            },
        );
    }
    if actions_differ(&shown, &last) {
        return Ok(
            DesiredTreePath {
                desired_path: None,
                last_present_path: baseline,
                known_paths,
                deleted: false,
                ambiguous: true,
                directory,
            },
        );
    }
    assert(indices(last@)[0] == last@[0] as int);
    assert(ref_models(shown@)[last@[0] as int] == shown@[last@[0] as int]@);
    match &shown[last[0]].action {
        DeferredTreeAction::Place { path } => Ok(
            DesiredTreePath {
                desired_path: Some(path.clone()),
                last_present_path: Some(path.clone()),
                known_paths,
                deleted: false,
                ambiguous: false,
                directory,
            },
        ),
        DeferredTreeAction::Delete => {
            match find_path_before_deletion(pristine, &shown, &last, &baseline, at) {
                Err(refusal) => Err(refusal),
                Ok(path) => Ok(
                    DesiredTreePath {
                        desired_path: None,
                        last_present_path: path,
                        known_paths,
                        deleted: true,
                        ambiguous: false,
                        directory,
                    },
                ),
            }
        },
    }
}

/// Plans the path of every journaled inode from the changes that are visible.
/// The causally maximal visible operations of an inode decide; journal order
/// decides nothing between changes of which neither depends on the other.
pub fn desired_tree_paths(
    pristine: &Pristine,
    ops: &Vec<DeferredTreeOp>,
    visible: &Vec<ContentHash>,
) -> (planned: Result<Vec<(ExternalPosition, DesiredTreePath)>, TreeRefusal>)
    requires
        pristine@.dependency_first(),
    ensures
        match planned {
            Ok(plan) => desired_paths(pristine@, op_models(ops@), visible@) == Ok::<
                Seq<(ExternalPosition, DesiredModel)>,
                TreeRefusal,
            >(plan_models(plan@)) && forall|k: int|
                0 <= k < plan@.len() ==> (#[trigger] plan@[k]).1.known_paths.wf(),
            Err(refusal) => desired_paths(pristine@, op_models(ops@), visible@) == Err::<
                Seq<(ExternalPosition, DesiredModel)>,
                TreeRefusal,
            >(refusal),
        },
{
    let ghost models = op_models(ops@);
    let inodes: Vec<ExternalPosition> = list_inodes(ops);
    let mut plan: Vec<(ExternalPosition, DesiredTreePath)> = Vec::new();
    let mut i: usize = 0;
    proof {
        assert(plan_models(plan@) =~= Seq::empty());
    }
    while i < inodes.len()
        invariant
            i <= inodes.len(),
            pristine@.dependency_first(),
            models == op_models(ops@),
            inodes@ == inodes_of(models),
            forall|k: int| 0 <= k < plan@.len() ==> (#[trigger] plan@[k]).1.known_paths.wf(),
            desired_from(pristine@, models, visible@, inodes@, 0, Seq::empty()) == desired_from(
                pristine@,
                models,
                visible@,
                inodes@,
                i as int,
                plan_models(plan@),
            ),
        decreases inodes.len() - i,
    {
        let mine: Vec<&DeferredTreeOp> = select_inode(ops, inodes[i]);
        match plan_inode(pristine, &mine, visible, inodes[i]) {
            Err(refusal) => {
                return Err(refusal);
            },
            Ok(desired) => {
                let ghost before = plan_models(plan@);
                let ghost entry = (inodes@[i as int], desired@);
                plan.push((inodes[i], desired));
                assert(plan_models(plan@) =~= before.push(entry));
            },
        }
        i = i + 1;
    }
    Ok(plan)
}

/// The changes of a list of operations, in the order of their first operation.
pub open spec fn changes_of(ops: Seq<OpModel>) -> Seq<ContentHash>
    decreases ops.len(),
{
    if ops.len() == 0 {
        Seq::empty()
    } else {
        let rest = changes_of(ops.drop_last());
        if rest.contains(ops.last().change) {
            rest
        } else {
            rest.push(ops.last().change)
        }
    }
}

/// Adds `change` to `done`, after the journaled dependencies that it still
/// needs. `stack` holds the changes being visited, `groups` the journaled ones.
pub open spec fn visit(
    pristine: PristineModel,
    groups: Seq<ContentHash>,
    change: ContentHash,
    stack: Seq<ContentHash>,
    done: Seq<ContentHash>,
) -> Result<Seq<ContentHash>, TreeRefusal>
    decreases groups.len() - stack.len(), 0int,
{
    if done.contains(change) {
        Ok(done)
    } else if stack.contains(change) || stack.len() >= groups.len() {
        Err(TreeRefusal::DependencyCycle { change })
    } else {
        match pristine.row(change) {
            None => Err(TreeRefusal::UnknownLifecycle { change }),
            Some(i) => match pristine.changes[i].dependencies {
                None => Err(TreeRefusal::DependenciesUnavailable { change }),
                Some(list) => match visit_dependencies(
                    pristine,
                    groups,
                    list,
                    0,
                    stack.push(change),
                    done,
                ) {
                    Err(refusal) => Err(refusal),
                    Ok(done) => Ok(done.push(change)),
                },
            },
        }
    }
}

/// Visits the journaled changes of `list` from the `k`-th on.
pub open spec fn visit_dependencies(
    pristine: PristineModel,
    groups: Seq<ContentHash>,
    list: Seq<ContentHash>,
    k: int,
    stack: Seq<ContentHash>,
    done: Seq<ContentHash>,
) -> Result<Seq<ContentHash>, TreeRefusal>
    decreases groups.len() - stack.len(), list.len() - k + 1,
{
    if k < 0 || k >= list.len() {
        Ok(done)
    } else if !groups.contains(list[k]) {
        visit_dependencies(pristine, groups, list, k + 1, stack, done)
    } else {
        match visit(pristine, groups, list[k], stack, done) {
            Err(refusal) => Err(refusal),
            Ok(done) => visit_dependencies(pristine, groups, list, k + 1, stack, done),
        }
    }
}

/// Visits the journaled changes from the `i`-th on.
pub open spec fn visit_groups(
    pristine: PristineModel,
    groups: Seq<ContentHash>,
    i: int,
    done: Seq<ContentHash>,
) -> Result<Seq<ContentHash>, TreeRefusal>
    decreases groups.len() - i,
{
    if i < 0 || i >= groups.len() {
        Ok(done)
    } else {
        match visit(pristine, groups, groups[i], Seq::empty(), done) {
            Err(refusal) => Err(refusal),
            Ok(done) => visit_groups(pristine, groups, i + 1, done),
        }
    }
}

/// The operations of one change.
pub open spec fn ops_of_change(ops: Seq<OpModel>, change: ContentHash) -> Seq<OpModel> {
    ops.filter(|op: OpModel| op.change == change)
}

/// The operations change by change, in the order of `changes`.
pub open spec fn grouped(ops: Seq<OpModel>, changes: Seq<ContentHash>) -> Seq<OpModel>
    decreases changes.len(),
{
    if changes.len() == 0 {
        Seq::empty()
    } else {
        grouped(ops, changes.drop_last()) + ops_of_change(ops, changes.last())
    }
}

/// Journaled operations, every change after its journaled dependencies.
pub open spec fn causal_order(pristine: PristineModel, ops: Seq<OpModel>) -> Result<
    Seq<OpModel>,
    TreeRefusal,
> {
    match visit_groups(pristine, changes_of(ops), 0, Seq::empty()) {
        Err(refusal) => Err(refusal),
        Ok(changes) => Ok(grouped(ops, changes)),
    }
}

/// Distinct members of a list are no more than the list has.
pub proof fn distinct_members_fit(members: Seq<ContentHash>, groups: Seq<ContentHash>)
    requires
        members.no_duplicates(),
        forall|k: int| 0 <= k < members.len() ==> groups.contains(#[trigger] members[k]),
    ensures
        members.len() <= groups.len(),
{
    members.unique_seq_to_set();
    groups.lemma_cardinality_of_set();
    assert(members.to_set().subset_of(groups.to_set()));
    vstd::set_lib::lemma_len_subset(members.to_set(), groups.to_set());
}

fn list_changes(ops: &Vec<DeferredTreeOp>) -> (changes: Vec<ContentHash>)
    ensures
        changes@ == changes_of(op_models(ops@)),
{
    let ghost models = op_models(ops@);
    let mut changes: Vec<ContentHash> = Vec::new();
    let mut i: usize = 0;
    while i < ops.len()
        invariant
            i <= ops.len(),
            models == op_models(ops@),
            changes@ == changes_of(models.take(i as int)),
        decreases ops.len() - i,
    {
        proof {
            assert(models.take(i + 1).drop_last() =~= models.take(i as int));
            assert(models.take(i + 1).last() == ops@[i as int]@);
        }
        if !collections::contains(&changes, ops[i].change) {
            changes.push(ops[i].change);
        }
        i = i + 1;
    }
    assert(models.take(i as int) =~= models);
    changes
}

fn visit_change(
    pristine: &Pristine,
    groups: &Vec<ContentHash>,
    change: ContentHash,
    stack: &mut Vec<ContentHash>,
    done: &mut Vec<ContentHash>,
) -> (visited: Result<(), TreeRefusal>)
    requires
        old(stack)@.no_duplicates(),
        forall|k: int| 0 <= k < old(stack)@.len() ==> groups@.contains(#[trigger] old(stack)@[k]),
        groups@.contains(change),
    ensures
        match visited {
            Ok(_) => final(stack)@ == old(stack)@ && visit(
                pristine@,
                groups@,
                change,
                old(stack)@,
                old(done)@,
            ) == Ok::<Seq<ContentHash>, TreeRefusal>(final(done)@),
            Err(refusal) => visit(pristine@, groups@, change, old(stack)@, old(done)@) == Err::<
                Seq<ContentHash>,
                TreeRefusal,
            >(refusal),
        },
    decreases groups@.len() - old(stack)@.len(),
{
    if collections::contains(done, change) {
        return Ok(());
    }
    if collections::contains(stack, change) {
        return Err(TreeRefusal::DependencyCycle { change });
    }
    proof {
        distinct_members_fit(stack@.push(change), groups@);
    }
    let row: usize = match pristine.row(change) {
        None => {
            return Err(TreeRefusal::UnknownLifecycle { change });
        },
        Some(i) => i,
    };
    match &pristine.changes[row].dependencies {
        None => Err(TreeRefusal::DependenciesUnavailable { change }),
        Some(list) => {
            stack.push(change);
            let ghost inner = stack@;
            let ghost start = done@;
            let mut k: usize = 0;
            while k < list.len()
                invariant
                    k <= list.len(),
                    inner.no_duplicates(),
                    inner == old(stack)@.push(change),
                    stack@ == inner,
                    start == old(done)@,
                    groups@.len() > old(stack)@.len(),
                    forall|j: int| 0 <= j < inner.len() ==> groups@.contains(#[trigger] inner[j]),
                    !old(done)@.contains(change),
                    !old(stack)@.contains(change),
                    pristine@.row(change) == Some(row as int),
                    pristine@.changes[row as int].dependencies == Some(list@),
                    visit_dependencies(pristine@, groups@, list@, 0, inner, start)
                        == visit_dependencies(
                        pristine@,
                        groups@,
                        list@,
                        k as int,
                        inner,
                        done@,
                    ),
                decreases list.len() - k,
            {
                if collections::contains(groups, list[k]) {
                    match visit_change(pristine, groups, list[k], stack, done) {
                        Err(refusal) => {
                            return Err(refusal);
                        },
                        Ok(_) => {},
                    }
                }
                k = k + 1;
            }
            stack.pop();
            assert(stack@ =~= old(stack)@);
            done.push(change);
            Ok(())
        },
    }
}

/// A copy of an operation.
pub fn dup_op(op: &DeferredTreeOp) -> (copy: DeferredTreeOp)
    ensures
        copy@ == op@,
{
    DeferredTreeOp {
        change: op.change,
        inode: op.inode,
        baseline_path: text::dup_opt(&op.baseline_path),
        directory: op.directory,
        action: match &op.action {
            DeferredTreeAction::Place { path } => DeferredTreeAction::Place { path: path.clone() },
            DeferredTreeAction::Delete => DeferredTreeAction::Delete,
        },
    }
}

/// Appends copies of the operations of one change.
fn append_change(
    ops: &Vec<DeferredTreeOp>,
    change: ContentHash,
    ordered: &mut Vec<DeferredTreeOp>,
)
    ensures
        op_models(final(ordered)@) == op_models(old(ordered)@) + ops_of_change(
            op_models(ops@),
            change,
        ),
{
    let ghost models = op_models(ops@);
    let ghost mine = |op: OpModel| op.change == change;
    let ghost start = op_models(ordered@);
    let mut i: usize = 0;
    proof {
        reveal(Seq::filter);
        assert(op_models(ordered@) =~= start + models.take(0).filter(mine));
    }
    while i < ops.len()
        invariant
            i <= ops.len(),
            models == op_models(ops@),
            mine == (|op: OpModel| op.change == change),
            op_models(ordered@) == start + models.take(i as int).filter(mine),
        decreases ops.len() - i,
    {
        let ghost before = op_models(ordered@);
        proof {
            reveal(Seq::filter);
            assert(models.take(i + 1).drop_last() =~= models.take(i as int));
            assert(models.take(i + 1).last() == ops@[i as int]@);
        }
        if ops[i].change == change {
            ordered.push(dup_op(&ops[i]));
            assert(op_models(ordered@) =~= before.push(ops@[i as int]@));
            assert(op_models(ordered@) =~= start + models.take(i + 1).filter(mine));
        }
        i = i + 1;
    }
    assert(models.take(i as int) =~= models);
}

/// Orders journaled operations so that every change follows its journaled
/// dependencies; the operations of one change keep their order. A circle of
/// dependencies, an unregistered change or unreadable metadata is refused.
pub fn causally_order_tree_ops(pristine: &Pristine, ops: &Vec<DeferredTreeOp>) -> (ordered: Result<
    Vec<DeferredTreeOp>,
    TreeRefusal,
>)
    ensures
        match ordered {
            Ok(list) => causal_order(pristine@, op_models(ops@)) == Ok::<Seq<OpModel>, TreeRefusal>(
                op_models(list@),
            ),
            Err(refusal) => causal_order(pristine@, op_models(ops@)) == Err::<
                Seq<OpModel>,
                TreeRefusal,
            >(refusal),
        },
{
    let ghost models = op_models(ops@);
    let groups: Vec<ContentHash> = list_changes(ops);
    let mut done: Vec<ContentHash> = Vec::new();
    let mut i: usize = 0;
    while i < groups.len()
        invariant
            i <= groups.len(),
            models == op_models(ops@),
            groups@ == changes_of(models),
            visit_groups(pristine@, groups@, 0, Seq::empty()) == visit_groups(
                pristine@,
                groups@,
                i as int,
                done@,
            ),
        decreases groups.len() - i,
    {
        let mut stack: Vec<ContentHash> = Vec::new();
        match visit_change(pristine, &groups, groups[i], &mut stack, &mut done) {
            Err(refusal) => {
                return Err(refusal);
            },
            Ok(_) => {},
        }
        i = i + 1;
    }
    let mut ordered: Vec<DeferredTreeOp> = Vec::new();
    let mut k: usize = 0;
    proof {
        assert(op_models(ordered@) =~= grouped(models, done@.take(0)));
    }
    while k < done.len()
        invariant
            k <= done.len(),
            models == op_models(ops@),
            op_models(ordered@) == grouped(models, done@.take(k as int)),
        decreases done.len() - k,
    {
        assert(done@.take(k + 1).drop_last() =~= done@.take(k as int));
        append_change(ops, done[k], &mut ordered);
        k = k + 1;
    }
    assert(done@.take(k as int) =~= done@);
    Ok(ordered)
}

/// `done` lists journaled changes once each, every one after the journaled
/// changes on which it directly depends.
pub open spec fn dependencies_come_first(
    pristine: PristineModel,
    groups: Seq<ContentHash>,
    done: Seq<ContentHash>,
) -> bool {
    &&& done.no_duplicates()
    &&& forall|k: int| 0 <= k < done.len() ==> groups.contains(#[trigger] done[k])
    &&& forall|k: int, d: int|
        0 <= k < done.len() && 0 <= d < direct_dependencies(pristine, done[k]).len()
            && groups.contains(direct_dependencies(pristine, done[k])[d]) ==> done.take(
            k,
        ).contains(#[trigger] direct_dependencies(pristine, done[k])[d])
}

/// The recorded direct dependencies of a change.
pub open spec fn direct_dependencies(pristine: PristineModel, change: ContentHash) -> Seq<
    ContentHash,
> {
    match pristine.row(change) {
        Some(i) => match pristine.changes[i].dependencies {
            Some(list) => list,
            None => Seq::empty(),
        },
        None => Seq::empty(),
    }
}

proof fn visit_adds_dependencies_first(
    pristine: PristineModel,
    groups: Seq<ContentHash>,
    change: ContentHash,
    stack: Seq<ContentHash>,
    done: Seq<ContentHash>,
)
    requires
        groups.contains(change),
        dependencies_come_first(pristine, groups, done),
    ensures
        match visit(pristine, groups, change, stack, done) {
            Ok(out) => {
                &&& dependencies_come_first(pristine, groups, out)
                &&& out.contains(change)
                &&& done.is_prefix_of(out)
                &&& forall|x: ContentHash|
                    #[trigger] stack.contains(x) && !done.contains(x) ==> !out.contains(x)
            },
            Err(_) => true,
        },
    decreases groups.len() - stack.len(), 0int,
{
    let out = visit(pristine, groups, change, stack, done);
    if out is Ok && !done.contains(change) {
        let i = pristine.row(change)->0;
        let list = pristine.changes[i].dependencies->0;
        let inner = stack.push(change);
        visit_dependencies_adds_them_first(pristine, groups, list, 0, inner, done);
        let mid = visit_dependencies(pristine, groups, list, 0, inner, done)->Ok_0;
        assert(inner[stack.len() as int] == change);
        assert(inner.contains(change));
        assert(!mid.contains(change));
        let end = mid.push(change);
        assert(out->Ok_0 == end);
        assert(end[mid.len() as int] == change);
        assert forall|k: int, d: int|
            0 <= k < end.len() && 0 <= d < direct_dependencies(pristine, end[k]).len()
                && groups.contains(direct_dependencies(pristine, end[k])[d]) implies end.take(
            k,
        ).contains(#[trigger] direct_dependencies(pristine, end[k])[d]) by {
            if k < mid.len() {
                assert(end.take(k) =~= mid.take(k));
                assert(end[k] == mid[k]);
            } else {
                assert(end.take(k) =~= mid);
                assert(mid.contains(list[d]));
            }
        }
        assert forall|x: ContentHash| #[trigger] stack.contains(x) && !done.contains(
            x,
        ) implies !end.contains(x) by {
            let at = stack.index_of(x);
            assert(inner[at] == x);
            assert(inner.contains(x));
            assert(x != change);
            if end.contains(x) {
                let e = end.index_of(x);
                assert(end[e] == x);
                assert(mid[e] == x);
            }
        }
        assert(done =~= end.subrange(0, done.len() as int));
    } else if out is Ok {
        assert(done =~= done.subrange(0, done.len() as int));
    }
}

proof fn visit_dependencies_adds_them_first(
    pristine: PristineModel,
    groups: Seq<ContentHash>,
    list: Seq<ContentHash>,
    k: int,
    stack: Seq<ContentHash>,
    done: Seq<ContentHash>,
)
    requires
        0 <= k <= list.len(),
        dependencies_come_first(pristine, groups, done),
    ensures
        match visit_dependencies(pristine, groups, list, k, stack, done) {
            Ok(out) => {
                &&& dependencies_come_first(pristine, groups, out)
                &&& done.is_prefix_of(out)
                &&& forall|d: int|
                    k <= d < list.len() && groups.contains(list[d]) ==> out.contains(
                        #[trigger] list[d],
                    )
                &&& forall|x: ContentHash|
                    #[trigger] stack.contains(x) && !done.contains(x) ==> !out.contains(x)
            },
            Err(_) => true,
        },
    decreases groups.len() - stack.len(), list.len() - k + 1,
{
    let out = visit_dependencies(pristine, groups, list, k, stack, done);
    if out is Ok {
        let end = out->Ok_0;
        if k == list.len() {
            assert(done =~= done.subrange(0, done.len() as int));
        } else if !groups.contains(list[k]) {
            visit_dependencies_adds_them_first(pristine, groups, list, k + 1, stack, done);
        } else {
            visit_adds_dependencies_first(pristine, groups, list[k], stack, done);
            let mid = visit(pristine, groups, list[k], stack, done)->Ok_0;
            visit_dependencies_adds_them_first(pristine, groups, list, k + 1, stack, mid);
            assert(done =~= end.subrange(0, done.len() as int)) by {
                assert(mid =~= end.subrange(0, mid.len() as int));
                assert(done =~= mid.subrange(0, done.len() as int));
                assert forall|j: int| 0 <= j < done.len() implies done[j] == end[j] by {
                    assert(mid[j] == end.subrange(0, mid.len() as int)[j]);
                    assert(done[j] == mid.subrange(0, done.len() as int)[j]);
                }
            }
            assert(end.contains(list[k])) by {
                let at = mid.index_of(list[k]);
                assert(mid[at] == end.subrange(0, mid.len() as int)[at]);
                assert(end[at] == list[k]);
            }
        }
    }
}

proof fn visit_groups_adds_all(
    pristine: PristineModel,
    groups: Seq<ContentHash>,
    i: int,
    done: Seq<ContentHash>,
)
    requires
        0 <= i <= groups.len(),
        dependencies_come_first(pristine, groups, done),
        forall|k: int| 0 <= k < i ==> done.contains(#[trigger] groups[k]),
    ensures
        match visit_groups(pristine, groups, i, done) {
            Ok(out) => {
                &&& dependencies_come_first(pristine, groups, out)
                &&& forall|k: int| 0 <= k < groups.len() ==> out.contains(#[trigger] groups[k])
            },
            Err(_) => true,
        },
    decreases groups.len() - i,
{
    if i < groups.len() && visit(pristine, groups, groups[i], Seq::empty(), done) is Ok {
        visit_adds_dependencies_first(pristine, groups, groups[i], Seq::empty(), done);
        let mid = visit(pristine, groups, groups[i], Seq::empty(), done)->Ok_0;
        assert forall|k: int| 0 <= k < i + 1 implies mid.contains(#[trigger] groups[k]) by {
            if k < i {
                let at = done.index_of(groups[k]);
                assert(done[at] == mid.subrange(0, done.len() as int)[at]);
                assert(mid[at] == groups[k]);
            }
        }
        visit_groups_adds_all(pristine, groups, i + 1, mid);
    }
}

/// Every change of a list of operations is listed once.
pub proof fn changes_of_lists_each_once(ops: Seq<OpModel>)
    ensures
        changes_of(ops).no_duplicates(),
        forall|k: int| 0 <= k < ops.len() ==> changes_of(ops).contains(#[trigger] ops[k].change),
    decreases ops.len(),
{
    if ops.len() > 0 {
        changes_of_lists_each_once(ops.drop_last());
        let rest = changes_of(ops.drop_last());
        assert forall|k: int| 0 <= k < ops.len() implies changes_of(ops).contains(
            #[trigger] ops[k].change,
        ) by {
            if k < ops.len() - 1 {
                assert(ops.drop_last()[k] == ops[k]);
                let at = rest.index_of(ops[k].change);
                assert(rest[at] == ops[k].change);
                assert(changes_of(ops)[at] == ops[k].change);
            } else if !rest.contains(ops.last().change) {
                assert(changes_of(ops)[rest.len() as int] == ops.last().change);
            }
        }
    }
}

proof fn group_counts(ops: Seq<OpModel>, change: ContentHash, op: OpModel)
    ensures
        ops_of_change(ops, change).to_multiset().count(op) == if op.change == change {
            ops.to_multiset().count(op)
        } else {
            0
        },
    decreases ops.len(),
{
    broadcast use vstd::seq_lib::group_to_multiset_ensures;

    reveal(Seq::filter);
    let mine = |o: OpModel| o.change == change;
    if ops.len() > 0 {
        let rest = ops.drop_last();
        group_counts(rest, change, op);
        assert(ops =~= rest.push(ops.last()));
        if ops.last().change == change {
            assert(ops_of_change(ops, change) == ops_of_change(rest, change).push(ops.last()));
        } else {
            assert(ops_of_change(ops, change) == ops_of_change(rest, change));
        }
    } else {
        assert(ops_of_change(ops, change) =~= Seq::empty());
    }
}

proof fn grouped_counts(ops: Seq<OpModel>, changes: Seq<ContentHash>, op: OpModel)
    requires
        changes.no_duplicates(),
    ensures
        grouped(ops, changes).to_multiset().count(op) == if changes.contains(op.change) {
            ops.to_multiset().count(op)
        } else {
            0
        },
    decreases changes.len(),
{
    broadcast use vstd::seq_lib::group_to_multiset_ensures;

    if changes.len() > 0 {
        let rest = changes.drop_last();
        grouped_counts(ops, rest, op);
        group_counts(ops, changes.last(), op);
        vstd::seq_lib::lemma_multiset_commutative(
            grouped(ops, rest),
            ops_of_change(ops, changes.last()),
        );
        if rest.contains(op.change) {
            let at = rest.index_of(op.change);
            assert(changes[at] == op.change);
            assert(changes.last() != op.change);
        }
        if changes.contains(op.change) {
            let at = changes.index_of(op.change);
            if at < changes.len() - 1 {
                assert(rest[at] == op.change);
            }
        }
    }
}

/// Causal ordering loses, invents and repeats no operation.
pub proof fn causal_order_permutes(pristine: PristineModel, ops: Seq<OpModel>)
    ensures
        causal_order(pristine, ops) matches Ok(list) ==> list.to_multiset() == ops.to_multiset(),
{
    broadcast use vstd::seq_lib::group_to_multiset_ensures;

    let groups = changes_of(ops);
    if let Ok(list) = causal_order(pristine, ops) {
        changes_of_lists_each_once(ops);
        visit_groups_adds_all(pristine, groups, 0, Seq::empty());
        let done = visit_groups(pristine, groups, 0, Seq::empty())->Ok_0;
        assert forall|op: OpModel| #[trigger]
            list.to_multiset().count(op) == ops.to_multiset().count(op) by {
            grouped_counts(ops, done, op);
            if ops.contains(op) {
                let at = ops.index_of(op);
                assert(ops[at].change == op.change);
                let g = groups.index_of(op.change);
                assert(groups[g] == op.change);
            }
        }
        assert(list.to_multiset() =~= ops.to_multiset());
    }
}

/// Causal ordering lists the journaled changes once each, every one after the
/// journaled changes on which it directly depends.
pub proof fn causal_order_puts_dependencies_first(pristine: PristineModel, ops: Seq<OpModel>)
    ensures
        causal_order(pristine, ops) matches Ok(list) ==> exists|changes: Seq<ContentHash>| #[trigger]
            grouped(ops, changes) == list && dependencies_come_first(
                pristine,
                changes_of(ops),
                changes,
            ) && changes.to_set() == changes_of(ops).to_set(),
{
    let groups = changes_of(ops);
    if let Ok(list) = causal_order(pristine, ops) {
        visit_groups_adds_all(pristine, groups, 0, Seq::empty());
        let done = visit_groups(pristine, groups, 0, Seq::empty())->Ok_0;
        assert(done.to_set() =~= groups.to_set()) by {
            assert forall|x: ContentHash| groups.contains(x) implies #[trigger] done.contains(x) by {
                let at = groups.index_of(x);
                assert(groups[at] == x);
            }
            assert forall|x: ContentHash| #[trigger] done.contains(x) implies groups.contains(x) by {
                let at = done.index_of(x);
                assert(done[at] == x);
            }
        }
        assert(grouped(ops, done) == list);
    }
}

/// Adds to `hashes` the external hashes of the changes from the `i`-th on.
pub open spec fn hashes_from(
    pristine: PristineModel,
    changes: Seq<NodeId>,
    i: int,
    hashes: Seq<ContentHash>,
) -> Result<Seq<ContentHash>, TreeRefusal>
    decreases changes.len() - i,
{
    if i < 0 || i >= changes.len() {
        Ok(hashes)
    } else {
        match pristine.external(changes[i]) {
            None => Err(TreeRefusal::UnhashedChange { id: changes[i] }),
            Some(hash) => hashes_from(pristine, changes, i + 1, hashes.push(hash)),
        }
    }
}

/// The external hashes of visible changes, every one of which must have one.
pub fn visible_hashes(pristine: &Pristine, changes: &Vec<NodeId>) -> (found: Result<
    Vec<ContentHash>,
    TreeRefusal,
>)
    ensures
        match found {
            Ok(hashes) => hashes_from(pristine@, changes@, 0, Seq::empty()) == Ok::<
                Seq<ContentHash>,
                TreeRefusal,
            >(hashes@),
            Err(refusal) => hashes_from(pristine@, changes@, 0, Seq::empty()) == Err::<
                Seq<ContentHash>,
                TreeRefusal,
            >(refusal),
        },
{
    let mut hashes: Vec<ContentHash> = Vec::new();
    let mut i: usize = 0;
    while i < changes.len()
        invariant
            i <= changes.len(),
            hashes_from(pristine@, changes@, 0, Seq::empty()) == hashes_from(
                pristine@,
                changes@,
                i as int,
                hashes@,
            ),
        decreases changes.len() - i,
    {
        match pristine.get_external(changes[i]) {
            None => {
                return Err(TreeRefusal::UnhashedChange { id: changes[i] });
            },
            Some(hash) => hashes.push(hash),
        }
        i = i + 1;
    }
    Ok(hashes)
}

/// The desired paths of a journal under a set of visible changes: causal
/// order first, then the plan.
pub open spec fn journal_plan(
    pristine: PristineModel,
    ops: Seq<OpModel>,
    changes: Seq<NodeId>,
) -> Result<Seq<(ExternalPosition, DesiredModel)>, TreeRefusal> {
    match hashes_from(pristine, changes, 0, Seq::empty()) {
        Err(refusal) => Err(refusal),
        Ok(hashes) => match causal_order(pristine, ops) {
            Err(refusal) => Err(refusal),
            Ok(ordered) => desired_paths(pristine, ordered, hashes),
        },
    }
}

/// Plans a journal under a set of visible changes.
pub fn desired_tree_paths_for_txn(
    pristine: &Pristine,
    ops: &Vec<DeferredTreeOp>,
    changes: &Vec<NodeId>,
) -> (planned: Result<Vec<(ExternalPosition, DesiredTreePath)>, TreeRefusal>)
    requires
        pristine@.dependency_first(),
    ensures
        match planned {
            Ok(plan) => journal_plan(pristine@, op_models(ops@), changes@) == Ok::<
                Seq<(ExternalPosition, DesiredModel)>,
                TreeRefusal,
            >(plan_models(plan@)) && forall|k: int|
                0 <= k < plan@.len() ==> (#[trigger] plan@[k]).1.known_paths.wf(),
            Err(refusal) => journal_plan(pristine@, op_models(ops@), changes@) == Err::<
                Seq<(ExternalPosition, DesiredModel)>,
                TreeRefusal,
            >(refusal),
        },
{
    match visible_hashes(pristine, changes) {
        Err(refusal) => Err(refusal),
        Ok(hashes) => match causally_order_tree_ops(pristine, ops) {
            Err(refusal) => Err(refusal),
            Ok(ordered) => desired_tree_paths(pristine, &ordered, &hashes),
        },
    }
}

/// A tracked entry of the tree cache with its stable position.
#[derive(Debug)]
struct CachedEntry {
    at: ExternalPosition,
    inode: Inode,
    path: String,
    is_directory: bool,
    position: Position,
}

/// What a cached entry says.
pub ghost struct CachedModel {
    pub at: ExternalPosition,
    pub inode: Inode,
    pub path: Seq<char>,
    pub is_directory: bool,
    pub position: Position,
}

impl View for CachedEntry {
    type V = CachedModel;

    closed spec fn view(&self) -> CachedModel {
        CachedModel {
            at: self.at,
            inode: self.inode,
            path: self.path@,
            is_directory: self.is_directory,
            position: self.position,
        }
    }
}

/// What cached entries say.
spec fn cached_models(entries: Seq<CachedEntry>) -> Seq<CachedModel> {
    entries.map_values(|e: CachedEntry| e@)
}

/// The cached entry of one TREE row; rows without a hashed graph position
/// stand for nothing recorded.
pub open spec fn cached_entry(pristine: PristineModel, path: Seq<char>, inode: Inode) -> Option<
    CachedModel,
> {
    match pristine.inode_position(inode) {
        None => None,
        Some(position) => if position.change.spec_is_root() {
            None
        } else {
            match pristine.external(position.change) {
                None => None,
                Some(change) => Some(
                    CachedModel {
                        at: ExternalPosition { change, pos: position.pos },
                        inode,
                        path,
                        is_directory: pristine.is_directory(inode),
                        position,
                    },
                ),
            }
        },
    }
}

/// The stable positions of cached entries.
pub open spec fn cached_positions(entries: Seq<CachedModel>) -> Seq<ExternalPosition> {
    entries.map_values(|e: CachedModel| e.at)
}

/// `entries` with `entry` in the place of the one at the same position, or at
/// the end.
pub open spec fn put_cached(entries: Seq<CachedModel>, entry: CachedModel) -> Seq<CachedModel> {
    match cached_positions(entries).index_of_first(entry.at) {
        Some(i) => entries.update(i, entry),
        None => entries.push(entry),
    }
}

/// Adds to `entries` the cached entries of the TREE rows from the `i`-th on.
pub open spec fn cached_from(pristine: PristineModel, i: int, entries: Seq<CachedModel>) -> Seq<
    CachedModel,
>
    decreases pristine.tree.len() - i,
{
    if i < 0 || i >= pristine.tree.len() {
        entries
    } else {
        match cached_entry(pristine, pristine.tree[i].0, pristine.tree[i].1) {
            None => cached_from(pristine, i + 1, entries),
            Some(entry) => cached_from(pristine, i + 1, put_cached(entries, entry)),
        }
    }
}

fn find_cached(entries: &Vec<CachedEntry>, at: ExternalPosition) -> (found: Option<usize>)
    ensures
        match found {
            Some(i) => i < entries@.len() && cached_positions(
                cached_models(entries@),
            ).index_of_first(at) == Some(i as int),
            None => cached_positions(cached_models(entries@)).index_of_first(at) is None,
        },
{
    let ghost keys = cached_positions(cached_models(entries@));
    proof {
        keys.index_of_first_ensures(at);
    }
    let mut i: usize = 0;
    while i < entries.len()
        invariant
            i <= entries.len(),
            keys == cached_positions(cached_models(entries@)),
            forall|j: int| 0 <= j < i ==> keys[j] != at,
            match keys.index_of_first(at) {
                Some(k) => 0 <= k < keys.len() && keys[k] == at && forall|j: int|
                    0 <= j < k ==> keys[j] != at,
                None => forall|j: int| 0 <= j < keys.len() ==> keys[j] != at,
            },
        decreases entries.len() - i,
    {
        assert(keys[i as int] == entries@[i as int].at);
        if entries[i].at == at {
            return Some(i);
        }
        i = i + 1;
    }
    None
}

fn read_cache(pristine: &Pristine) -> (entries: Vec<CachedEntry>)
    ensures
        cached_models(entries@) == cached_from(pristine@, 0, Seq::empty()),
{
    let mut entries: Vec<CachedEntry> = Vec::new();
    let mut i: usize = 0;
    proof {
        assert(cached_models(entries@) =~= Seq::empty());
    }
    while i < pristine.tree.len()
        invariant
            i <= pristine.tree.len(),
            cached_from(pristine@, 0, Seq::empty()) == cached_from(
                pristine@,
                i as int,
                cached_models(entries@),
            ),
        decreases pristine.tree.len() - i,
    {
        let inode: Inode = pristine.tree[i].1;
        assert(pristine@.tree[i as int] == (pristine.tree@[i as int].0@, inode));
        if let Some(position) = pristine.inode_position(inode) {
            if !position.change.is_root() {
                if let Some(change) = pristine.get_external(position.change) {
                    let entry = CachedEntry {
                        at: ExternalPosition { change, pos: position.pos },
                        inode,
                        path: pristine.tree[i].0.clone(),
                        is_directory: pristine.is_directory(inode),
                        position,
                    };
                    let ghost model = entry@;
                    let ghost before = cached_models(entries@);
                    match find_cached(&entries, entry.at) {
                        Some(k) => {
                            entries.set(k, entry);
                            assert(cached_models(entries@) =~= before.update(k as int, model));
                        },
                        None => {
                            entries.push(entry);
                            assert(cached_models(entries@) =~= before.push(model));
                        },
                    }
                    assert(cached_models(entries@) == put_cached(before, model));
                }
            }
        }
        i = i + 1;
    }
    entries
}

/// A projected tree entry.
#[derive(Clone, Copy, Debug, PartialEq, Eq, Structural)]
pub struct TreeItem {
    pub inode: Inode,
    /// Content position; directories have none.
    pub position: Option<Position>,
    pub is_directory: bool,
}

/// An inode of the projection with what the tables say of it.
pub ghost struct ResolvedModel {
    pub inode: Inode,
    pub path: Option<Seq<char>>,
    pub is_directory: bool,
    pub position: Position,
}

/// The inode at a stable position, from the cache or else from the tables.
pub open spec fn resolve(
    pristine: PristineModel,
    cache: Seq<CachedModel>,
    state: Option<DesiredModel>,
    at: ExternalPosition,
) -> Result<ResolvedModel, TreeRefusal> {
    let kind = match state {
        Some(desired) => desired.directory,
        None => None,
    };
    match cached_positions(cache).index_of_first(at) {
        Some(i) => if kind is Some && kind != Some(cache[i].is_directory) {
            Err(TreeRefusal::KindDisagrees { inode: cache[i].inode })
        } else {
            Ok(
                ResolvedModel {
                    inode: cache[i].inode,
                    path: Some(cache[i].path),
                    is_directory: cache[i].is_directory,
                    position: cache[i].position,
                },
            )
        },
        None => match pristine.internal(at.change) {
            None => Err(TreeRefusal::UnknownChange { change: at.change }),
            Some(change) => {
                let position = Position { change, pos: at.pos };
                match pristine.position_inode(position) {
                    None => Err(TreeRefusal::PositionWithoutInode { position }),
                    Some(inode) => if kind is Some && kind != Some(pristine.is_directory(inode)) {
                        Err(TreeRefusal::KindDisagrees { inode })
                    } else {
                        Ok(
                            ResolvedModel {
                                inode,
                                path: pristine.path(inode),
                                is_directory: pristine.is_directory(inode),
                                position,
                            },
                        )
                    },
                }
            },
        },
    }
}

/// `first`, or else `second`.
pub open spec fn or_else(first: Option<Seq<char>>, second: Option<Seq<char>>) -> Option<Seq<char>> {
    if first is Some {
        first
    } else {
        second
    }
}

/// The path of a visible journaled inode. A deletion does not hide a file
/// that still has content.
pub open spec fn projected_path(
    state: DesiredModel,
    current: Option<Seq<char>>,
    is_directory: bool,
    live: bool,
) -> Option<Seq<char>> {
    let planned = if state.ambiguous {
        or_else(current, state.last_present_path)
    } else {
        state.desired_path
    };
    if planned is None && state.deleted && !is_directory && live {
        or_else(state.last_present_path, current)
    } else {
        planned
    }
}

/// The tree that visible changes project: present entries by path, the paths
/// at which a visible file is known to be absent, and those at which a visible
/// file or directory is.
#[verifier::ext_equal]
pub ghost struct ProjectionModel {
    pub present: Map<Seq<char>, TreeItem>,
    pub absent: Map<Seq<char>, Inode>,
    pub absent_metadata: Map<Seq<char>, Inode>,
}

/// A projection in which nothing is.
pub open spec fn empty_projection() -> ProjectionModel {
    ProjectionModel { present: Map::empty(), absent: Map::empty(), absent_metadata: Map::empty() }
}

/// Absences with those of one more inode: at its known paths and at its
/// current one.
pub open spec fn with_absence(
    absent: Map<Seq<char>, Inode>,
    known_paths: Set<Seq<char>>,
    current: Option<Seq<char>>,
    inode: Inode,
) -> Map<Seq<char>, Inode> {
    let known = absent.union_prefer_right(all_to(known_paths, inode));
    match current {
        Some(path) => known.insert(path, inode),
        None => known,
    }
}

/// The entry that a resolved inode becomes.
pub open spec fn item_of(resolved: ResolvedModel) -> TreeItem {
    TreeItem {
        inode: resolved.inode,
        position: if resolved.is_directory {
            None
        } else {
            Some(resolved.position)
        },
        is_directory: resolved.is_directory,
    }
}

/// Every path of `paths` mapped to `inode`.
pub open spec fn all_to(paths: Set<Seq<char>>, inode: Inode) -> Map<Seq<char>, Inode> {
    Map::new(|path: Seq<char>| paths.contains(path), |path: Seq<char>| inode)
}

/// The projection with one more inode in it.
pub open spec fn with_inode(
    projection: ProjectionModel,
    visibility: crate::pristine::Visibility,
    state: Option<DesiredModel>,
    resolved: ResolvedModel,
) -> ProjectionModel {
    if !visibility.spec_shows(resolved.position.change) {
        projection
    } else {
        let path = match state {
            None => resolved.path,
            Some(desired) => projected_path(
                desired,
                resolved.path,
                resolved.is_directory,
                visibility.spec_is_live(resolved.position),
            ),
        };
        match path {
            Some(path) => ProjectionModel {
                present: projection.present.insert(path, item_of(resolved)),
                ..projection
            },
            None => match state {
                None => projection,
                Some(desired) => ProjectionModel {
                    absent: if resolved.is_directory {
                        projection.absent
                    } else {
                        with_absence(
                            projection.absent,
                            desired.known_paths,
                            resolved.path,
                            resolved.inode,
                        )
                    },
                    absent_metadata: with_absence(
                        projection.absent_metadata,
                        desired.known_paths,
                        resolved.path,
                        resolved.inode,
                    ),
                    ..projection
                },
            },
        }
    }
}

/// The positions to project: the cached ones, then the other journaled ones.
pub open spec fn all_positions(
    cache: Seq<CachedModel>,
    plan: Seq<(ExternalPosition, DesiredModel)>,
) -> Seq<ExternalPosition> {
    cached_positions(cache) + plan.filter(
        |e: (ExternalPosition, DesiredModel)| !cached_positions(cache).contains(e.0),
    ).map_values(|e: (ExternalPosition, DesiredModel)| e.0)
}

/// Adds to `projection` the positions from the `i`-th on.
pub open spec fn project_from(
    pristine: PristineModel,
    visibility: crate::pristine::Visibility,
    cache: Seq<CachedModel>,
    plan: Seq<(ExternalPosition, DesiredModel)>,
    positions: Seq<ExternalPosition>,
    i: int,
    projection: ProjectionModel,
) -> Result<ProjectionModel, TreeRefusal>
    decreases positions.len() - i,
{
    if i < 0 || i >= positions.len() {
        Ok(projection)
    } else {
        let state = crate::pristine::first_value(plan, positions[i]);
        match resolve(pristine, cache, state, positions[i]) {
            Err(refusal) => Err(refusal),
            Ok(resolved) => project_from(
                pristine,
                visibility,
                cache,
                plan,
                positions,
                i + 1,
                with_inode(projection, visibility, state, resolved),
            ),
        }
    }
}

/// The tree that a journal and the tables project under a visibility. A path
/// that some entry occupies is not absent.
pub open spec fn projected_tree(
    pristine: PristineModel,
    ops: Seq<OpModel>,
    visibility: crate::pristine::Visibility,
) -> Result<ProjectionModel, TreeRefusal> {
    match journal_plan(pristine, ops, visibility.changes@) {
        Err(refusal) => Err(refusal),
        Ok(plan) => {
            let cache = cached_from(pristine, 0, Seq::empty());
            match project_from(
                pristine,
                visibility,
                cache,
                plan,
                all_positions(cache, plan),
                0,
                empty_projection(),
            ) {
                Err(refusal) => Err(refusal),
                Ok(projection) => Ok(
                    ProjectionModel {
                        present: projection.present,
                        absent: projection.absent.remove_keys(projection.present.dom()),
                        absent_metadata: projection.absent_metadata.remove_keys(
                            projection.present.dom(),
                        ),
                    },
                ),
            }
        },
    }
}

/// The tree that visible changes project.
#[derive(Debug)]
pub struct TreeProjection {
    pub present: collections::TextMap<TreeItem>,
    /// Paths at which a visible file is known to be absent, in path order.
    pub absent: collections::TextMap<Inode>,
    /// Paths at which a visible file or directory is known to be absent, in
    /// path order.
    pub absent_metadata: collections::TextMap<Inode>,
}

impl View for TreeProjection {
    type V = ProjectionModel;

    open spec fn view(&self) -> ProjectionModel {
        ProjectionModel {
            present: self.present@,
            absent: self.absent@,
            absent_metadata: self.absent_metadata@,
        }
    }
}

impl TreeProjection {
    pub open spec fn wf(self) -> bool {
        self.present.wf() && self.absent.wf() && self.absent_metadata.wf()
    }
}

fn find_state(plan: &Vec<(ExternalPosition, DesiredTreePath)>, at: ExternalPosition) -> (found:
    Option<usize>)
    ensures
        match found {
            Some(i) => i < plan@.len() && crate::pristine::first_value(plan_models(plan@), at)
                == Some(plan@[i as int].1@),
            None => crate::pristine::first_value(plan_models(plan@), at) is None,
        },
{
    let ghost pairs = plan_models(plan@);
    let mut i: usize = 0;
    proof {
        assert(pairs.skip(0) =~= pairs);
    }
    while i < plan.len()
        invariant
            i <= plan.len(),
            pairs == plan_models(plan@),
            crate::pristine::first_value(pairs, at) == crate::pristine::first_value(
                pairs.skip(i as int),
                at,
            ),
        decreases plan.len() - i,
    {
        assert(pairs.skip(i as int).drop_first() =~= pairs.skip(i + 1));
        assert(pairs.skip(i as int)[0] == pairs[i as int]);
        if plan[i].0 == at {
            return Some(i);
        }
        i = i + 1;
    }
    None
}

/// An inode of the projection with what the tables say of it.
struct Resolved {
    inode: Inode,
    path: Option<String>,
    is_directory: bool,
    position: Position,
}

impl View for Resolved {
    type V = ResolvedModel;

    closed spec fn view(&self) -> ResolvedModel {
        ResolvedModel {
            inode: self.inode,
            path: text::opt_text(self.path),
            is_directory: self.is_directory,
            position: self.position,
        }
    }
}

/// What the plan says of one inode.
pub open spec fn state_model(
    plan: Seq<(ExternalPosition, DesiredTreePath)>,
    state: Option<usize>,
) -> Option<DesiredModel> {
    match state {
        Some(i) => Some(plan[i as int].1@),
        None => None,
    }
}

fn resolve_position(
    pristine: &Pristine,
    cache: &Vec<CachedEntry>,
    plan: &Vec<(ExternalPosition, DesiredTreePath)>,
    state: Option<usize>,
    at: ExternalPosition,
) -> (resolved: Result<Resolved, TreeRefusal>)
    requires
        state matches Some(i) ==> i < plan@.len(),
    ensures
        match resolved {
            Ok(found) => resolve(
                pristine@,
                cached_models(cache@),
                state_model(plan@, state),
                at,
            ) == Ok::<ResolvedModel, TreeRefusal>(found@),
            Err(refusal) => resolve(
                pristine@,
                cached_models(cache@),
                state_model(plan@, state),
                at,
            ) == Err::<ResolvedModel, TreeRefusal>(refusal),
        },
{
    let kind: Option<bool> = match state {
        Some(i) => plan[i].1.directory,
        None => None,
    };
    let found: Resolved = match find_cached(cache, at) {
        Some(i) => {
            assert(cached_models(cache@)[i as int] == cache@[i as int]@);
            Resolved {
                inode: cache[i].inode,
                path: Some(cache[i].path.clone()),
                is_directory: cache[i].is_directory,
                position: cache[i].position,
            }
        },
        None => {
            let change: NodeId = match pristine.get_internal(at.change) {
                None => {
                    return Err(TreeRefusal::UnknownChange { change: at.change });
                },
                Some(id) => id,
            };
            let position = Position { change, pos: at.pos };
            match pristine.position_inode(position) {
                None => {
                    return Err(TreeRefusal::PositionWithoutInode { position });
                },
                Some(inode) => Resolved {
                    inode,
                    path: pristine.get_path(inode),
                    is_directory: pristine.is_directory(inode),
                    position,
                },
            }
        },
    };
    if let Some(expected) = kind {
        if expected != found.is_directory {
            return Err(TreeRefusal::KindDisagrees { inode: found.inode });
        }
    }
    Ok(found)
}

/// `first`, or else `second`, copied.
fn first_path(first: &Option<String>, second: &Option<String>) -> (path: Option<String>)
    ensures
        text::opt_text(path) == or_else(text::opt_text(*first), text::opt_text(*second)),
{
    if first.is_some() {
        text::dup_opt(first)
    } else {
        text::dup_opt(second)
    }
}

/// The path of a visible journaled inode.
pub fn project_path(
    state: &DesiredTreePath,
    current: &Option<String>,
    is_directory: bool,
    live: bool,
) -> (path: Option<String>)
    ensures
        text::opt_text(path) == projected_path(
            state@,
            text::opt_text(*current),
            is_directory,
            live,
        ),
{
    let planned: Option<String> = if state.ambiguous {
        first_path(current, &state.last_present_path)
    } else {
        text::dup_opt(&state.desired_path)
    };
    if planned.is_none() && state.deleted && !is_directory && live {
        first_path(&state.last_present_path, current)
    } else {
        planned
    }
}

fn mark_absent(absent: &mut collections::TextMap<Inode>, paths: &collections::TextSet, inode: Inode)
    requires
        old(absent).wf(),
    ensures
        final(absent).wf(),
        final(absent)@ == old(absent)@.union_prefer_right(all_to(paths@, inode)),
{
    let ghost start = absent@;
    let ghost list = text::texts(paths.items@);
    let mut i: usize = 0;
    proof {
        assert(absent@ =~= start.union_prefer_right(all_to(list.take(0).to_set(), inode)));
    }
    while i < paths.items.len()
        invariant
            i <= paths.items.len(),
            list == text::texts(paths.items@),
            absent.wf(),
            absent@ == start.union_prefer_right(all_to(list.take(i as int).to_set(), inode)),
        decreases paths.items.len() - i,
    {
        let ghost path = paths.items@[i as int]@;
        let ghost head = list.take(i as int);
        let ghost next = list.take(i + 1);
        absent.insert(paths.items[i].as_str(), inode);
        proof {
            assert(next =~= head.push(path));
            head.lemma_push_to_set_commute(path);
            assert(absent@ =~= start.union_prefer_right(all_to(next.to_set(), inode)));
        }
        i = i + 1;
    }
    proof {
        assert(list.take(i as int) =~= list);
    }
}

fn mark_gone(
    absent: &mut collections::TextMap<Inode>,
    paths: &collections::TextSet,
    current: &Option<String>,
    inode: Inode,
)
    requires
        old(absent).wf(),
    ensures
        final(absent).wf(),
        final(absent)@ == with_absence(old(absent)@, paths@, text::opt_text(*current), inode),
{
    mark_absent(absent, paths, inode);
    if let Some(path) = current {
        absent.insert(path.as_str(), inode);
    }
}

fn place_inode(
    projection: &mut TreeProjection,
    visibility: &crate::pristine::Visibility,
    plan: &Vec<(ExternalPosition, DesiredTreePath)>,
    state: Option<usize>,
    resolved: &Resolved,
)
    requires
        old(projection).wf(),
        state matches Some(i) ==> i < plan@.len(),
    ensures
        final(projection).wf(),
        final(projection)@ == with_inode(
            old(projection)@,
            *visibility,
            state_model(plan@, state),
            resolved@,
        ),
{
    if !visibility.shows(resolved.position.change) {
        return;
    }
    let path: Option<String> = match state {
        None => text::dup_opt(&resolved.path),
        Some(i) => project_path(
            &plan[i].1,
            &resolved.path,
            resolved.is_directory,
            visibility.is_live(resolved.position),
        ),
    };
    match &path {
        Some(path) => {
            let item = TreeItem {
                inode: resolved.inode,
                position: if resolved.is_directory {
                    None
                } else {
                    Some(resolved.position)
                },
                is_directory: resolved.is_directory,
            };
            projection.present.insert(path.as_str(), item);
        },
        None => {
            if let Some(i) = state {
                let known: &collections::TextSet = &plan[i].1.known_paths;
                if !resolved.is_directory {
                    mark_gone(&mut projection.absent, known, &resolved.path, resolved.inode);
                }
                mark_gone(&mut projection.absent_metadata, known, &resolved.path, resolved.inode);
            }
        },
    }
}

fn list_positions(
    cache: &Vec<CachedEntry>,
    plan: &Vec<(ExternalPosition, DesiredTreePath)>,
) -> (positions: Vec<ExternalPosition>)
    ensures
        positions@ == all_positions(cached_models(cache@), plan_models(plan@)),
{
    let ghost cached = cached_positions(cached_models(cache@));
    let ghost models = plan_models(plan@);
    let ghost other = |e: (ExternalPosition, DesiredModel)| !cached.contains(e.0);
    let ghost key = |e: (ExternalPosition, DesiredModel)| e.0;
    let mut positions: Vec<ExternalPosition> = Vec::new();
    let mut i: usize = 0;
    while i < cache.len()
        invariant
            i <= cache.len(),
            cached == cached_positions(cached_models(cache@)),
            positions@ == cached.take(i as int),
        decreases cache.len() - i,
    {
        positions.push(cache[i].at);
        assert(cached.take(i + 1) =~= cached.take(i as int).push(cache@[i as int].at));
        i = i + 1;
    }
    assert(cached.take(i as int) =~= cached);
    let mut k: usize = 0;
    proof {
        reveal(Seq::filter);
        assert(positions@ =~= cached + models.take(0).filter(other).map_values(key));
    }
    while k < plan.len()
        invariant
            k <= plan.len(),
            cached == cached_positions(cached_models(cache@)),
            models == plan_models(plan@),
            other == (|e: (ExternalPosition, DesiredModel)| !cached.contains(e.0)),
            key == (|e: (ExternalPosition, DesiredModel)| e.0),
            positions@ == cached + models.take(k as int).filter(other).map_values(key),
        decreases plan.len() - k,
    {
        let ghost before = positions@;
        let ghost head = models.take(k as int).filter(other);
        let ghost next = models.take(k + 1).filter(other);
        proof {
            reveal(Seq::filter);
            assert(models.take(k + 1).drop_last() =~= models.take(k as int));
            assert(models.take(k + 1).last() == models[k as int]);
            let keys = cached;
            keys.index_of_first_ensures(plan@[k as int].0);
        }
        if find_cached(cache, plan[k].0).is_none() {
            positions.push(plan[k].0);
            assert(next =~= head.push(models[k as int]));
            assert(next.map_values(key) =~= head.map_values(key).push(plan@[k as int].0));
            assert(positions@ =~= cached + next.map_values(key));
        } else {
            assert(next =~= head);
        }
        k = k + 1;
    }
    assert(models.take(k as int) =~= models);
    positions
}

fn drop_present(
    present: &collections::TextMap<TreeItem>,
    absent: &collections::TextMap<Inode>,
) -> (kept: collections::TextMap<Inode>)
    requires
        present.wf(),
        absent.wf(),
    ensures
        kept.wf(),
        kept@ == absent@.remove_keys(present@.dom()),
        text::increasing(collections::keys(kept.entries@)),
{
    let ghost entries = absent.entries@;
    let mut kept: collections::TextMap<Inode> = collections::TextMap::new();
    let mut i: usize = 0;
    proof {
        assert(collections::entries_map(entries.take(0)) =~= Map::empty());
        assert(kept@ =~= collections::entries_map(entries.take(0)).remove_keys(present@.dom()));
    }
    while i < absent.entries.len()
        invariant
            i <= absent.entries.len(),
            entries == absent.entries@,
            present.wf(),
            absent.wf(),
            kept.wf(),
            text::increasing(collections::keys(kept.entries@)),
            kept@ == collections::entries_map(entries.take(i as int)).remove_keys(present@.dom()),
        decreases absent.entries.len() - i,
    {
        let ghost head = entries.take(i as int);
        let ghost entry = entries[i as int];
        proof {
            assert(entries.take(i + 1) =~= head.push(entry));
            let all = collections::keys(entries);
            let some = collections::keys(head);
            assert(some =~= all.take(i as int));
            assert(all[i as int] == entry.0@);
            assert(!some.contains(entry.0@)) by {
                if some.contains(entry.0@) {
                    let at = some.index_of(entry.0@);
                    assert(all[at] == all[i as int]);
                }
            }
            collections::pushed_entry(head, entry);
        }
        if present.get(absent.entries[i].0.as_str()).is_none() {
            kept.insert_ordered(absent.entries[i].0.as_str(), absent.entries[i].1);
        }
        assert(kept@ =~= collections::entries_map(entries.take(i + 1)).remove_keys(present@.dom()));
        i = i + 1;
    }
    assert(entries.take(i as int) =~= entries);
    kept
}

fn without_present(projection: TreeProjection) -> (kept: TreeProjection)
    requires
        projection.wf(),
    ensures
        kept.wf(),
        kept@.present == projection@.present,
        kept@.absent == projection@.absent.remove_keys(projection@.present.dom()),
        kept@.absent_metadata == projection@.absent_metadata.remove_keys(
            projection@.present.dom(),
        ),
        text::increasing(collections::keys(kept.absent.entries@)),
        text::increasing(collections::keys(kept.absent_metadata.entries@)),
{
    let absent: collections::TextMap<Inode> = drop_present(&projection.present, &projection.absent);
    let absent_metadata: collections::TextMap<Inode> = drop_present(
        &projection.present,
        &projection.absent_metadata,
    );
    TreeProjection { present: projection.present, absent, absent_metadata }
}

/// Projects paths and file lifecycle for a set of visible changes, from the
/// journal and the tables, without taking rendered byte length for presence.
/// Where two inodes claim one path, the one whose position comes later counts.
pub fn project_tree_for_visibility(
    pristine: &Pristine,
    ops: &Vec<DeferredTreeOp>,
    visibility: &crate::pristine::Visibility,
) -> (projected: Result<TreeProjection, TreeRefusal>)
    requires
        pristine@.dependency_first(),
    ensures
        match projected {
            Ok(projection) => projected_tree(pristine@, op_models(ops@), *visibility) == Ok::<
                ProjectionModel,
                TreeRefusal,
            >(projection@) && projection.wf() && text::increasing(
                collections::keys(projection.absent.entries@),
            ) && text::increasing(collections::keys(projection.absent_metadata.entries@)),
            Err(refusal) => projected_tree(pristine@, op_models(ops@), *visibility) == Err::<
                ProjectionModel,
                TreeRefusal,
            >(refusal),
        },
{
    let plan: Vec<(ExternalPosition, DesiredTreePath)> = match desired_tree_paths_for_txn(
        pristine,
        ops,
        &visibility.changes,
    ) {
        Err(refusal) => {
            return Err(refusal);
        },
        Ok(plan) => plan,
    };
    let cache: Vec<CachedEntry> = read_cache(pristine);
    let positions: Vec<ExternalPosition> = list_positions(&cache, &plan);
    let mut projection = TreeProjection {
        present: collections::TextMap::new(),
        absent: collections::TextMap::new(),
        absent_metadata: collections::TextMap::new(),
    };
    let ghost empty = projection@;
    let ghost models = plan_models(plan@);
    let ghost cached = cached_models(cache@);
    let mut i: usize = 0;
    while i < positions.len()
        invariant
            i <= positions.len(),
            projection.wf(),
            models == plan_models(plan@),
            cached == cached_models(cache@),
            journal_plan(pristine@, op_models(ops@), visibility.changes@) == Ok::<
                Seq<(ExternalPosition, DesiredModel)>,
                TreeRefusal,
            >(models),
            cached == cached_from(pristine@, 0, Seq::empty()),
            positions@ == all_positions(cached, models),
            empty == empty_projection(),
            project_from(pristine@, *visibility, cached, models, positions@, 0, empty)
                == project_from(
                pristine@,
                *visibility,
                cached,
                models,
                positions@,
                i as int,
                projection@,
            ),
        decreases positions.len() - i,
    {
        let state: Option<usize> = find_state(&plan, positions[i]);
        match resolve_position(pristine, &cache, &plan, state, positions[i]) {
            Err(refusal) => {
                return Err(refusal);
            },
            Ok(resolved) => {
                place_inode(&mut projection, visibility, &plan, state, &resolved);
            },
        }
        i = i + 1;
    }
    let kept: TreeProjection = without_present(projection);
    Ok(kept)
}

} // verus!
