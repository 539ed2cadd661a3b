//! Effects of an operation on external resources: what they change, from
//! which value and to which.

use crate::text;
use crate::types::{ContentHash, Ident, WorkingCopyId};
use vstd::prelude::*;

verus! {

/// Identity of an operation: the hash of its payload.
#[derive(Clone, Copy, Debug, PartialEq, Eq, Structural)]
pub struct OperationId(pub ContentHash);

impl Ident for OperationId {
    fn same(&self, other: &Self) -> (equal: bool) {
        *self == *other
    }
}

#[derive(Clone, Copy, Debug, PartialEq, Eq, Structural)]
pub enum FileKind {
    Regular,
    Directory,
    Symlink,
    Gitlink,
}

/// A filesystem entry: kind, permission bits and content hash.
#[derive(Clone, Copy, Debug, PartialEq, Eq, Structural)]
pub struct FileState {
    pub kind: FileKind,
    pub mode: u32,
    pub content: ContentHash,
}

/// What a working copy's record says.
#[derive(Debug)]
pub struct WorkingCopyStateRef {
    pub id: WorkingCopyId,
    pub location_fingerprint: ContentHash,
    pub desired_view: String,
    pub desired_state: ContentHash,
    pub materialized_state: ContentHash,
    pub materialized_manifest: ContentHash,
}

/// What a [`WorkingCopyStateRef`] says.
pub ghost struct WorkingCopyStateModel {
    pub id: Seq<char>,
    pub location_fingerprint: ContentHash,
    pub desired_view: Seq<char>,
    pub desired_state: ContentHash,
    pub materialized_state: ContentHash,
    pub materialized_manifest: ContentHash,
}

impl View for WorkingCopyStateRef {
    type V = WorkingCopyStateModel;

    open spec fn view(&self) -> WorkingCopyStateModel {
        WorkingCopyStateModel {
            id: self.id@,
            location_fingerprint: self.location_fingerprint,
            desired_view: self.desired_view@,
            desired_state: self.desired_state,
            materialized_state: self.materialized_state,
            materialized_manifest: self.materialized_manifest,
        }
    }
}

impl WorkingCopyStateRef {
    pub fn same(&self, other: &WorkingCopyStateRef) -> (equal: bool)
        ensures
            equal == (self@ == other@),
    {
        self.id.same(&other.id) && self.location_fingerprint == other.location_fingerprint
            && text::same(self.desired_view.as_str(), other.desired_view.as_str())
            && self.desired_state == other.desired_state && self.materialized_state
            == other.materialized_state && self.materialized_manifest
            == other.materialized_manifest
    }

    pub fn dup(&self) -> (copy: WorkingCopyStateRef)
        ensures
            copy@ == self@,
    {
        WorkingCopyStateRef {
            id: self.id.dup(),
            location_fingerprint: self.location_fingerprint,
            desired_view: self.desired_view.clone(),
            desired_state: self.desired_state,
            materialized_state: self.materialized_state,
            materialized_manifest: self.materialized_manifest,
        }
    }
}

/// A resource that an effect changes. Resources that this library does not
/// execute stand under a number of their own.
#[derive(Debug)]
pub enum EffectTarget {
    FilesystemPath { path: String },
    WorkspacePath { working_copy: WorkingCopyId, path: String },
    ShelfPath { working_copy: WorkingCopyId, view: String, path: String },
    WorkingCopy { working_copy: WorkingCopyId },
    Other { code: u64 },
}

/// What an [`EffectTarget`] says.
pub ghost enum TargetModel {
    FilesystemPath { path: Seq<char> },
    WorkspacePath { working_copy: Seq<char>, path: Seq<char> },
    ShelfPath { working_copy: Seq<char>, view: Seq<char>, path: Seq<char> },
    WorkingCopy { working_copy: Seq<char> },
    Other { code: u64 },
}

impl View for EffectTarget {
    type V = TargetModel;

    open spec fn view(&self) -> TargetModel {
        match self {
            EffectTarget::FilesystemPath { path } => TargetModel::FilesystemPath { path: path@ },
            EffectTarget::WorkspacePath { working_copy, path } => TargetModel::WorkspacePath {
                working_copy: working_copy@,
                path: path@,
            },
            EffectTarget::ShelfPath { working_copy, view, path } => TargetModel::ShelfPath {
                working_copy: working_copy@,
                view: view@,
                path: path@,
            },
            EffectTarget::WorkingCopy { working_copy } => TargetModel::WorkingCopy {
                working_copy: working_copy@,
            },
            EffectTarget::Other { code } => TargetModel::Other { code: *code },
        }
    }
}

impl EffectTarget {
    pub fn same(&self, other: &EffectTarget) -> (equal: bool)
        ensures
            equal == (self@ == other@),
    {
        match (self, other) {
            (
                EffectTarget::FilesystemPath { path: a },
                EffectTarget::FilesystemPath { path: b },
            ) => text::same(a.as_str(), b.as_str()),
            (
                EffectTarget::WorkspacePath { working_copy: a, path: p },
                EffectTarget::WorkspacePath { working_copy: b, path: q },
            ) => a.same(b) && text::same(p.as_str(), q.as_str()),
            (
                EffectTarget::ShelfPath { working_copy: a, view: v, path: p },
                EffectTarget::ShelfPath { working_copy: b, view: w, path: q },
            ) => a.same(b) && text::same(v.as_str(), w.as_str()) && text::same(
                p.as_str(),
                q.as_str(),
            ),
            (
                EffectTarget::WorkingCopy { working_copy: a },
                EffectTarget::WorkingCopy { working_copy: b },
            ) => a.same(b),
            (EffectTarget::Other { code: a }, EffectTarget::Other { code: b }) => *a == *b,
            _ => false,
        }
    }

    pub fn dup(&self) -> (copy: EffectTarget)
        ensures
            copy@ == self@,
    {
        match self {
            EffectTarget::FilesystemPath { path } => EffectTarget::FilesystemPath {
                path: path.clone(),
            },
            EffectTarget::WorkspacePath { working_copy, path } => EffectTarget::WorkspacePath {
                working_copy: working_copy.dup(),
                path: path.clone(),
            },
            EffectTarget::ShelfPath { working_copy, view, path } => EffectTarget::ShelfPath {
                working_copy: working_copy.dup(),
                view: view.clone(),
                path: path.clone(),
            },
            EffectTarget::WorkingCopy { working_copy } => EffectTarget::WorkingCopy {
                working_copy: working_copy.dup(),
            },
            EffectTarget::Other { code } => EffectTarget::Other { code: *code },
        }
    }
}

impl TargetModel {
    /// A path on disk.
    pub open spec fn on_disk(self) -> bool {
        self is FilesystemPath || self is WorkspacePath || self is ShelfPath
    }

    /// A path whose directories count with all they hold.
    pub open spec fn recursive(self) -> bool {
        self is WorkspacePath || self is ShelfPath
    }
}

/// Whether a target is a path on disk.
pub fn is_filesystem_effect(target: &EffectTarget) -> (answer: bool)
    ensures
        answer == target@.on_disk(),
{
    match target {
        EffectTarget::FilesystemPath { .. } => true,
        EffectTarget::WorkspacePath { .. } => true,
        EffectTarget::ShelfPath { .. } => true,
        _ => false,
    }
}

/// Whether a target's directories count with all they hold.
pub fn is_recursive_filesystem_target(target: &EffectTarget) -> (answer: bool)
    ensures
        answer == target@.recursive(),
{
    match target {
        EffectTarget::WorkspacePath { .. } => true,
        EffectTarget::ShelfPath { .. } => true,
        _ => false,
    }
}

/// A value of a resource. Values that this library does not make stand under
/// a number of their own.
#[derive(Debug)]
pub enum EffectValue {
    Absent,
    File(FileState),
    WorkingCopy(WorkingCopyStateRef),
    Other { code: u64 },
}

/// What an [`EffectValue`] says.
pub ghost enum ValueModel {
    Absent,
    File(FileState),
    WorkingCopy(WorkingCopyStateModel),
    Other { code: u64 },
}

impl View for EffectValue {
    type V = ValueModel;

    open spec fn view(&self) -> ValueModel {
        match self {
            EffectValue::Absent => ValueModel::Absent,
            EffectValue::File(state) => ValueModel::File(*state),
            EffectValue::WorkingCopy(state) => ValueModel::WorkingCopy(state@),
            EffectValue::Other { code } => ValueModel::Other { code: *code },
        }
    }
}

impl EffectValue {
    pub fn same(&self, other: &EffectValue) -> (equal: bool)
        ensures
            equal == (self@ == other@),
    {
        match (self, other) {
            (EffectValue::Absent, EffectValue::Absent) => true,
            (EffectValue::File(a), EffectValue::File(b)) => *a == *b,
            (EffectValue::WorkingCopy(a), EffectValue::WorkingCopy(b)) => a.same(b),
            (EffectValue::Other { code: a }, EffectValue::Other { code: b }) => *a == *b,
            _ => false,
        }
    }

    pub fn dup(&self) -> (copy: EffectValue)
        ensures
            copy@ == self@,
    {
        match self {
            EffectValue::Absent => EffectValue::Absent,
            EffectValue::File(state) => EffectValue::File(*state),
            EffectValue::WorkingCopy(state) => EffectValue::WorkingCopy(state.dup()),
            EffectValue::Other { code } => EffectValue::Other { code: *code },
        }
    }
}

/// What an optional value says.
pub open spec fn opt_value(value: Option<EffectValue>) -> Option<ValueModel> {
    match value {
        Some(value) => Some(value@),
        None => None,
    }
}

/// One planned effect: a target with the value it must have and the one it
/// gets.
#[derive(Debug)]
pub struct EffectPlan {
    pub ordinal: u32,
    pub target: EffectTarget,
    pub expected_old: EffectValue,
    pub expected_new: EffectValue,
}

/// What an [`EffectPlan`] says.
pub ghost struct PlanModel {
    pub ordinal: u32,
    pub target: TargetModel,
    pub expected_old: ValueModel,
    pub expected_new: ValueModel,
}

impl View for EffectPlan {
    type V = PlanModel;

    open spec fn view(&self) -> PlanModel {
        PlanModel {
            ordinal: self.ordinal,
            target: self.target@,
            expected_old: self.expected_old@,
            expected_new: self.expected_new@,
        }
    }
}

/// What planned effects say.
pub open spec fn plan_models(effects: Seq<EffectPlan>) -> Seq<PlanModel> {
    effects.map_values(|e: EffectPlan| e@)
}

/// What was observed of a target.
#[derive(Debug)]
pub struct Observation {
    pub target: EffectTarget,
    pub value: EffectValue,
}

/// What observations say.
pub open spec fn observation_models(observations: Seq<Observation>) -> Seq<
    (TargetModel, ValueModel),
> {
    observations.map_values(|o: Observation| (o.target@, o.value@))
}

/// The observed value of a target.
pub fn find_observation(observations: &Vec<Observation>, target: &EffectTarget) -> (found: Option<
    usize,
>)
    ensures
        match found {
            Some(i) => i < observations@.len() && crate::pristine::first_value(
                observation_models(observations@),
                target@,
            ) == Some(observations@[i as int].value@),
            None => crate::pristine::first_value(observation_models(observations@), target@)
                is None,
        },
{
    let ghost pairs = observation_models(observations@);
    let mut i: usize = 0;
    proof {
        assert(pairs.skip(0) =~= pairs);
    }
    while i < observations.len()
        invariant
            i <= observations.len(),
            pairs == observation_models(observations@),
            crate::pristine::first_value(pairs, target@) == crate::pristine::first_value(
                pairs.skip(i as int),
                target@,
            ),
        decreases observations.len() - i,
    {
        assert(pairs.skip(i as int).drop_first() =~= pairs.skip(i + 1));
        assert(pairs.skip(i as int)[0] == pairs[i as int]);
        if observations[i].target.same(target) {
            return Some(i);
        }
        i = i + 1;
    }
    None
}

/// How an observed value stands to the two values of a lease.
#[derive(Clone, Copy, Debug, PartialEq, Eq, Structural)]
pub enum LeaseClassification {
    /// The old value still holds and the effect may be applied.
    Apply,
    /// The new value already holds; replay is a no-op.
    AlreadyApplied,
    /// Neither holds; touching the resource could overwrite newer work.
    Diverged,
}

/// How an observed value stands to the two values of a lease.
pub open spec fn lease(observed: ValueModel, old: ValueModel, new: ValueModel) -> LeaseClassification {
    if observed == old {
        LeaseClassification::Apply
    } else if observed == new {
        LeaseClassification::AlreadyApplied
    } else {
        LeaseClassification::Diverged
    }
}

/// Classifies an observed value against a lease.
pub fn classify_effect_lease(
    observed: &EffectValue,
    expected_old: &EffectValue,
    expected_new: &EffectValue,
) -> (found: LeaseClassification)
    ensures
        found == lease(observed@, expected_old@, expected_new@),
{
    if observed.same(expected_old) {
        LeaseClassification::Apply
    } else if observed.same(expected_new) {
        LeaseClassification::AlreadyApplied
    } else {
        LeaseClassification::Diverged
    }
}

/// Replaying an effect that landed is a no-op, unless it changes nothing, and
/// a value that is neither old nor new is never touched.
pub proof fn replay_is_idempotent(old: ValueModel, new: ValueModel, third: ValueModel)
    ensures
        lease(old, old, new) == LeaseClassification::Apply,
        old != new ==> lease(new, old, new) == LeaseClassification::AlreadyApplied,
        lease(third, old, new) == LeaseClassification::Diverged <==> third != old && third != new,
{
}

/// Why an operation or its recovery is refused.
#[derive(Clone, Copy, Debug, PartialEq, Eq, Structural)]
pub enum OperationRefusal {
    /// An effect path is empty.
    EmptyPath,
    /// An effect path could leave its base.
    UnsafePath,
    /// An effect path names version-control metadata.
    VcsPath,
    /// An effect path leads through a symbolic link.
    SymlinkParent,
    /// A path in the workspace of another working copy than the lock's.
    ForeignWorkspace,
    /// A path in a shelf of another working copy than the lock's.
    ForeignShelf,
    /// The state of another working copy than the lock's.
    ForeignWorkingCopy,
    /// A target has no executor here.
    UnsupportedTarget,
    /// A target was not observed.
    NotObserved { ordinal: u32 },
    /// Neither value of a lease holds, or the effect did not land.
    LeaseDiverged { ordinal: u32 },
    /// The operation has no such effect.
    NoSuchEffect { ordinal: u32 },
    /// An effect does not start from where the one before it ends.
    BrokenChain { ordinal: u32 },
    /// A file effect came without its bytes.
    NeedsContent { ordinal: u32 },
    /// A file effect came with other bytes.
    ContentMismatch { ordinal: u32 },
    /// A value cannot be put on disk.
    CannotMaterialize { ordinal: u32 },
    /// An effect has no successful receipt.
    Unfinished { ordinal: u32 },
    /// A target does not have its final value.
    FinalMismatch { ordinal: u32 },
    /// A target has none of the values of its chain.
    DivergedBeforeRecovery { ordinal: u32 },
    /// A target's chain returns to the observed value.
    AmbiguousChain { ordinal: u32 },
    /// A recovery effect is not the inverse of exactly one original.
    NoOriginalTransition { ordinal: u32 },
    /// A value cannot be restored to its target.
    CannotRestore { ordinal: u32 },
    /// Submodule links are not restored.
    GitlinkRecovery { ordinal: u32 },
    /// A working copy has several operation heads.
    MultipleHeads { count: usize },
    /// The head operation has not been verified.
    IncompleteHead,
    /// The head operation is another one than expected.
    HeadChanged,
    /// A recovery operation has not exactly one parent.
    RecoveryParents { count: usize },
    /// A state belongs to another working copy than the lock.
    StateOfAnother,
    /// A working-copy operation came without working-copy state.
    StateMissing,
    /// An operation belongs to another working copy than the lock.
    OperationOfAnother,
    /// An operation belongs to the repository as a whole.
    RepositoryScoped,
    /// A backup's completion marker is not the expected one.
    InvalidBackupMarker,
    /// A backup's record of absence is not the expected one.
    InvalidAbsentBackup { ordinal: u32 },
    /// A backup does not hold the old value.
    BackupMismatch { ordinal: u32 },
    /// A disk effect starts from a value that no disk has.
    InvalidOldValue { ordinal: u32 },
    /// An unfinished backup cannot be made again.
    BackupNotRebuildable { ordinal: u32 },
}

} // verus!
