//! Ordered, mode-aware entry into a workspace.

use crate::effects::OperationId;
use crate::error::{InvalidReason, RepositoryError};
use crate::git_state;
use crate::git_state::{
    GitHeadObservation, GitObservationToken, GitOperationMarker, HeadModel, TokenModel,
    WorkspaceGitObservation,
};
use crate::repository;
use crate::repository::{Repository, WorkingCopyRecord};
use crate::text;
use crate::types::{ContentHash, WorkingCopyId};
use vstd::prelude::*;

verus! {

/// Maximum number of stable-observation attempts at one transaction boundary.
pub const MAX_WORKSPACE_TXN_ATTEMPTS: u8 = 3;

/// A workspace entry plan always contains exactly these three ordered phases.
pub const MAX_WORKSPACE_ENTRY_PLAN_ITEMS: usize = 3;

/// Mutation policy for a workspace transaction boundary.
#[derive(Clone, Copy, Debug, PartialEq, Eq, Structural)]
pub enum WorkspaceTxnMode {
    /// Reconcile safe drift and refuse unsafe states.
    Reconcile,
    /// Report state without domain mutation.
    Observe,
    /// Permit explicit repair, except while Git owns a sequence operation.
    Force,
}

/// The first phase: what becomes of `HEAD`.
#[derive(Debug)]
pub enum WorkspaceHeadPlan {
    Aligned,
    ReconcileBeforeFilesystem { checkpoint: Option<String>, observed: GitHeadObservation },
}

/// What a [`WorkspaceHeadPlan`] says.
pub ghost enum HeadPlanModel {
    Aligned,
    ReconcileBeforeFilesystem { checkpoint: Option<Seq<char>>, observed: HeadModel },
}

impl View for WorkspaceHeadPlan {
    type V = HeadPlanModel;

    open spec fn view(&self) -> HeadPlanModel {
        match self {
            WorkspaceHeadPlan::Aligned => HeadPlanModel::Aligned,
            WorkspaceHeadPlan::ReconcileBeforeFilesystem { checkpoint, observed } => {
                HeadPlanModel::ReconcileBeforeFilesystem {
                    checkpoint: text::opt_text(*checkpoint),
                    observed: observed@,
                }
            },
        }
    }
}

/// The second phase: what becomes of the files.
#[derive(Clone, Copy, Debug, PartialEq, Eq, Structural)]
pub enum WorkspaceFilesystemPlan {
    ObserveBaseline,
    BlockedUntilHeadAligned,
}

/// The third phase: what becomes of the refs.
#[derive(Clone, Copy, Debug, PartialEq, Eq, Structural)]
pub enum WorkspaceRefPlan {
    ObserveMapped,
    Deferred,
}

/// Fixed-size entry phases. Their field order is the execution order.
#[derive(Debug)]
pub struct WorkspaceEntryPlan {
    head: WorkspaceHeadPlan,
    filesystem: WorkspaceFilesystemPlan,
    refs: WorkspaceRefPlan,
}

/// What a [`WorkspaceEntryPlan`] says.
pub ghost struct EntryPlanModel {
    pub head: HeadPlanModel,
    pub filesystem: WorkspaceFilesystemPlan,
    pub refs: WorkspaceRefPlan,
}

impl EntryPlanModel {
    /// The files wait exactly for as long as `HEAD` is not aligned.
    pub open spec fn ordered(self) -> bool {
        self.head is Aligned <==> self.filesystem is ObserveBaseline
    }
}

impl View for WorkspaceEntryPlan {
    type V = EntryPlanModel;

    closed spec fn view(&self) -> EntryPlanModel {
        EntryPlanModel { head: self.head@, filesystem: self.filesystem, refs: self.refs }
    }
}

/// The plan for an aligned workspace.
pub open spec fn aligned_plan() -> EntryPlanModel {
    EntryPlanModel {
        head: HeadPlanModel::Aligned,
        filesystem: WorkspaceFilesystemPlan::ObserveBaseline,
        refs: WorkspaceRefPlan::ObserveMapped,
    }
}

/// The plan for a workspace whose head is not the checkpoint's.
pub open spec fn blocked_plan(checkpoint: Option<Seq<char>>, observed: HeadModel) -> EntryPlanModel {
    EntryPlanModel {
        head: HeadPlanModel::ReconcileBeforeFilesystem { checkpoint, observed },
        filesystem: WorkspaceFilesystemPlan::BlockedUntilHeadAligned,
        refs: WorkspaceRefPlan::Deferred,
    }
}

impl WorkspaceEntryPlan {
    #[verifier::type_invariant]
    spec fn always_ordered(self) -> bool {
        self.head is Aligned <==> self.filesystem is ObserveBaseline
    }

    /// The plan for an aligned workspace.
    pub fn aligned() -> (plan: WorkspaceEntryPlan)
        ensures
            plan@ == aligned_plan(),
    {
        WorkspaceEntryPlan {
            head: WorkspaceHeadPlan::Aligned,
            filesystem: WorkspaceFilesystemPlan::ObserveBaseline,
            refs: WorkspaceRefPlan::ObserveMapped,
        }
    }

    /// The plan for a workspace whose head is not the checkpoint's.
    pub fn blocked(checkpoint: Option<String>, observed: GitHeadObservation) -> (plan:
        WorkspaceEntryPlan)
        ensures
            plan@ == blocked_plan(text::opt_text(checkpoint), observed@),
    {
        WorkspaceEntryPlan {
            head: WorkspaceHeadPlan::ReconcileBeforeFilesystem { checkpoint, observed },
            filesystem: WorkspaceFilesystemPlan::BlockedUntilHeadAligned,
            refs: WorkspaceRefPlan::Deferred,
        }
    }

    pub fn head(&self) -> (head: &WorkspaceHeadPlan)
        ensures
            head@ == self@.head,
    {
        &self.head
    }

    pub fn filesystem(&self) -> (filesystem: WorkspaceFilesystemPlan)
        ensures
            filesystem == self@.filesystem,
    {
        self.filesystem
    }

    pub fn refs(&self) -> (refs: WorkspaceRefPlan)
        ensures
            refs == self@.refs,
    {
        self.refs
    }

    pub fn item_count(&self) -> (count: usize)
        ensures
            count == MAX_WORKSPACE_ENTRY_PLAN_ITEMS,
    {
        MAX_WORKSPACE_ENTRY_PLAN_ITEMS
    }

    /// Whether the files wait for `HEAD`; every plan that can be made does.
    pub fn is_ordered(&self) -> (answer: bool)
        ensures
            answer == self@.ordered(),
            answer,
    {
        proof {
            use_type_invariant(self);
        }
        let aligned: bool = match &self.head {
            WorkspaceHeadPlan::Aligned => true,
            _ => false,
        };
        let observing: bool = match self.filesystem {
            WorkspaceFilesystemPlan::ObserveBaseline => true,
            WorkspaceFilesystemPlan::BlockedUntilHeadAligned => false,
        };
        aligned == observing
    }
}

/// What the heads of a working copy's operations are.
#[derive(Debug)]
pub enum OperationHeadState {
    Empty,
    Single(OperationId),
    Diverged(Vec<OperationId>),
}

/// How an operation in progress is answered.
#[derive(Clone, Copy, Debug, PartialEq, Eq, Structural)]
pub enum GitOperationDisposition {
    ObserveOnly,
    FinishOrAbortInGit,
    ForceForbidden,
}

/// How an operation in progress is answered in each mode.
pub open spec fn disposition_of(mode: WorkspaceTxnMode) -> GitOperationDisposition {
    match mode {
        WorkspaceTxnMode::Observe => GitOperationDisposition::ObserveOnly,
        WorkspaceTxnMode::Reconcile => GitOperationDisposition::FinishOrAbortInGit,
        WorkspaceTxnMode::Force => GitOperationDisposition::ForceForbidden,
    }
}

/// Why a workspace is not at its checkpoint.
#[derive(Debug)]
#[allow(inconsistent_fields)]
pub enum UnanchoredWorkspace {
    DetachedHead { oid: String },
    UnbornHead { symref: String },
    MissingHeadTarget { symref: String },
    MissingCheckpoint,
    GitRepositoryMissing,
    AtomicCheckpointDrift {
        checkpoint_view: String,
        checkpoint_state: String,
        desired_view: String,
        desired_state: ContentHash,
    },
    HeadSymrefChanged { checkpoint: String, observed: String },
    HeadTreeChanged { checkpoint: String, observed: String },
    IndexTreeChanged { checkpoint: String, observed: Option<String> },
    HeadChanged { checkpoint: String, observed: String },
    IndexLocked { path: String },
}

/// What an [`UnanchoredWorkspace`] says.
#[allow(inconsistent_fields)]
pub ghost enum UnanchoredModel {
    DetachedHead { oid: Seq<char> },
    UnbornHead { symref: Seq<char> },
    MissingHeadTarget { symref: Seq<char> },
    MissingCheckpoint,
    GitRepositoryMissing,
    AtomicCheckpointDrift {
        checkpoint_view: Seq<char>,
        checkpoint_state: Seq<char>,
        desired_view: Seq<char>,
        desired_state: ContentHash,
    },
    HeadSymrefChanged { checkpoint: Seq<char>, observed: Seq<char> },
    HeadTreeChanged { checkpoint: Seq<char>, observed: Seq<char> },
    IndexTreeChanged { checkpoint: Seq<char>, observed: Option<Seq<char>> },
    HeadChanged { checkpoint: Seq<char>, observed: Seq<char> },
    IndexLocked { path: Seq<char> },
}

impl View for UnanchoredWorkspace {
    type V = UnanchoredModel;

    open spec fn view(&self) -> UnanchoredModel {
        match self {
            UnanchoredWorkspace::DetachedHead { oid } => UnanchoredModel::DetachedHead {
                oid: oid@,
            },
            UnanchoredWorkspace::UnbornHead { symref } => UnanchoredModel::UnbornHead {
                symref: symref@,
            },
            UnanchoredWorkspace::MissingHeadTarget { symref } => {
                UnanchoredModel::MissingHeadTarget { symref: symref@ }
            },
            UnanchoredWorkspace::MissingCheckpoint => UnanchoredModel::MissingCheckpoint,
            UnanchoredWorkspace::GitRepositoryMissing => UnanchoredModel::GitRepositoryMissing,
            UnanchoredWorkspace::AtomicCheckpointDrift {
                checkpoint_view,
                checkpoint_state,
                desired_view,
                desired_state,
            } => UnanchoredModel::AtomicCheckpointDrift {
                checkpoint_view: checkpoint_view@,
                checkpoint_state: checkpoint_state@,
                desired_view: desired_view@,
                desired_state: *desired_state,
            },
            UnanchoredWorkspace::HeadSymrefChanged { checkpoint, observed } => {
                UnanchoredModel::HeadSymrefChanged { checkpoint: checkpoint@, observed: observed@ }
            },
            UnanchoredWorkspace::HeadTreeChanged { checkpoint, observed } => {
                UnanchoredModel::HeadTreeChanged { checkpoint: checkpoint@, observed: observed@ }
            },
            UnanchoredWorkspace::IndexTreeChanged { checkpoint, observed } => {
                UnanchoredModel::IndexTreeChanged {
                    checkpoint: checkpoint@,
                    observed: text::opt_text(*observed),
                }
            },
            UnanchoredWorkspace::HeadChanged { checkpoint, observed } => {
                UnanchoredModel::HeadChanged { checkpoint: checkpoint@, observed: observed@ }
            },
            UnanchoredWorkspace::IndexLocked { path } => UnanchoredModel::IndexLocked {
                path: path@,
            },
        }
    }
}

/// Mode-independent corrective information returned instead of unsafe mutation.
#[derive(Debug)]
pub enum WorkspaceRemediation {
    GitOperationInProgress {
        mode: WorkspaceTxnMode,
        repository_state: String,
        markers: Vec<GitOperationMarker>,
        conflict_stages: Vec<u8>,
        disposition: GitOperationDisposition,
    },
    Unanchored { mode: WorkspaceTxnMode, state: UnanchoredWorkspace, plan: WorkspaceEntryPlan },
    OperationHeadsDiverged { heads: Vec<OperationId> },
    ConcurrentGitMutation { attempts: u8, first: GitObservationToken, last: GitObservationToken },
}

/// What a [`WorkspaceRemediation`] says.
pub ghost enum RemediationModel {
    GitOperationInProgress {
        mode: WorkspaceTxnMode,
        repository_state: Seq<char>,
        markers: Seq<GitOperationMarker>,
        conflict_stages: Seq<u8>,
        disposition: GitOperationDisposition,
    },
    Unanchored { mode: WorkspaceTxnMode, state: UnanchoredModel, plan: EntryPlanModel },
    OperationHeadsDiverged { heads: Seq<OperationId> },
    ConcurrentGitMutation { attempts: u8, first: TokenModel, last: TokenModel },
}

impl View for WorkspaceRemediation {
    type V = RemediationModel;

    open spec fn view(&self) -> RemediationModel {
        match self {
            WorkspaceRemediation::GitOperationInProgress {
                mode,
                repository_state,
                markers,
                conflict_stages,
                disposition,
            } => RemediationModel::GitOperationInProgress {
                mode: *mode,
                repository_state: repository_state@,
                markers: markers@,
                conflict_stages: conflict_stages@,
                disposition: *disposition,
            },
            WorkspaceRemediation::Unanchored { mode, state, plan } => {
                RemediationModel::Unanchored { mode: *mode, state: state@, plan: plan@ }
            },
            WorkspaceRemediation::OperationHeadsDiverged { heads } => {
                RemediationModel::OperationHeadsDiverged { heads: heads@ }
            },
            WorkspaceRemediation::ConcurrentGitMutation { attempts, first, last } => {
                RemediationModel::ConcurrentGitMutation {
                    attempts: *attempts,
                    first: first@,
                    last: last@,
                }
            },
        }
    }
}

/// The bridge checkpoint as the entry protocol reads it.
#[derive(Debug)]
pub struct WorkspaceCheckpoint {
    pub version: u32,
    pub view: String,
    pub atomic_state: String,
    pub git_head_symref: Option<String>,
    pub git_head: String,
    pub git_tree: String,
    pub git_index_tree: Option<String>,
    pub git_index_digest: Option<String>,
}

/// What a [`WorkspaceCheckpoint`] says.
pub ghost struct CheckpointModel {
    pub version: u32,
    pub view: Seq<char>,
    pub atomic_state: Seq<char>,
    pub git_head_symref: Option<Seq<char>>,
    pub git_head: Seq<char>,
    pub git_tree: Seq<char>,
    pub git_index_tree: Option<Seq<char>>,
    pub git_index_digest: Option<Seq<char>>,
}

impl View for WorkspaceCheckpoint {
    type V = CheckpointModel;

    open spec fn view(&self) -> CheckpointModel {
        CheckpointModel {
            version: self.version,
            view: self.view@,
            atomic_state: self.atomic_state@,
            git_head_symref: text::opt_text(self.git_head_symref),
            git_head: self.git_head@,
            git_tree: self.git_tree@,
            git_index_tree: text::opt_text(self.git_index_tree),
            git_index_digest: text::opt_text(self.git_index_digest),
        }
    }
}

/// What an optional checkpoint says.
pub open spec fn opt_checkpoint(checkpoint: Option<WorkspaceCheckpoint>) -> Option<CheckpointModel> {
    match checkpoint {
        Some(checkpoint) => Some(checkpoint@),
        None => None,
    }
}

/// A checkpoint as read: the oldest version leaves out what the current one
/// writes down.
pub open spec fn upgraded(wire: CheckpointModel) -> CheckpointModel {
    CheckpointModel {
        git_head_symref: if wire.git_head_symref is None && wire.version == 1 {
            Some("refs/heads/"@ + wire.view)
        } else {
            wire.git_head_symref
        },
        git_index_tree: if wire.git_index_tree is None && wire.version == 1 {
            Some(wire.git_tree)
        } else {
            wire.git_index_tree
        },
        ..wire
    }
}

/// Accepts a checkpoint as it was written. A version other than one or two is
/// refused; the stored bytes are never rewritten.
pub fn accept_checkpoint(wire: WorkspaceCheckpoint) -> (accepted: Result<
    WorkspaceCheckpoint,
    RepositoryError,
>)
    ensures
        if wire.version == 1 || wire.version == 2 {
            accepted matches Ok(checkpoint) && checkpoint@ == upgraded(wire@)
        } else {
            accepted matches Err(
                RepositoryError::InvalidRepository { reason: InvalidReason::Message(reason) },
            ) && reason@
                == "unsupported bridge checkpoint version "@ + text::numeral(wire.version as nat)
        },
{
    if wire.version != 1 && wire.version != 2 {
        let mut reason: String = "unsupported bridge checkpoint version ".to_owned();
        reason.append(text::decimal(wire.version as u64).as_str());
        return Err(
            RepositoryError::InvalidRepository { reason: InvalidReason::Message(reason) },
        );
    }
    let mut checkpoint = wire;
    if checkpoint.version == 1 {
        if checkpoint.git_head_symref.is_none() {
            let mut symref: String = "refs/heads/".to_owned();
            symref.append(checkpoint.view.as_str());
            checkpoint.git_head_symref = Some(symref);
        }
        if checkpoint.git_index_tree.is_none() {
            checkpoint.git_index_tree = Some(checkpoint.git_tree.clone());
        }
    }
    Ok(checkpoint)
}

/// The remediation for a workspace that is not at its checkpoint.
pub open spec fn unanchored_model(
    mode: WorkspaceTxnMode,
    state: UnanchoredModel,
    checkpoint: Option<CheckpointModel>,
    observed: HeadModel,
) -> RemediationModel {
    RemediationModel::Unanchored {
        mode,
        state,
        plan: blocked_plan(
            match checkpoint {
                Some(checkpoint) => Some(checkpoint.git_head),
                None => None,
            },
            observed,
        ),
    }
}

fn unanchored(
    mode: WorkspaceTxnMode,
    state: UnanchoredWorkspace,
    checkpoint: &Option<WorkspaceCheckpoint>,
    observed: GitHeadObservation,
) -> (remediation: WorkspaceRemediation)
    ensures
        remediation@ == unanchored_model(mode, state@, opt_checkpoint(*checkpoint), observed@),
{
    let head: Option<String> = match checkpoint {
        Some(checkpoint) => Some(checkpoint.git_head.clone()),
        None => None,
    };
    WorkspaceRemediation::Unanchored {
        mode,
        state,
        plan: WorkspaceEntryPlan::blocked(head, observed),
    }
}

/// Why an attached head is not at the checkpoint.
pub open spec fn drift(
    mode: WorkspaceTxnMode,
    view_name: Seq<char>,
    desired_state: ContentHash,
    checkpoint: CheckpointModel,
    symref: Seq<char>,
    oid: Seq<char>,
    head_tree: Option<Seq<char>>,
    index_tree: Option<Seq<char>>,
) -> Option<UnanchoredModel> {
    if checkpoint.view != view_name && mode !is Force {
        Some(
            UnanchoredModel::AtomicCheckpointDrift {
                checkpoint_view: checkpoint.view,
                checkpoint_state: checkpoint.atomic_state,
                desired_view: view_name,
                desired_state,
            },
        )
    } else if checkpoint.git_head_symref is Some && checkpoint.git_head_symref != Some(symref) {
        Some(
            UnanchoredModel::HeadSymrefChanged {
                checkpoint: checkpoint.git_head_symref->0,
                observed: symref,
            },
        )
    } else if checkpoint.git_head != oid {
        Some(UnanchoredModel::HeadChanged { checkpoint: checkpoint.git_head, observed: oid })
    } else if head_tree != Some(checkpoint.git_tree) {
        Some(
            UnanchoredModel::HeadTreeChanged {
                checkpoint: checkpoint.git_tree,
                observed: if head_tree is Some {
                    head_tree->0
                } else {
                    Seq::empty()
                },
            },
        )
    } else if checkpoint.git_index_tree is Some && index_tree != checkpoint.git_index_tree {
        Some(
            UnanchoredModel::IndexTreeChanged {
                checkpoint: checkpoint.git_index_tree->0,
                observed: index_tree,
            },
        )
    } else {
        None
    }
}

/// What an observed Git state asks for in place of entering the workspace.
pub open spec fn classification(
    mode: WorkspaceTxnMode,
    view_name: Seq<char>,
    desired_state: ContentHash,
    checkpoint: Option<CheckpointModel>,
    observation: WorkspaceGitObservation,
) -> Option<RemediationModel> {
    match observation {
        WorkspaceGitObservation::NoGit { .. } => if checkpoint is Some {
            Some(
                unanchored_model(
                    mode,
                    UnanchoredModel::GitRepositoryMissing,
                    checkpoint,
                    git_state::no_git(),
                ),
            )
        } else {
            None
        },
        WorkspaceGitObservation::Repository(git) => if git.git_owned() {
            Some(
                RemediationModel::GitOperationInProgress {
                    mode,
                    repository_state: git.operation.repository_state@,
                    markers: git_state::present(git.operation.markers@),
                    conflict_stages: git_state::conflicted(git.index_stages@),
                    disposition: disposition_of(mode),
                },
            )
        } else if git.index_lock.kind !is Missing {
            Some(
                unanchored_model(
                    mode,
                    UnanchoredModel::IndexLocked { path: git.index_lock.path@ },
                    checkpoint,
                    git.head@,
                ),
            )
        } else {
            match git.head@ {
                HeadModel::Detached { oid } => Some(
                    unanchored_model(
                        mode,
                        UnanchoredModel::DetachedHead { oid },
                        checkpoint,
                        git.head@,
                    ),
                ),
                HeadModel::Unborn { symref } => Some(
                    unanchored_model(
                        mode,
                        UnanchoredModel::UnbornHead { symref },
                        checkpoint,
                        git.head@,
                    ),
                ),
                HeadModel::MissingTarget { symref } => Some(
                    unanchored_model(
                        mode,
                        UnanchoredModel::MissingHeadTarget { symref },
                        checkpoint,
                        git.head@,
                    ),
                ),
                HeadModel::Attached { symref, oid } => match checkpoint {
                    None => Some(
                        unanchored_model(
                            mode,
                            UnanchoredModel::MissingCheckpoint,
                            checkpoint,
                            git.head@,
                        ),
                    ),
                    Some(recorded) => match drift(
                        mode,
                        view_name,
                        desired_state,
                        recorded,
                        symref,
                        oid,
                        text::opt_text(git.head_tree),
                        text::opt_text(git.index_tree),
                    ) {
                        None => None,
                        Some(state) => Some(
                            unanchored_model(mode, state, checkpoint, git.head@),
                        ),
                    },
                },
            }
        },
    }
}

fn find_drift(
    mode: WorkspaceTxnMode,
    view_name: &str,
    desired_state: ContentHash,
    checkpoint: &WorkspaceCheckpoint,
    symref: &String,
    oid: &String,
    head_tree: &Option<String>,
    index_tree: &Option<String>,
) -> (state: Option<UnanchoredWorkspace>)
    ensures
        (match state {
            Some(state) => Some(state@),
            None => None,
        }) == drift(
            mode,
            view_name@,
            desired_state,
            checkpoint@,
            symref@,
            oid@,
            text::opt_text(*head_tree),
            text::opt_text(*index_tree),
        ),
{
    if !text::same(checkpoint.view.as_str(), view_name) && mode != WorkspaceTxnMode::Force {
        return Some(
            UnanchoredWorkspace::AtomicCheckpointDrift {
                checkpoint_view: checkpoint.view.clone(),
                checkpoint_state: checkpoint.atomic_state.clone(),
                desired_view: view_name.to_owned(),
                desired_state,
            },
        );
    }
    if let Some(recorded) = &checkpoint.git_head_symref {
        if !text::same(recorded.as_str(), symref.as_str()) {
            return Some(
                UnanchoredWorkspace::HeadSymrefChanged {
                    checkpoint: recorded.clone(),
                    observed: symref.clone(),
                },
            );
        }
    }
    if !text::same(checkpoint.git_head.as_str(), oid.as_str()) {
        return Some(
            UnanchoredWorkspace::HeadChanged {
                checkpoint: checkpoint.git_head.clone(),
                observed: oid.clone(),
            },
        );
    }
    match head_tree {
        None => {
            let observed: String = String::new();
            assert(observed@ =~= Seq::<char>::empty());
            return Some(
                UnanchoredWorkspace::HeadTreeChanged {
                    checkpoint: checkpoint.git_tree.clone(),
                    observed,
                },
            );
        },
        Some(tree) => {
            if !text::same(tree.as_str(), checkpoint.git_tree.as_str()) {
                return Some(
                    UnanchoredWorkspace::HeadTreeChanged {
                        checkpoint: checkpoint.git_tree.clone(),
                        observed: tree.clone(),
                    },
                );
            }
        },
    }
    if let Some(recorded) = &checkpoint.git_index_tree {
        if !text::same_opt(index_tree, &checkpoint.git_index_tree) {
            return Some(
                UnanchoredWorkspace::IndexTreeChanged {
                    checkpoint: recorded.clone(),
                    observed: text::dup_opt(index_tree),
                },
            );
        }
    }
    None
}

/// What an optional remediation says.
pub open spec fn opt_remediation(remediation: Option<WorkspaceRemediation>) -> Option<
    RemediationModel,
> {
    match remediation {
        Some(remediation) => Some(remediation@),
        None => None,
    }
}

/// Classifies an observed Git state: what it asks for in place of entering
/// the workspace, if anything.
pub fn classify_git_state(
    mode: WorkspaceTxnMode,
    view_name: &str,
    desired_state: ContentHash,
    checkpoint: &Option<WorkspaceCheckpoint>,
    observation: &WorkspaceGitObservation,
) -> (remediation: Option<WorkspaceRemediation>)
    ensures
        opt_remediation(remediation) == classification(
            mode,
            view_name@,
            desired_state,
            opt_checkpoint(*checkpoint),
            *observation,
        ),
{
    let git = match observation {
        WorkspaceGitObservation::NoGit { .. } => {
            if checkpoint.is_none() {
                return None;
            }
            return Some(
                unanchored(
                    mode,
                    UnanchoredWorkspace::GitRepositoryMissing,
                    checkpoint,
                    GitHeadObservation::Unborn { symref: "no-git".to_owned() },
                ),
            );
        },
        WorkspaceGitObservation::Repository(git) => git,
    };
    let conflict_stages: Vec<u8> = git.conflict_stages();
    if git.operation.is_in_progress() || conflict_stages.len() > 0 {
        let disposition: GitOperationDisposition = match mode {
            WorkspaceTxnMode::Observe => GitOperationDisposition::ObserveOnly,
            WorkspaceTxnMode::Reconcile => GitOperationDisposition::FinishOrAbortInGit,
            WorkspaceTxnMode::Force => GitOperationDisposition::ForceForbidden,
        };
        return Some(
            WorkspaceRemediation::GitOperationInProgress {
                mode,
                repository_state: git.operation.repository_state.clone(),
                markers: git.operation.present_markers(),
                conflict_stages,
                disposition,
            },
        );
    }
    if git.index_lock.is_present() {
        return Some(
            unanchored(
                mode,
                UnanchoredWorkspace::IndexLocked { path: git.index_lock.path.clone() },
                checkpoint,
                git.head.dup(),
            ),
        );
    }
    match &git.head {
        GitHeadObservation::Detached { oid } => Some(
            unanchored(
                mode,
                UnanchoredWorkspace::DetachedHead { oid: oid.clone() },
                checkpoint,
                git.head.dup(),
            ),
        ),
        GitHeadObservation::Unborn { symref } => Some(
            unanchored(
                mode,
                UnanchoredWorkspace::UnbornHead { symref: symref.clone() },
                checkpoint,
                git.head.dup(),
            ),
        ),
        GitHeadObservation::MissingTarget { symref } => Some(
            unanchored(
                mode,
                UnanchoredWorkspace::MissingHeadTarget { symref: symref.clone() },
                checkpoint,
                git.head.dup(),
            ),
        ),
        GitHeadObservation::Attached { symref, oid } => match checkpoint {
            None => Some(
                unanchored(
                    mode,
                    UnanchoredWorkspace::MissingCheckpoint,
                    checkpoint,
                    git.head.dup(),
                ),
            ),
            Some(recorded) => match find_drift(
                mode,
                view_name,
                desired_state,
                recorded,
                symref,
                oid,
                &git.head_tree,
                &git.index_tree,
            ) {
                None => None,
                Some(state) => Some(unanchored(mode, state, checkpoint, git.head.dup())),
            },
        },
    }
}

/// While Git has an operation in progress or a conflicted index, no mode gets
/// past it: it is reported, and forcing is answered as forbidden.
pub proof fn force_never_overrides_git(
    mode: WorkspaceTxnMode,
    view_name: Seq<char>,
    desired_state: ContentHash,
    checkpoint: Option<CheckpointModel>,
    observation: WorkspaceGitObservation,
)
    requires
        observation matches WorkspaceGitObservation::Repository(git) && git.git_owned(),
    ensures
        classification(mode, view_name, desired_state, checkpoint, observation) matches Some(
            RemediationModel::GitOperationInProgress { disposition, .. },
        ) && disposition == disposition_of(mode) && (mode is Force
            ==> disposition is ForceForbidden),
{
}

/// Whatever keeps a workspace from being entered for not being at its
/// checkpoint also keeps its files from being touched.
pub proof fn unanchored_blocks_files(
    mode: WorkspaceTxnMode,
    view_name: Seq<char>,
    desired_state: ContentHash,
    checkpoint: Option<CheckpointModel>,
    observation: WorkspaceGitObservation,
)
    ensures
        classification(mode, view_name, desired_state, checkpoint, observation) matches Some(
            RemediationModel::Unanchored { plan, .. },
        ) ==> plan.ordered() && plan.filesystem is BlockedUntilHeadAligned && plan.refs is Deferred,
{
}

/// A workspace is entered only at its checkpoint: where nothing is to be
/// remedied beside a Git repository, the head, its tree and, where recorded,
/// branch and index tree are those of the checkpoint; and, unless forced, its
/// view is the desired one.
pub proof fn entered_at_checkpoint(
    mode: WorkspaceTxnMode,
    view_name: Seq<char>,
    desired_state: ContentHash,
    checkpoint: Option<CheckpointModel>,
    observation: WorkspaceGitObservation,
)
    requires
        classification(mode, view_name, desired_state, checkpoint, observation) is None,
        observation is Repository,
    ensures
        ({
            let git = observation->Repository_0;
            &&& !git.git_owned()
            &&& git.index_lock.kind is Missing
            &&& checkpoint matches Some(recorded) && git.head@ matches HeadModel::Attached {
                symref,
                oid,
            } && oid == recorded.git_head && (recorded.git_head_symref is Some ==> Some(symref)
                == recorded.git_head_symref) && text::opt_text(git.head_tree) == Some(
                recorded.git_tree,
            ) && (recorded.git_index_tree is Some ==> text::opt_text(git.index_tree)
                == recorded.git_index_tree) && (mode !is Force ==> recorded.view == view_name)
        }),
{
}

/// Classification looks at nothing that may change under an unchanged token:
/// two observations with the same token and lock path are classified alike.
pub proof fn token_decides_classification(
    mode: WorkspaceTxnMode,
    view_name: Seq<char>,
    desired_state: ContentHash,
    checkpoint: Option<CheckpointModel>,
    a: WorkspaceGitObservation,
    b: WorkspaceGitObservation,
)
    requires
        a matches WorkspaceGitObservation::Repository(x) && b matches
            WorkspaceGitObservation::Repository(y) && a.token_model() == b.token_model()
            && x.index_lock.path@ == y.index_lock.path@,
    ensures
        classification(mode, view_name, desired_state, checkpoint, a) == classification(
            mode,
            view_name,
            desired_state,
            checkpoint,
            b,
        ),
{
}

/// What the entry protocol needs of a view.
#[derive(Debug)]
pub struct ViewHeader {
    pub id: u64,
    pub name: String,
    pub state: ContentHash,
}

impl Repository {
    /// The record of a working copy, with the view that it is meant to show.
    pub fn load_workspace_authority(&self, working_copy: &WorkingCopyId) -> (authority: Result<
        (WorkingCopyRecord, ViewHeader),
        RepositoryError,
    >)
        ensures
            match repository::record_from(self.working_copies@, working_copy@, 0) {
                None => authority matches Err(
                    RepositoryError::WorkingCopyRecordNotFound { id },
                ) && id@ == working_copy@,
                Some(i) => {
                    let found = self.working_copies@[i];
                    match self.view_with_id(found.desired_view) {
                        None => authority matches Err(RepositoryError::ViewNotFound { name })
                            && name@ == repository::view_id_text(found.desired_view),
                        Some(j) => if self.views@[j].state != found.desired_state {
                            authority matches Err(
                                RepositoryError::InvalidRepository {
                                    reason: InvalidReason::DesiredState {
                                        id,
                                        view,
                                        expected,
                                        actual,
                                    },
                                },
                            ) && id@ == working_copy@ && view@ == self.views@[j].name@ && expected
                                == found.desired_state && actual == self.views@[j].state
                        } else {
                            authority matches Ok((record, view)) && record.id@ == working_copy@
                                && record.desired_view == found.desired_view
                                && record.desired_state == found.desired_state
                                && record.materialized_state == found.materialized_state
                                && record.materialized_manifest == found.materialized_manifest
                                && view.id == record.desired_view && view.name@
                                == self.views@[j].name@ && view.state == self.views@[j].state
                        },
                    }
                },
            },
    {
        let mut i: usize = 0;
        while i < self.working_copies.len()
            invariant
                i <= self.working_copies.len(),
                repository::record_from(self.working_copies@, working_copy@, 0)
                    == repository::record_from(self.working_copies@, working_copy@, i as int),
            decreases self.working_copies.len() - i,
        {
            let found: &WorkingCopyRecord = &self.working_copies[i];
            if found.id.same(working_copy) {
                let at: usize = match self.get_view_by_id(found.desired_view) {
                    None => {
                        return Err(
                            RepositoryError::ViewNotFound {
                                name: self.name_view(found.desired_view),
                            },
                        );
                    },
                    Some(at) => at,
                };
                if self.views[at].state != found.desired_state {
                    return Err(
                        RepositoryError::InvalidRepository {
                            reason: InvalidReason::DesiredState {
                                id: working_copy.dup(),
                                view: self.views[at].name.clone(),
                                expected: found.desired_state,
                                actual: self.views[at].state,
                            },
                        },
                    );
                }
                return Ok(
                    (
                        WorkingCopyRecord {
                            id: found.id.dup(),
                            desired_view: found.desired_view,
                            desired_state: found.desired_state,
                            materialized_state: found.materialized_state,
                            materialized_manifest: found.materialized_manifest,
                        },
                        ViewHeader {
                            id: self.views[at].id,
                            name: self.views[at].name.clone(),
                            state: self.views[at].state,
                        },
                    ),
                );
            }
            i = i + 1;
        }
        Err(RepositoryError::WorkingCopyRecordNotFound { id: working_copy.dup() })
    }
}

/// A stable workspace boundary. Its holder keeps the operation locks.
#[derive(Debug)]
pub struct WorkspaceTxn {
    mode: WorkspaceTxnMode,
    attempts: u8,
    record: WorkingCopyRecord,
    view: ViewHeader,
    operation_heads: OperationHeadState,
    checkpoint: Option<WorkspaceCheckpoint>,
    git: WorkspaceGitObservation,
    plan: WorkspaceEntryPlan,
}

impl WorkspaceTxn {
    pub closed spec fn spec_mode(self) -> WorkspaceTxnMode {
        self.mode
    }

    pub closed spec fn spec_attempts(self) -> u8 {
        self.attempts
    }

    pub closed spec fn spec_record(self) -> WorkingCopyRecord {
        self.record
    }

    pub closed spec fn spec_view(self) -> ViewHeader {
        self.view
    }

    pub closed spec fn spec_heads(self) -> OperationHeadState {
        self.operation_heads
    }

    pub closed spec fn spec_checkpoint(self) -> Option<WorkspaceCheckpoint> {
        self.checkpoint
    }

    pub closed spec fn spec_git(self) -> WorkspaceGitObservation {
        self.git
    }

    pub closed spec fn spec_plan(self) -> EntryPlanModel {
        self.plan@
    }

    pub fn mode(&self) -> (mode: WorkspaceTxnMode)
        ensures
            mode == self.spec_mode(),
    {
        self.mode
    }

    pub fn attempts(&self) -> (attempts: u8)
        ensures
            attempts == self.spec_attempts(),
    {
        self.attempts
    }

    pub fn working_copy(&self) -> (id: &WorkingCopyId)
        ensures
            *id == self.spec_record().id,
    {
        &self.record.id
    }

    pub fn working_copy_record(&self) -> (record: &WorkingCopyRecord)
        ensures
            *record == self.spec_record(),
    {
        &self.record
    }

    pub fn view(&self) -> (view: &ViewHeader)
        ensures
            *view == self.spec_view(),
    {
        &self.view
    }

    pub fn operation_heads(&self) -> (heads: &OperationHeadState)
        ensures
            *heads == self.spec_heads(),
    {
        &self.operation_heads
    }

    pub fn checkpoint(&self) -> (checkpoint: Option<&WorkspaceCheckpoint>)
        ensures
            match checkpoint {
                Some(checkpoint) => self.spec_checkpoint() == Some(*checkpoint),
                None => self.spec_checkpoint() is None,
            },
    {
        match &self.checkpoint {
            Some(checkpoint) => Some(checkpoint),
            None => None,
        }
    }

    pub fn git(&self) -> (git: &WorkspaceGitObservation)
        ensures
            *git == self.spec_git(),
    {
        &self.git
    }

    pub fn plan(&self) -> (plan: &WorkspaceEntryPlan)
        ensures
            plan@ == self.spec_plan(),
    {
        &self.plan
    }
}

/// Result of entering a workspace transaction boundary.
#[derive(Debug)]
pub enum WorkspaceTxnStart {
    /// The observed workspace is stable and ready for command-specific work.
    Ready(WorkspaceTxn),
    /// The workspace is validly observed but requires a typed corrective action.
    Remediation(WorkspaceRemediation),
}

/// Where entering a workspace stands.
#[derive(Debug)]
pub enum EntryPhase {
    /// The first look of an attempt is awaited.
    Initial,
    /// The second look of an attempt is awaited.
    Confirming { initial: GitObservationToken },
    /// The consolidated heads are awaited, before recovery.
    Consolidating { token: GitObservationToken },
    /// The record and view after recovery are awaited.
    Reloading { token: GitObservationToken },
    /// The look after recovery is awaited.
    Rechecking { token: GitObservationToken },
    /// The consolidated heads are awaited, after recovery.
    Concluding { git: WorkspaceGitObservation },
}

/// A workspace that is being entered.
#[derive(Debug)]
pub struct WorkspaceEntry {
    pub mode: WorkspaceTxnMode,
    pub record: WorkingCopyRecord,
    pub view: ViewHeader,
    pub heads: OperationHeadState,
    pub checkpoint: Option<WorkspaceCheckpoint>,
    pub attempt: u8,
    /// The first token that did not hold.
    pub first_changed: Option<GitObservationToken>,
    pub phase: EntryPhase,
}

/// What happened outside.
#[derive(Debug)]
pub enum EntryEvent {
    Observed(WorkspaceGitObservation),
    Consolidated(OperationHeadState),
    Reloaded { record: WorkingCopyRecord, view: ViewHeader },
}

/// What to do outside next.
#[derive(Clone, Copy, Debug, PartialEq, Eq, Structural)]
pub enum EntryAction {
    /// Observe the Git repository.
    Observe,
    /// Finish a pending tree alignment, check that operations are safe, and
    /// consolidate the operation heads.
    RecoverAlignment,
    /// Recover the incomplete operation, and load record and view again.
    RecoverOperation,
    /// Consolidate the operation heads.
    Consolidate,
}

/// One turn of entering a workspace.
#[derive(Debug)]
pub enum EntryTurn {
    Continue(WorkspaceEntry, EntryAction),
    Finish(WorkspaceTxnStart),
}

impl WorkspaceEntry {
    /// What an observed Git state asks for here.
    pub open spec fn remedy(self, git: WorkspaceGitObservation) -> Option<RemediationModel> {
        classification(
            self.mode,
            self.view.name@,
            self.record.desired_state,
            opt_checkpoint(self.checkpoint),
            git,
        )
    }

    /// Attempts are counted from one to the maximum; a later attempt has seen
    /// a change; what is concluded with needs no remedy, and so on.
    pub open spec fn wf(self) -> bool {
        &&& 1 <= self.attempt <= MAX_WORKSPACE_TXN_ATTEMPTS
        &&& self.attempt > 1 ==> self.first_changed is Some
        &&& self.mode is Observe ==> self.heads !is Diverged
        &&& self.phase is Consolidating || self.phase is Reloading || self.phase is Rechecking
            || self.phase is Concluding ==> self.mode !is Observe
        &&& self.phase matches EntryPhase::Concluding { git } ==> self.remedy(git) is None
    }

    /// Whether an event is the awaited one.
    pub open spec fn awaits(self, event: EntryEvent) -> bool {
        match self.phase {
            EntryPhase::Initial => event is Observed,
            EntryPhase::Confirming { .. } => event is Observed,
            EntryPhase::Consolidating { .. } => event is Consolidated,
            EntryPhase::Reloading { .. } => event is Reloaded,
            EntryPhase::Rechecking { .. } => event is Observed,
            EntryPhase::Concluding { .. } => event is Consolidated,
        }
    }

    /// How many turns are left at most.
    pub open spec fn turns_left(self) -> int {
        (MAX_WORKSPACE_TXN_ATTEMPTS - self.attempt) * 6 + match self.phase {
            EntryPhase::Initial => 6int,
            EntryPhase::Confirming { .. } => 5,
            EntryPhase::Consolidating { .. } => 4,
            EntryPhase::Reloading { .. } => 3,
            EntryPhase::Rechecking { .. } => 2,
            EntryPhase::Concluding { .. } => 1,
        }
    }

    /// Whether an entry is this one, in another phase.
    pub open spec fn moved_to(self, next: WorkspaceEntry) -> bool {
        &&& next.mode == self.mode
        &&& next.record == self.record
        &&& next.view == self.view
        &&& next.heads == self.heads
        &&& next.checkpoint == self.checkpoint
        &&& next.attempt == self.attempt
        &&& next.first_changed == self.first_changed
    }
}

/// Whether the outcome is this remediation.
pub open spec fn remedied(turn: EntryTurn, model: RemediationModel) -> bool {
    turn matches EntryTurn::Finish(WorkspaceTxnStart::Remediation(remediation)) && remediation@
        == model
}

/// Whether the outcome is a workspace entered with this observation and these
/// heads.
pub open spec fn entered(
    turn: EntryTurn,
    entry: WorkspaceEntry,
    heads: OperationHeadState,
    git: WorkspaceGitObservation,
) -> bool {
    turn matches EntryTurn::Finish(WorkspaceTxnStart::Ready(txn)) && txn.spec_mode() == entry.mode
        && txn.spec_attempts() == entry.attempt && txn.spec_record() == entry.record
        && txn.spec_view() == entry.view && txn.spec_heads() == heads && txn.spec_checkpoint()
        == entry.checkpoint && txn.spec_git() == git && txn.spec_plan() == aligned_plan()
}

/// What a turn leads to. An attempt takes two looks; where the second differs,
/// the attempt is discarded, and after the last one the change is reported.
/// Observing ends there. Otherwise pending work is recovered, and a third look
/// must find what the second did.
pub open spec fn leads_to(entry: WorkspaceEntry, event: EntryEvent, turn: EntryTurn) -> bool {
    match (entry.phase, event) {
        (EntryPhase::Initial, EntryEvent::Observed(git)) => match entry.remedy(git) {
            Some(model) => remedied(turn, model),
            None => turn matches EntryTurn::Continue(next, action) && action is Observe
                && entry.moved_to(next) && (next.phase matches EntryPhase::Confirming { initial }
                && initial@ == git.token_model()),
        },
        (EntryPhase::Confirming { initial }, EntryEvent::Observed(git)) => if initial@
            != git.token_model() {
            let first = match entry.first_changed {
                Some(first) => first@,
                None => initial@,
            };
            if entry.attempt == MAX_WORKSPACE_TXN_ATTEMPTS {
                remedied(
                    turn,
                    RemediationModel::ConcurrentGitMutation {
                        attempts: MAX_WORKSPACE_TXN_ATTEMPTS,
                        first,
                        last: git.token_model(),
                    },
                )
            } else {
                turn matches EntryTurn::Continue(next, action) && action is Observe && next.mode
                    == entry.mode && next.record == entry.record && next.view == entry.view
                    && next.heads == entry.heads && next.checkpoint == entry.checkpoint
                    && next.attempt == entry.attempt + 1 && next.phase is Initial && (
                next.first_changed matches Some(kept) && kept@ == first)
            }
        } else {
            match entry.remedy(git) {
                Some(model) => remedied(turn, model),
                None => if entry.mode is Observe {
                    entered(turn, entry, entry.heads, git)
                } else {
                    turn matches EntryTurn::Continue(next, action) && action is RecoverAlignment
                        && entry.moved_to(next) && (next.phase matches EntryPhase::Consolidating {
                        token,
                    } && token@ == git.token_model())
                },
            }
        },
        (EntryPhase::Consolidating { token }, EntryEvent::Consolidated(heads)) => match heads {
            OperationHeadState::Diverged(heads) => remedied(
                turn,
                RemediationModel::OperationHeadsDiverged { heads: heads@ },
            ),
            _ => turn matches EntryTurn::Continue(next, action) && action is RecoverOperation
                && entry.moved_to(next) && next.phase == (EntryPhase::Reloading { token }),
        },
        (EntryPhase::Reloading { token }, EntryEvent::Reloaded { record, view }) => turn matches
            EntryTurn::Continue(next, action) && action is Observe && next.mode == entry.mode
            && next.record == record && next.view == view && next.heads == entry.heads
            && next.checkpoint == entry.checkpoint && next.attempt == entry.attempt
            && next.first_changed == entry.first_changed && next.phase == (
        EntryPhase::Rechecking { token }),
        (EntryPhase::Rechecking { token }, EntryEvent::Observed(git)) => if git.token_model()
            != token@ {
            remedied(
                turn,
                RemediationModel::ConcurrentGitMutation {
                    attempts: entry.attempt,
                    first: token@,
                    last: git.token_model(),
                },
            )
        } else {
            match entry.remedy(git) {
                Some(model) => remedied(turn, model),
                None => turn matches EntryTurn::Continue(next, action) && action is Consolidate
                    && entry.moved_to(next) && next.phase == (EntryPhase::Concluding { git }),
            }
        },
        (EntryPhase::Concluding { git }, EntryEvent::Consolidated(heads)) => match heads {
            OperationHeadState::Diverged(heads) => remedied(
                turn,
                RemediationModel::OperationHeadsDiverged { heads: heads@ },
            ),
            _ => entered(turn, entry, heads, git),
        },
        _ => true,
    }
}

impl WorkspaceEntry {
    /// Begins to enter a workspace whose record, view, heads and checkpoint
    /// have been read. Observing diverged heads ends at once.
    pub fn begin(
        mode: WorkspaceTxnMode,
        record: WorkingCopyRecord,
        view: ViewHeader,
        heads: OperationHeadState,
        checkpoint: Option<WorkspaceCheckpoint>,
    ) -> (turn: EntryTurn)
        ensures
            if mode is Observe && heads is Diverged {
                remedied(
                    turn,
                    RemediationModel::OperationHeadsDiverged { heads: heads->Diverged_0@ },
                )
            } else {
                turn matches EntryTurn::Continue(entry, action) && action is Observe && entry == (
                WorkspaceEntry {
                    mode,
                    record,
                    view,
                    heads,
                    checkpoint,
                    attempt: 1,
                    first_changed: None,
                    phase: EntryPhase::Initial,
                }) && entry.wf()
            },
    {
        if mode == WorkspaceTxnMode::Observe {
            if let OperationHeadState::Diverged(list) = heads {
                return EntryTurn::Finish(
                    WorkspaceTxnStart::Remediation(
                        WorkspaceRemediation::OperationHeadsDiverged { heads: list },
                    ),
                );
            }
        }
        EntryTurn::Continue(
            WorkspaceEntry {
                mode,
                record,
                view,
                heads,
                checkpoint,
                attempt: 1,
                first_changed: None,
                phase: EntryPhase::Initial,
            },
            EntryAction::Observe,
        )
    }

    fn remediation(&self, git: &WorkspaceGitObservation) -> (found: Option<WorkspaceRemediation>)
        ensures
            opt_remediation(found) == self.remedy(*git),
    {
        classify_git_state(
            self.mode,
            self.view.name.as_str(),
            self.record.desired_state,
            &self.checkpoint,
            git,
        )
    }

    fn enter(self, heads: OperationHeadState, git: WorkspaceGitObservation) -> (turn: EntryTurn)
        ensures
            entered(turn, self, heads, git),
    {
        EntryTurn::Finish(
            WorkspaceTxnStart::Ready(
                WorkspaceTxn {
                    mode: self.mode,
                    attempts: self.attempt,
                    record: self.record,
                    view: self.view,
                    operation_heads: heads,
                    checkpoint: self.checkpoint,
                    git,
                    plan: WorkspaceEntryPlan::aligned(),
                },
            ),
        )
    }

    /// Takes the awaited event and says what to do next.
    pub fn turn(self, event: EntryEvent) -> (turn: EntryTurn)
        requires
            self.wf(),
            self.awaits(event),
        ensures
            leads_to(self, event, turn),
            turn matches EntryTurn::Continue(next, _) ==> next.wf() && next.turns_left()
                < self.turns_left(),
            turn matches EntryTurn::Finish(WorkspaceTxnStart::Ready(txn)) ==> {
                &&& txn.spec_attempts() <= MAX_WORKSPACE_TXN_ATTEMPTS
                &&& txn.spec_heads() !is Diverged
                &&& txn.spec_plan().ordered()
                &&& classification(
                    txn.spec_mode(),
                    txn.spec_view().name@,
                    txn.spec_record().desired_state,
                    opt_checkpoint(txn.spec_checkpoint()),
                    txn.spec_git(),
                ) is None
            },
    {
        let mut entry = self;
        match event {
            EntryEvent::Observed(git) => match entry.phase {
                EntryPhase::Initial => {
                    if let Some(remediation) = entry.remediation(&git) {
                        return EntryTurn::Finish(WorkspaceTxnStart::Remediation(remediation));
                    }
                    let initial: GitObservationToken = git.token();
                    entry.phase = EntryPhase::Confirming { initial };
                    EntryTurn::Continue(entry, EntryAction::Observe)
                },
                EntryPhase::Confirming { initial } => {
                    let token: GitObservationToken = git.token();
                    entry.phase = EntryPhase::Initial;
                    if !initial.same(&token) {
                        let first: GitObservationToken = match entry.first_changed {
                            Some(first) => first,
                            None => initial,
                        };
                        if entry.attempt == MAX_WORKSPACE_TXN_ATTEMPTS {
                            return EntryTurn::Finish(
                                WorkspaceTxnStart::Remediation(
                                    WorkspaceRemediation::ConcurrentGitMutation {
                                        attempts: MAX_WORKSPACE_TXN_ATTEMPTS,
                                        first,
                                        last: token,
                                    },
                                ),
                            );
                        }
                        entry.first_changed = Some(first);
                        entry.attempt = entry.attempt + 1;
                        return EntryTurn::Continue(entry, EntryAction::Observe);
                    }
                    if let Some(remediation) = entry.remediation(&git) {
                        return EntryTurn::Finish(WorkspaceTxnStart::Remediation(remediation));
                    }
                    if entry.mode == WorkspaceTxnMode::Observe {
                        let heads: OperationHeadState = entry.heads;
                        entry.heads = OperationHeadState::Empty;
                        return entry.enter(heads, git);
                    }
                    entry.phase = EntryPhase::Consolidating { token };
                    EntryTurn::Continue(entry, EntryAction::RecoverAlignment)
                },
                EntryPhase::Rechecking { token } => {
                    let seen: GitObservationToken = git.token();
                    entry.phase = EntryPhase::Initial;
                    if !seen.same(&token) {
                        return EntryTurn::Finish(
                            WorkspaceTxnStart::Remediation(
                                WorkspaceRemediation::ConcurrentGitMutation {
                                    attempts: entry.attempt,
                                    first: token,
                                    last: seen,
                                },
                            ),
                        );
                    }
                    if let Some(remediation) = entry.remediation(&git) {
                        return EntryTurn::Finish(WorkspaceTxnStart::Remediation(remediation));
                    }
                    entry.phase = EntryPhase::Concluding { git };
                    EntryTurn::Continue(entry, EntryAction::Consolidate)
                },
                _ => EntryTurn::Continue(entry, EntryAction::Observe),
            },
            EntryEvent::Consolidated(heads) => {
                let heads: OperationHeadState = match heads {
                    OperationHeadState::Diverged(list) => {
                        return EntryTurn::Finish(
                            WorkspaceTxnStart::Remediation(
                                WorkspaceRemediation::OperationHeadsDiverged { heads: list },
                            ),
                        );
                    },
                    other => other,
                };
                match entry.phase {
                    EntryPhase::Consolidating { token } => {
                        entry.phase = EntryPhase::Reloading { token };
                        EntryTurn::Continue(entry, EntryAction::RecoverOperation)
                    },
                    EntryPhase::Concluding { git } => {
                        entry.phase = EntryPhase::Initial;
                        entry.enter(heads, git)
                    },
                    _ => EntryTurn::Continue(entry, EntryAction::Observe),
                }
            },
            EntryEvent::Reloaded { record, view } => match entry.phase {
                EntryPhase::Reloading { token } => {
                    entry.record = record;
                    entry.view = view;
                    entry.phase = EntryPhase::Rechecking { token };
                    EntryTurn::Continue(entry, EntryAction::Observe)
                },
                _ => EntryTurn::Continue(entry, EntryAction::Observe),
            },
        }
    }
}

/// Whether the authority over a working copy was read, or why not.
pub open spec fn authority_error(repo: Repository, id: Seq<char>, error: RepositoryError) -> bool {
    match repository::record_from(repo.working_copies@, id, 0) {
        None => error matches RepositoryError::WorkingCopyRecordNotFound { id: missing }
            && missing@ == id,
        Some(i) => {
            let found = repo.working_copies@[i];
            match repo.view_with_id(found.desired_view) {
                None => error matches RepositoryError::ViewNotFound { name } && name@
                    == repository::view_id_text(found.desired_view),
                Some(j) => repo.views@[j].state != found.desired_state && (error matches
                    RepositoryError::InvalidRepository {
                    reason: InvalidReason::DesiredState { id: copy, view, expected, actual },
                } && copy@ == id && view@ == repo.views@[j].name@ && expected
                    == found.desired_state && actual == repo.views@[j].state),
            }
        },
    }
}

/// Whether a working copy has a record, and the view it names the state that
/// it records.
pub open spec fn has_authority(repo: Repository, id: Seq<char>) -> bool {
    match repository::record_from(repo.working_copies@, id, 0) {
        None => false,
        Some(i) => match repo.view_with_id(repo.working_copies@[i].desired_view) {
            None => false,
            Some(j) => repo.views@[j].state == repo.working_copies@[i].desired_state,
        },
    }
}

impl Repository {
    /// Begins to enter the shared workspace boundary, with its ordered locks
    /// held, the operation heads read and the checkpoint accepted.
    pub fn begin_workspace_txn(
        &self,
        mode: WorkspaceTxnMode,
        heads: OperationHeadState,
        checkpoint: Option<WorkspaceCheckpoint>,
    ) -> (started: Result<EntryTurn, RepositoryError>)
        ensures
            match self.working_copy {
                None => started matches Err(RepositoryError::WorkingCopyRequired),
                Some(id) => if !has_authority(*self, id@) {
                    started matches Err(error) && authority_error(*self, id@, error)
                } else if mode is Observe && heads is Diverged {
                    started matches Ok(turn) && remedied(
                        turn,
                        RemediationModel::OperationHeadsDiverged { heads: heads->Diverged_0@ },
                    )
                } else {
                    started matches Ok(EntryTurn::Continue(entry, action)) && action is Observe
                        && entry.wf() && entry.mode == mode && entry.record.id@ == id@
                        && Some(entry.view.name@) == self.desired_view(id@)
                        && entry.record.desired_view == entry.view.id
                        && entry.record.desired_state == entry.view.state
                        && self.views@[self.view_with_id(entry.view.id)->0].state
                        == entry.view.state && entry.heads == heads && entry.checkpoint
                        == checkpoint && entry.attempt == 1 && entry.phase is Initial
                },
            },
    {
        let id: &WorkingCopyId = match &self.working_copy {
            None => {
                return Err(RepositoryError::WorkingCopyRequired);
            },
            Some(id) => id,
        };
        match self.load_workspace_authority(id) {
            Err(error) => Err(error),
            Ok((record, view)) => Ok(WorkspaceEntry::begin(mode, record, view, heads, checkpoint)),
        }
    }
}

} // verus!
