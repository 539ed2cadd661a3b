//! Private snapshots of working copies: where they live, what replaces what,
//! and which of them may leave their owner.

use crate::bytes::same_bytes;
use crate::collections;
use crate::effects;
use crate::effects::{
    EffectPlan, EffectTarget, EffectValue, FileKind, FileState, PlanModel, TargetModel, ValueModel,
};
use crate::error;
use crate::error::{ChangeName, Refusal, RepositoryError, SnapshotRefusal};
use crate::paths;
use crate::repository::{ChangeKind, Repository, StoredChange, ViewScope, ViewState};
use crate::text;
use crate::types::{ContentHash, NodeId, WorkingCopyId};
use vstd::prelude::*;

verus! {

/// State of a working copy's private snapshot view.
#[derive(Debug)]
pub struct SnapshotState {
    pub view: String,
    pub baseline_view: String,
    pub head: Option<ContentHash>,
    pub remainder: Option<ContentHash>,
}

/// What a [`SnapshotState`] says.
pub ghost struct StateModel {
    pub view: Seq<char>,
    pub baseline_view: Seq<char>,
    pub head: Option<ContentHash>,
    pub remainder: Option<ContentHash>,
}

impl View for SnapshotState {
    type V = StateModel;

    open spec fn view(&self) -> StateModel {
        StateModel {
            view: self.view@,
            baseline_view: self.baseline_view@,
            head: self.head,
            remainder: self.remainder,
        }
    }
}

/// Snapshot and remainder of a working copy, and how many snapshots the
/// snapshot supersedes.
#[derive(Debug)]
pub struct SnapshotStatus {
    pub view: String,
    pub baseline_view: String,
    pub snapshot: Option<ContentHash>,
    pub remainder: Option<ContentHash>,
    pub superseded_snapshots: usize,
}

impl SnapshotStatus {
    /// Whether there is a snapshot or a remainder.
    pub fn is_active(&self) -> (active: bool)
        ensures
            active == (self.snapshot is Some || self.remainder is Some),
    {
        self.snapshot.is_some() || self.remainder.is_some()
    }
}

/// How many superseded snapshots are kept.
#[derive(Clone, Copy, Debug, PartialEq, Eq, Structural)]
pub struct SnapshotRetentionPolicy {
    pub keep_superseded: usize,
}

impl Default for SnapshotRetentionPolicy {
    fn default() -> (policy: Self)
        ensures
            policy.keep_superseded == 8,
    {
        SnapshotRetentionPolicy { keep_superseded: 8 }
    }
}

/// Which superseded snapshots stay, and which go.
#[derive(Debug)]
pub struct SnapshotRetentionOutcome {
    pub retained: Vec<ContentHash>,
    pub deleted: Vec<ContentHash>,
}

impl Default for SnapshotRetentionOutcome {
    fn default() -> (outcome: Self)
        ensures
            outcome.retained@.len() == 0,
            outcome.deleted@.len() == 0,
    {
        SnapshotRetentionOutcome { retained: Vec::new(), deleted: Vec::new() }
    }
}

/// What must happen to the private view before it can be used.
#[derive(Clone, Copy, Debug, PartialEq, Eq, Structural)]
pub enum ViewAction {
    /// It stands as it should.
    Keep,
    /// It is empty and follows another baseline.
    Reparent { parent: u64 },
    /// There is none yet.
    Create { parent: u64 },
}

/// Why a snapshot request fails.
pub ghost enum SnapshotFault {
    /// The handle has no working copy.
    Required,
    /// The handle belongs to another working copy.
    Mismatch { requested: Seq<char>, actual: Seq<char> },
    /// The working copy has no record.
    NoRecord { id: Seq<char> },
    NoView { name: Seq<char> },
    /// A change of a view has no external hash.
    Unnamed { change: NodeId },
    /// A change cannot be loaded.
    Unknown { hash: ContentHash },
    /// An invalid operation with this message.
    Says { message: Seq<char> },
    Refused { refusal: SnapshotRefusal },
}

/// Whether `error` reports `fault`.
pub open spec fn reports(error: RepositoryError, fault: SnapshotFault) -> bool {
    match fault {
        SnapshotFault::Required => error is WorkingCopyRequired,
        SnapshotFault::Mismatch { requested, actual } => error matches
            RepositoryError::WorkingCopyIdentityMismatch { requested: r, actual: a } && r@
            == requested && a@ == actual,
        SnapshotFault::NoRecord { id } => error matches RepositoryError::WorkingCopyRecordNotFound {
            id: missing,
        } && missing@ == id,
        SnapshotFault::NoView { name } => error matches RepositoryError::ViewNotFound {
            name: missing,
        } && missing@ == name,
        SnapshotFault::Unnamed { change } => error matches RepositoryError::ChangeNotFound {
            hash: ChangeName::Text(name),
        } && name@ == text::numeral(change.0 as nat),
        SnapshotFault::Unknown { hash } => error == (RepositoryError::ChangeNotFound { hash: ChangeName::Hash(hash) }),
        SnapshotFault::Says { message } => error.says(message),
        SnapshotFault::Refused { refusal } => error == (RepositoryError::InvalidOperation {
            refusal: Refusal::Snapshot(refusal),
        }),
    }
}

/// Canonical private view name for a working copy.
pub open spec fn private_view(id: Seq<char>) -> Seq<char> {
    "wc/"@ + id
}

/// Why this handle may not speak for a working copy, or the name of the view
/// that the working copy is meant to show.
pub open spec fn baseline(repo: Repository, id: Seq<char>) -> Result<Seq<char>, SnapshotFault> {
    match repo.working_copy {
        None => Err(SnapshotFault::Required),
        Some(own) => if own@ != id {
            Err(SnapshotFault::Mismatch { requested: id, actual: own@ })
        } else {
            match repo.desired_view(id) {
                Some(name) => Ok(name),
                None => Err(SnapshotFault::NoRecord { id }),
            }
        },
    }
}

/// A message about the private view.
pub open spec fn about_view(before: Seq<char>, name: Seq<char>, after: Seq<char>) -> Seq<char> {
    before + name + after
}

/// The only direct change of a view, if it has one: the log is read until a
/// second change turns up.
pub open spec fn sole_change(repo: Repository, changes: Seq<NodeId>, name: Seq<char>) -> Result<
    Option<ContentHash>,
    SnapshotFault,
> {
    if changes.len() == 0 {
        Ok(None)
    } else {
        match repo.pristine@.external(changes[0]) {
            None => Err(SnapshotFault::Unnamed { change: changes[0] }),
            Some(hash) => if changes.len() == 1 {
                Ok(Some(hash))
            } else if repo.pristine@.external(changes[1]) is None {
                Err(SnapshotFault::Unnamed { change: changes[1] })
            } else {
                Err(
                    SnapshotFault::Says {
                        message: about_view(
                            "snapshot view '"@,
                            name,
                            "' contains more than one direct change"@,
                        ),
                    },
                )
            },
        }
    }
}

/// State of a private view whose only direct change is `direct`.
pub open spec fn private_state(
    repo: Repository,
    id: Seq<char>,
    baseline_view: Seq<char>,
    direct: Option<ContentHash>,
) -> Result<StateModel, SnapshotFault> {
    let none = StateModel { view: private_view(id), baseline_view, head: None, remainder: None };
    match direct {
        None => Ok(none),
        Some(hash) => match repo.change_at(hash) {
            None => Err(SnapshotFault::Unknown { hash }),
            Some(i) => match repo.changes@[i].kind.owner() {
                None => Ok(StateModel { remainder: Some(hash), ..none }),
                Some(owner) => if owner == id {
                    Ok(StateModel { head: Some(hash), ..none })
                } else {
                    Err(SnapshotFault::Refused { refusal: SnapshotRefusal::NotOwned { hash } })
                },
            },
        },
    }
}

/// What [`Repository::ensure_snapshot_view`] finds and wants done.
pub open spec fn private_plan(repo: Repository, id: Seq<char>) -> Result<
    (StateModel, ViewAction),
    SnapshotFault,
> {
    match baseline(repo, id) {
        Err(fault) => Err(fault),
        Ok(name) => match repo.view_at(name) {
            None => Err(SnapshotFault::NoView { name }),
            Some(base) => {
                let parent = repo.views@[base].id;
                match repo.view_at(private_view(id)) {
                    None => match private_state(repo, id, name, None) {
                        Err(fault) => Err(fault),
                        Ok(state) => Ok((state, ViewAction::Create { parent })),
                    },
                    Some(own) => {
                        let view = repo.views@[own];
                        if view.scope != ViewScope::Draft {
                            Err(
                                SnapshotFault::Says {
                                    message: about_view(
                                        "snapshot view '"@,
                                        private_view(id),
                                        "' must remain Draft"@,
                                    ),
                                },
                            )
                        } else if view.parent != Some(parent) && view.changes@.len() != 0 {
                            Err(
                                SnapshotFault::Says {
                                    message: about_view(
                                        "snapshot view '"@,
                                        private_view(id),
                                        "' still contains a snapshot for a different baseline"@,
                                    ),
                                },
                            )
                        } else {
                            match sole_change(repo, view.changes@, private_view(id)) {
                                Err(fault) => Err(fault),
                                Ok(direct) => match private_state(repo, id, name, direct) {
                                    Err(fault) => Err(fault),
                                    Ok(state) => Ok(
                                        (
                                            state,
                                            if view.parent != Some(parent) {
                                                ViewAction::Reparent { parent }
                                            } else {
                                                ViewAction::Keep
                                            },
                                        ),
                                    ),
                                },
                            }
                        }
                    },
                }
            },
        },
    }
}

/// An invalid operation that names a view.
fn invalid_view(before: &str, name: &str, after: &str) -> (error: RepositoryError)
    ensures
        reports(error, SnapshotFault::Says { message: about_view(before@, name@, after@) }),
{
    let mut message: String = before.to_owned();
    message.append(name);
    message.append(after);
    error::invalid(message.as_str())
}

/// An error for a refused snapshot.
fn refused(refusal: SnapshotRefusal) -> (error: RepositoryError)
    ensures
        reports(error, SnapshotFault::Refused { refusal }),
{
    RepositoryError::InvalidOperation { refusal: Refusal::Snapshot(refusal) }
}

/// An error for a change without an external hash.
fn unnamed(change: NodeId) -> (error: RepositoryError)
    ensures
        reports(error, SnapshotFault::Unnamed { change }),
{
    RepositoryError::ChangeNotFound { hash: ChangeName::Text(text::decimal(change.0)) }
}

/// The owner of a snapshot, if the change is one.
fn owner_of(kind: &ChangeKind) -> (owner: Option<WorkingCopyId>)
    ensures
        match kind.owner() {
            Some(id) => owner matches Some(copy) && copy@ == id,
            None => owner is None,
        },
{
    match kind {
        ChangeKind::Durable => None,
        ChangeKind::Snapshot { working_copy } => Some(working_copy.dup()),
    }
}

impl Repository {
    /// Canonical private view name for a physical working copy.
    pub fn snapshot_view_name(working_copy: &WorkingCopyId) -> (name: String)
        ensures
            name@ == private_view(working_copy@),
    {
        let mut name: String = "wc/".to_owned();
        name.append(working_copy.text.as_str());
        name
    }

    /// Name of the view that a working copy of this handle is meant to show.
    fn snapshot_baseline(&self, working_copy: &WorkingCopyId) -> (name: Result<
        String,
        RepositoryError,
    >)
        ensures
            match baseline(*self, working_copy@) {
                Ok(view) => name matches Ok(text) && text@ == view,
                Err(fault) => name matches Err(error) && reports(error, fault),
            },
    {
        if let Err(error) = self.validate_working_copy(working_copy) {
            return Err(error);
        }
        self.desired_view_name(working_copy)
    }

    /// The only direct change of a view.
    fn find_sole_change(&self, changes: &Vec<NodeId>, name: &str) -> (found: Result<
        Option<ContentHash>,
        RepositoryError,
    >)
        ensures
            match sole_change(*self, changes@, name@) {
                Ok(direct) => found matches Ok(hash) && hash == direct,
                Err(fault) => found matches Err(error) && reports(error, fault),
            },
    {
        if changes.len() == 0 {
            return Ok(None);
        }
        let hash: ContentHash = match self.pristine.get_external(changes[0]) {
            Some(hash) => hash,
            None => return Err(unnamed(changes[0])),
        };
        if changes.len() == 1 {
            return Ok(Some(hash));
        }
        if self.pristine.get_external(changes[1]).is_none() {
            return Err(unnamed(changes[1]));
        }
        Err(invalid_view("snapshot view '", name, "' contains more than one direct change"))
    }

    /// State of the private view whose only direct change is `direct`.
    fn find_private_state(
        &self,
        working_copy: &WorkingCopyId,
        baseline_view: String,
        direct: Option<ContentHash>,
    ) -> (found: Result<SnapshotState, RepositoryError>)
        ensures
            match private_state(*self, working_copy@, baseline_view@, direct) {
                Ok(state) => found matches Ok(s) && s@ == state,
                Err(fault) => found matches Err(error) && reports(error, fault),
            },
    {
        let view: String = Self::snapshot_view_name(working_copy);
        match direct {
            None => Ok(SnapshotState { view, baseline_view, head: None, remainder: None }),
            Some(hash) => match self.find_change(hash) {
                None => Err(RepositoryError::ChangeNotFound { hash: ChangeName::Hash(hash) }),
                Some(i) => match owner_of(&self.changes[i].kind) {
                    None => Ok(
                        SnapshotState { view, baseline_view, head: None, remainder: Some(hash) },
                    ),
                    Some(owner) => if owner.same(working_copy) {
                        Ok(SnapshotState { view, baseline_view, head: Some(hash), remainder: None })
                    } else {
                        Err(refused(SnapshotRefusal::NotOwned { hash }))
                    },
                },
            },
        }
    }

    /// Inspects the private Draft snapshot view owned by `working_copy`, and
    /// says whether it has to be created or moved to the current baseline
    /// first. Only an empty view is ever moved.
    pub fn ensure_snapshot_view(&self, working_copy: &WorkingCopyId) -> (found: Result<
        (SnapshotState, ViewAction),
        RepositoryError,
    >)
        ensures
            match private_plan(*self, working_copy@) {
                Ok((state, action)) => found matches Ok((s, a)) && s@ == state && a == action,
                Err(fault) => found matches Err(error) && reports(error, fault),
            },
    {
        let baseline_view: String = match self.snapshot_baseline(working_copy) {
            Ok(name) => name,
            Err(error) => return Err(error),
        };
        let name: String = Self::snapshot_view_name(working_copy);
        let base: usize = match self.find_view(baseline_view.as_str()) {
            Some(base) => base,
            None => return Err(RepositoryError::ViewNotFound { name: baseline_view }),
        };
        let parent: u64 = self.views[base].id;
        match self.find_view(name.as_str()) {
            None => match self.find_private_state(working_copy, baseline_view, None) {
                Ok(state) => Ok((state, ViewAction::Create { parent })),
                Err(error) => Err(error),
            },
            Some(own) => {
                let view: &ViewState = &self.views[own];
                if view.scope != ViewScope::Draft {
                    return Err(
                        invalid_view("snapshot view '", name.as_str(), "' must remain Draft"),
                    );
                }
                let settled: bool = match view.parent {
                    Some(held) => held == parent,
                    None => false,
                };
                if !settled && view.changes.len() != 0 {
                    return Err(
                        invalid_view(
                            "snapshot view '",
                            name.as_str(),
                            "' still contains a snapshot for a different baseline",
                        ),
                    );
                }
                let direct: Option<ContentHash> = match self.find_sole_change(
                    &view.changes,
                    name.as_str(),
                ) {
                    Ok(direct) => direct,
                    Err(error) => return Err(error),
                };
                match self.find_private_state(working_copy, baseline_view, direct) {
                    Ok(state) => Ok(
                        (
                            state,
                            if settled {
                                ViewAction::Keep
                            } else {
                                ViewAction::Reparent { parent }
                            },
                        ),
                    ),
                    Err(error) => Err(error),
                }
            },
        }
    }
}

/// What happens to a recorded change.
#[derive(Debug)]
pub enum RecordLifecycle {
    /// It joins the baseline.
    Durable,
    /// It becomes the private snapshot, in place of what stands there.
    Snapshot {
        working_copy: WorkingCopyId,
        view: String,
        supersedes: Option<ContentHash>,
        replaces: Option<ContentHash>,
    },
    /// It joins the baseline in place of the snapshot.
    Promotion { snapshot_view: String, snapshot: ContentHash },
}

/// What a [`RecordLifecycle`] says.
#[allow(inconsistent_fields)]
pub ghost enum LifecycleModel {
    Durable,
    Snapshot {
        working_copy: Seq<char>,
        view: Seq<char>,
        supersedes: Option<ContentHash>,
        replaces: Option<ContentHash>,
    },
    Promotion { snapshot_view: Seq<char>, snapshot: ContentHash },
}

impl View for RecordLifecycle {
    type V = LifecycleModel;

    open spec fn view(&self) -> LifecycleModel {
        match self {
            RecordLifecycle::Durable => LifecycleModel::Durable,
            RecordLifecycle::Snapshot { working_copy, view, supersedes, replaces } =>
                LifecycleModel::Snapshot {
                working_copy: working_copy@,
                view: view@,
                supersedes: *supersedes,
                replaces: *replaces,
            },
            RecordLifecycle::Promotion { snapshot_view, snapshot } => LifecycleModel::Promotion {
                snapshot_view: snapshot_view@,
                snapshot: *snapshot,
            },
        }
    }
}

impl LifecycleModel {
    /// The view that the recorded change enters.
    pub open spec fn target(self, baseline_view: Seq<char>) -> Seq<char> {
        match self {
            LifecycleModel::Snapshot { view, .. } => view,
            _ => baseline_view,
        }
    }

    /// The view and the change that the recorded change takes out of it.
    pub open spec fn removed(self) -> Option<(Seq<char>, ContentHash)> {
        match self {
            LifecycleModel::Durable => None,
            LifecycleModel::Snapshot { view, replaces, .. } => match replaces {
                Some(previous) => Some((view, previous)),
                None => None,
            },
            LifecycleModel::Promotion { snapshot_view, snapshot } => Some(
                (snapshot_view, snapshot),
            ),
        }
    }

    /// Whose snapshot the recorded change is.
    pub open spec fn owner(self) -> Option<Seq<char>> {
        match self {
            LifecycleModel::Snapshot { working_copy, .. } => Some(working_copy),
            _ => None,
        }
    }

    /// The snapshot that the recorded change supersedes.
    pub open spec fn superseded(self) -> Option<ContentHash> {
        match self {
            LifecycleModel::Snapshot { supersedes, .. } => supersedes,
            _ => None,
        }
    }
}

/// The parts of a change that a promotion must keep, each in its canonical
/// bytes.
#[derive(Debug)]
pub struct ChangeBody {
    pub hunks: Vec<u8>,
    pub contents: Vec<u8>,
    pub file_ops: Vec<u8>,
}

impl RecordLifecycle {
    /// The view that the recorded change enters.
    pub fn target_view(&self, baseline: &str) -> (name: String)
        ensures
            name@ == self@.target(baseline@),
    {
        match self {
            RecordLifecycle::Snapshot { view, .. } => view.clone(),
            _ => baseline.to_owned(),
        }
    }

    /// The view and the change that the recorded change takes out of it.
    pub fn removal(&self) -> (removal: Option<(String, ContentHash)>)
        ensures
            match self@.removed() {
                Some((view, hash)) => removal matches Some((name, change)) && name@ == view
                    && change == hash,
                None => removal is None,
            },
    {
        match self {
            RecordLifecycle::Durable => None,
            RecordLifecycle::Snapshot { view, replaces, .. } => match replaces {
                Some(previous) => Some((view.clone(), *previous)),
                None => None,
            },
            RecordLifecycle::Promotion { snapshot_view, snapshot } => Some(
                (snapshot_view.clone(), *snapshot),
            ),
        }
    }

    /// The kind of the recorded change, and what it supersedes.
    pub fn classify(&self) -> (class: (ChangeKind, Option<ContentHash>))
        ensures
            class.0.owner() == self@.owner(),
            class.1 == self@.superseded(),
    {
        match self {
            RecordLifecycle::Snapshot { working_copy, supersedes, .. } => (
                ChangeKind::Snapshot { working_copy: working_copy.dup() },
                *supersedes,
            ),
            _ => (ChangeKind::Durable, None),
        }
    }

    /// Checks that what is about to be recorded still is what the snapshot to
    /// promote holds. `snapshot` is the body of that snapshot.
    pub fn verify_promotion_content(&self, recorded: &ChangeBody, snapshot: &ChangeBody) -> (checked:
        Result<(), RepositoryError>)
        ensures
            match self@ {
                LifecycleModel::Promotion { snapshot: hash, .. } => if recorded.hunks@
                    == snapshot.hunks@ && recorded.contents@ == snapshot.contents@
                    && recorded.file_ops@ == snapshot.file_ops@ {
                    checked is Ok
                } else {
                    checked matches Err(error) && reports(
                        error,
                        SnapshotFault::Refused { refusal: SnapshotRefusal::Stale { hash } },
                    )
                },
                _ => checked is Ok,
            },
    {
        match self {
            RecordLifecycle::Promotion { snapshot: hash, .. } => {
                if same_bytes(&recorded.hunks, &snapshot.hunks) && same_bytes(
                    &recorded.contents,
                    &snapshot.contents,
                ) && same_bytes(&recorded.file_ops, &snapshot.file_ops) {
                    Ok(())
                } else {
                    Err(refused(SnapshotRefusal::Stale { hash: *hash }))
                }
            },
            _ => Ok(()),
        }
    }
}

/// What recording does with its result.
#[derive(Clone, Copy, Debug, PartialEq, Eq, Structural)]
pub struct RecordOptions {
    pub save_to_store: bool,
    pub apply_after_record: bool,
}

/// A private view to put in order, and how to record into it.
#[derive(Debug)]
pub struct SnapshotRecord {
    pub action: ViewAction,
    pub baseline_view: String,
    pub lifecycle: RecordLifecycle,
}

/// How the next snapshot of a working copy is recorded.
pub open spec fn snapshot_plan(repo: Repository, id: Seq<char>, options: RecordOptions) -> Result<
    (ViewAction, Seq<char>, LifecycleModel),
    SnapshotFault,
> {
    if !options.save_to_store || !options.apply_after_record {
        Err(SnapshotFault::Says { message: "snapshots must be saved and applied atomically"@ })
    } else {
        match private_plan(repo, id) {
            Err(fault) => Err(fault),
            Ok((state, action)) => Ok(
                (
                    action,
                    state.baseline_view,
                    LifecycleModel::Snapshot {
                        working_copy: id,
                        view: state.view,
                        supersedes: state.head,
                        replaces: if state.head is Some {
                            state.head
                        } else {
                            state.remainder
                        },
                    },
                ),
            ),
        }
    }
}

/// How the snapshot of a working copy is promoted.
pub open spec fn promotion_plan(repo: Repository, id: Seq<char>, options: RecordOptions) -> Result<
    (ViewAction, Seq<char>, LifecycleModel),
    SnapshotFault,
> {
    if !options.save_to_store || !options.apply_after_record {
        Err(
            SnapshotFault::Says {
                message: "snapshot promotion must be saved and applied atomically"@,
            },
        )
    } else {
        match private_plan(repo, id) {
            Err(fault) => Err(fault),
            Ok((state, action)) => match state.head {
                None => Err(
                    SnapshotFault::Says {
                        message: about_view(
                            "snapshot view '"@,
                            state.view,
                            "' has no snapshot to promote"@,
                        ),
                    },
                ),
                Some(snapshot) => Ok(
                    (
                        action,
                        state.baseline_view,
                        LifecycleModel::Promotion { snapshot_view: state.view, snapshot },
                    ),
                ),
            },
        }
    }
}

impl Repository {
    /// How to record the complete working-copy delta relative to its durable
    /// baseline as the next private snapshot.
    pub fn snapshot(&self, working_copy: &WorkingCopyId, options: RecordOptions) -> (planned: Result<
        SnapshotRecord,
        RepositoryError,
    >)
        ensures
            match snapshot_plan(*self, working_copy@, options) {
                Ok((action, baseline_view, lifecycle)) => planned matches Ok(record)
                    && record.action == action && record.baseline_view@ == baseline_view
                    && record.lifecycle@ == lifecycle,
                Err(fault) => planned matches Err(error) && reports(error, fault),
            },
    {
        if !options.save_to_store || !options.apply_after_record {
            return Err(error::invalid("snapshots must be saved and applied atomically"));
        }
        match self.ensure_snapshot_view(working_copy) {
            Err(error) => Err(error),
            Ok((state, action)) => Ok(
                SnapshotRecord {
                    action,
                    baseline_view: state.baseline_view,
                    lifecycle: RecordLifecycle::Snapshot {
                        working_copy: working_copy.dup(),
                        view: state.view,
                        supersedes: state.head,
                        replaces: if state.head.is_some() {
                            state.head
                        } else {
                            state.remainder
                        },
                    },
                },
            ),
        }
    }

    /// How to promote the current snapshot by reassembling its content as a
    /// durable change.
    pub fn promote_snapshot(&self, working_copy: &WorkingCopyId, options: RecordOptions) -> (planned:
        Result<SnapshotRecord, RepositoryError>)
        ensures
            match promotion_plan(*self, working_copy@, options) {
                Ok((action, baseline_view, lifecycle)) => planned matches Ok(record)
                    && record.action == action && record.baseline_view@ == baseline_view
                    && record.lifecycle@ == lifecycle,
                Err(fault) => planned matches Err(error) && reports(error, fault),
            },
    {
        if !options.save_to_store || !options.apply_after_record {
            return Err(error::invalid("snapshot promotion must be saved and applied atomically"));
        }
        match self.ensure_snapshot_view(working_copy) {
            Err(error) => Err(error),
            Ok((state, action)) => match state.head {
                None => Err(
                    invalid_view(
                        "snapshot view '",
                        state.view.as_str(),
                        "' has no snapshot to promote",
                    ),
                ),
                Some(snapshot) => Ok(
                    SnapshotRecord {
                        action,
                        baseline_view: state.baseline_view,
                        lifecycle: RecordLifecycle::Promotion {
                            snapshot_view: state.view,
                            snapshot,
                        },
                    },
                ),
            },
        }
    }
}

/// A change stands at most once in a private view: what a snapshot or a
/// promotion takes out is what stood there, a snapshot supersedes a snapshot
/// only, and a promoted change is durable, supersedes nothing and enters the
/// baseline.
pub proof fn private_view_holds_one_change(repo: Repository, id: Seq<char>, options: RecordOptions)
    ensures
        snapshot_plan(repo, id, options) matches Ok((_, baseline_view, lifecycle)) ==> {
            &&& lifecycle.target(baseline_view) == private_view(id)
            &&& lifecycle.owner() == Some(id)
            &&& private_plan(repo, id) matches Ok((state, _)) && lifecycle.superseded() == state.head
                && (lifecycle.removed() matches Some((view, hash)) ==> view == private_view(id) && (
            state.head == Some(hash) || state.remainder == Some(hash))) && (lifecycle.removed() is None
                ==> state.head is None && state.remainder is None)
        },
        promotion_plan(repo, id, options) matches Ok((_, baseline_view, lifecycle)) ==> {
            &&& lifecycle.target(baseline_view) == baseline_view
            &&& lifecycle.owner() is None
            &&& lifecycle.superseded() is None
            &&& private_plan(repo, id) matches Ok((state, _)) && state.head is Some
                && lifecycle.removed() == Some((private_view(id), state.head->0))
        },
{
}

/// What a stored change supersedes.
pub open spec fn supersedes(repo: Repository, hash: ContentHash) -> Option<ContentHash> {
    match repo.change_at(hash) {
        Some(i) => repo.changes@[i].supersedes,
        None => None,
    }
}

/// The change that is reached from `head` by going back `n + 1` times.
pub open spec fn nth_superseded(repo: Repository, head: ContentHash, n: nat) -> Option<ContentHash>
    decreases n,
{
    if n == 0 {
        supersedes(repo, head)
    } else {
        match nth_superseded(repo, head, (n - 1) as nat) {
            Some(hash) => supersedes(repo, hash),
            None => None,
        }
    }
}

/// Whether `chain` is everything that `head` supersedes, the latest first.
pub open spec fn is_chain(repo: Repository, head: ContentHash, chain: Seq<ContentHash>) -> bool {
    &&& forall|n: nat| n < chain.len() ==> nth_superseded(repo, head, n) == Some(chain[n as int])
    &&& nth_superseded(repo, head, chain.len()) is None
    &&& chain.no_duplicates()
}

/// Whether going back from `head` first comes to a change for the second time
/// at `hash`.
pub open spec fn turns_back_at(repo: Repository, head: ContentHash, hash: ContentHash) -> bool {
    exists|chain: Seq<ContentHash>|
        {
            &&& forall|n: nat|
                n < chain.len() ==> nth_superseded(repo, head, n) == Some(#[trigger] chain[n as int])
            &&& chain.no_duplicates()
            &&& nth_superseded(repo, head, chain.len()) == Some(hash)
            &&& #[trigger] chain.contains(hash)
        }
}

/// Distinct members of `part` that all stand in `whole` are not more than
/// `whole` has.
proof fn no_more_than<T>(part: Seq<T>, whole: Seq<T>)
    requires
        part.no_duplicates(),
        forall|i: int| 0 <= i < part.len() ==> whole.contains(#[trigger] part[i]),
    ensures
        part.len() <= whole.len(),
{
    part.unique_seq_to_set();
    whole.lemma_cardinality_of_set();
    assert(part.to_set().subset_of(whole.to_set()));
    vstd::set_lib::lemma_len_subset(part.to_set(), whole.to_set());
}

/// The hashes of stored changes.
pub open spec fn stored_hashes(changes: Seq<StoredChange>) -> Seq<ContentHash> {
    changes.map_values(|c: StoredChange| c.hash)
}

/// A change that is found stands among the stored hashes.
proof fn found_is_stored(changes: Seq<StoredChange>, hash: ContentHash, i: int)
    requires
        0 <= i,
        crate::repository::change_from(changes, hash, i) is Some,
    ensures
        stored_hashes(changes).contains(hash),
    decreases changes.len() - i,
{
    if i < changes.len() {
        if changes[i].hash == hash {
            assert(stored_hashes(changes)[i] == hash);
        } else {
            found_is_stored(changes, hash, i + 1);
        }
    }
}

impl Repository {
    /// What a stored change supersedes.
    fn find_supersedes(&self, hash: ContentHash) -> (found: Option<ContentHash>)
        ensures
            found == supersedes(*self, hash),
            found is Some ==> stored_hashes(self.changes@).contains(hash),
    {
        match self.find_change(hash) {
            Some(i) => {
                proof {
                    found_is_stored(self.changes@, hash, 0);
                }
                self.changes[i].supersedes
            },
            None => None,
        }
    }

    /// Everything that a snapshot supersedes, the latest first.
    pub fn superseded_chain(&self, head: ContentHash) -> (found: Result<
        Vec<ContentHash>,
        RepositoryError,
    >)
        ensures
            match found {
                Ok(chain) => is_chain(*self, head, chain@),
                Err(error) => exists|hash: ContentHash|
                    turns_back_at(*self, head, hash) && reports(
                        error,
                        SnapshotFault::Refused { refusal: SnapshotRefusal::SupersedesCycle { hash } },
                    ),
            },
    {
        let mut chain: Vec<ContentHash> = Vec::new();
        let mut cursor: Option<ContentHash> = self.find_supersedes(head);
        let ghost stored = stored_hashes(self.changes@);
        while cursor.is_some()
            invariant
                stored == stored_hashes(self.changes@),
                chain@.no_duplicates(),
                cursor == nth_superseded(*self, head, chain@.len()),
                forall|n: nat|
                    n < chain@.len() ==> nth_superseded(*self, head, n) == Some(
                        #[trigger] chain@[n as int],
                    ),
                forall|i: int|
                    0 <= i < chain@.len() - 1 ==> stored.contains(#[trigger] chain@[i]),
                cursor is Some && chain@.len() > 0 ==> stored.contains(chain@.last()),
            decreases stored.len() + 1 - chain@.len(),
        {
            let hash: ContentHash = cursor.unwrap();
            if collections::contains(&chain, hash) {
                proof {
                    assert(turns_back_at(*self, head, hash));
                }
                return Err(refused(SnapshotRefusal::SupersedesCycle { hash }));
            }
            proof {
                assert forall|i: int| 0 <= i < chain@.len() implies stored.contains(
                    #[trigger] chain@[i],
                ) by {
                    if i == chain@.len() - 1 {
                        assert(chain@[i] == chain@.last());
                    }
                }
                no_more_than(chain@, stored);
            }
            let ghost before = chain@;
            chain.push(hash);
            cursor = self.find_supersedes(hash);
            proof {
                assert(chain@.last() == hash);
                assert forall|n: nat| n < chain@.len() implies nth_superseded(*self, head, n)
                    == Some(#[trigger] chain@[n as int]) by {
                    if n < before.len() {
                        assert(before[n as int] == chain@[n as int]);
                    }
                }
                assert forall|i: int| 0 <= i < chain@.len() - 1 implies stored.contains(
                    #[trigger] chain@[i],
                ) by {
                    assert(before[i] == chain@[i]);
                }
            }
        }
        Ok(chain)
    }
}

/// There is one chain, and none where it turns back.
pub proof fn chain_is_decided(
    repo: Repository,
    head: ContentHash,
    a: Seq<ContentHash>,
    b: Seq<ContentHash>,
)
    requires
        is_chain(repo, head, a),
    ensures
        is_chain(repo, head, b) ==> a == b,
        forall|hash: ContentHash| !turns_back_at(repo, head, hash),
{
    if is_chain(repo, head, b) {
        if a.len() < b.len() {
            assert(nth_superseded(repo, head, a.len()) == Some(b[a.len() as int]));
        }
        if b.len() < a.len() {
            assert(nth_superseded(repo, head, b.len()) == Some(a[b.len() as int]));
        }
        assert forall|i: int| 0 <= i < a.len() implies a[i] == b[i] by {
            assert(nth_superseded(repo, head, i as nat) == Some(a[i]));
            assert(nth_superseded(repo, head, i as nat) == Some(b[i]));
        }
        assert(a =~= b);
    }
    assert forall|hash: ContentHash| !turns_back_at(repo, head, hash) by {
        if turns_back_at(repo, head, hash) {
            let c: Seq<ContentHash> = choose|c: Seq<ContentHash>|
                {
                    &&& forall|n: nat|
                        n < c.len() ==> nth_superseded(repo, head, n) == Some(#[trigger] c[n as int])
                    &&& c.no_duplicates()
                    &&& nth_superseded(repo, head, c.len()) == Some(hash)
                    &&& #[trigger] c.contains(hash)
                };
            let k: int = choose|k: int| 0 <= k < c.len() && c[k] == hash;
            assert(nth_superseded(repo, head, k as nat) == Some(c[k]));
            if c.len() < a.len() {
                assert(nth_superseded(repo, head, c.len()) == Some(a[c.len() as int]));
                assert(nth_superseded(repo, head, k as nat) == Some(a[k]));
                assert(a[k] == a[c.len() as int]);
            } else {
                ends_for_good(repo, head, a.len(), c.len());
            }
        }
    }
}

/// Once there is nothing further back, there is nothing at all.
proof fn ends_for_good(repo: Repository, head: ContentHash, n: nat, m: nat)
    requires
        n <= m,
        nth_superseded(repo, head, n) is None,
    ensures
        nth_superseded(repo, head, m) is None,
    decreases m,
{
    if n < m {
        ends_for_good(repo, head, n, (m - 1) as nat);
    }
}

/// The first change of a log without an external hash.
pub open spec fn first_unnamed(repo: Repository, changes: Seq<NodeId>, i: int) -> Option<NodeId>
    decreases changes.len() - i,
{
    if i < 0 || i >= changes.len() {
        None
    } else if repo.pristine@.external(changes[i]) is None {
        Some(changes[i])
    } else {
        first_unnamed(repo, changes, i + 1)
    }
}

/// Snapshot and remainder of a private view with this log, whoever owns them.
pub open spec fn private_contents(repo: Repository, changes: Seq<NodeId>, name: Seq<char>) -> Result<
    (Option<ContentHash>, Option<ContentHash>),
    SnapshotFault,
> {
    match first_unnamed(repo, changes, 0) {
        Some(change) => Err(SnapshotFault::Unnamed { change }),
        None => if changes.len() > 1 {
            Err(
                SnapshotFault::Says {
                    message: about_view(
                        "private view '"@,
                        name,
                        "' contains multiple direct changes"@,
                    ),
                },
            )
        } else if changes.len() == 0 {
            Ok((None, None))
        } else {
            let hash = repo.pristine@.external(changes[0])->0;
            match repo.change_at(hash) {
                None => Err(SnapshotFault::Unknown { hash }),
                Some(i) => if repo.changes@[i].kind.owner() is Some {
                    Ok((Some(hash), None))
                } else {
                    Ok((None, Some(hash)))
                },
            }
        },
    }
}

/// Snapshot and remainder of a working copy; none where it has no private
/// view.
pub open spec fn private_read(repo: Repository, id: Seq<char>) -> Result<
    (Seq<char>, Option<ContentHash>, Option<ContentHash>),
    SnapshotFault,
> {
    match baseline(repo, id) {
        Err(fault) => Err(fault),
        Ok(baseline_view) => match repo.view_at(private_view(id)) {
            None => Ok((baseline_view, None, None)),
            Some(v) => match private_contents(repo, repo.views@[v].changes@, private_view(id)) {
                Err(fault) => Err(fault),
                Ok((snapshot, remainder)) => Ok((baseline_view, snapshot, remainder)),
            },
        },
    }
}

/// Whether a status follows from what the private view holds: the count is
/// that of everything that the snapshot supersedes, and a chain that turns
/// back is refused.
pub open spec fn is_status(
    repo: Repository,
    id: Seq<char>,
    found: Result<SnapshotStatus, RepositoryError>,
) -> bool {
    match private_read(repo, id) {
        Err(fault) => found matches Err(error) && reports(error, fault),
        Ok((baseline_view, snapshot, remainder)) => match found {
            Ok(status) => status.view@ == private_view(id) && status.baseline_view@ == baseline_view
                && status.snapshot == snapshot && status.remainder == remainder && (match snapshot {
                None => status.superseded_snapshots == 0,
                Some(head) => exists|chain: Seq<ContentHash>| #[trigger]
                    is_chain(repo, head, chain) && chain.len() == status.superseded_snapshots,
            }),
            Err(error) => snapshot matches Some(head) && exists|hash: ContentHash|
                turns_back_at(repo, head, hash) && reports(
                    error,
                    SnapshotFault::Refused { refusal: SnapshotRefusal::SupersedesCycle { hash } },
                ),
        },
    }
}

impl Repository {
    /// Snapshot and remainder of a private view with this log.
    fn read_private_view(&self, changes: &Vec<NodeId>, name: &str) -> (found: Result<
        (Option<ContentHash>, Option<ContentHash>),
        RepositoryError,
    >)
        ensures
            match private_contents(*self, changes@, name@) {
                Ok((snapshot, remainder)) => found matches Ok((s, r)) && s == snapshot && r
                    == remainder,
                Err(fault) => found matches Err(error) && reports(error, fault),
            },
    {
        let mut i: usize = 0;
        while i < changes.len()
            invariant
                i <= changes.len(),
                first_unnamed(*self, changes@, 0) == first_unnamed(*self, changes@, i as int),
            decreases changes.len() - i,
        {
            if self.pristine.get_external(changes[i]).is_none() {
                return Err(unnamed(changes[i]));
            }
            i = i + 1;
        }
        if changes.len() > 1 {
            return Err(invalid_view("private view '", name, "' contains multiple direct changes"));
        }
        if changes.len() == 0 {
            return Ok((None, None));
        }
        match self.pristine.get_external(changes[0]) {
            None => Err(unnamed(changes[0])),
            Some(hash) => match self.find_change(hash) {
                None => Err(RepositoryError::ChangeNotFound { hash: ChangeName::Hash(hash) }),
                Some(c) => if self.changes[c].kind.is_snapshot() {
                    Ok((Some(hash), None))
                } else {
                    Ok((None, Some(hash)))
                },
            },
        }
    }

    /// Reads snapshot and remainder without creating or changing the private
    /// view.
    pub fn snapshot_status(&self, working_copy: &WorkingCopyId) -> (found: Result<
        SnapshotStatus,
        RepositoryError,
    >)
        ensures
            is_status(*self, working_copy@, found),
    {
        let baseline_view: String = match self.snapshot_baseline(working_copy) {
            Ok(name) => name,
            Err(error) => return Err(error),
        };
        let view: String = Self::snapshot_view_name(working_copy);
        let at: usize = match self.find_view(view.as_str()) {
            Some(at) => at,
            None => return Ok(
                SnapshotStatus {
                    view,
                    baseline_view,
                    snapshot: None,
                    remainder: None,
                    superseded_snapshots: 0,
                },
            ),
        };
        let (snapshot, remainder) = match self.read_private_view(
            &self.views[at].changes,
            view.as_str(),
        ) {
            Ok(contents) => contents,
            Err(error) => return Err(error),
        };
        let superseded_snapshots: usize = match snapshot {
            None => 0,
            Some(head) => match self.superseded_chain(head) {
                Ok(chain) => chain.len(),
                Err(error) => return Err(error),
            },
        };
        Ok(SnapshotStatus { view, baseline_view, snapshot, remainder, superseded_snapshots })
    }
}

/// Whether a log holds a change.
pub open spec fn logged(repo: Repository, changes: Seq<NodeId>, hash: ContentHash) -> bool {
    exists|i: int|
        0 <= i < changes.len() && repo.pristine@.external(#[trigger] changes[i]) == Some(hash)
}

/// Whether any view holds a change.
pub open spec fn held(repo: Repository, hash: ContentHash) -> bool {
    exists|v: int|
        0 <= v < repo.views@.len() && logged(repo, (#[trigger] repo.views@[v]).changes@, hash)
}

/// The members of `chain` before the `n`-th that no view holds, from the
/// `keep`-th on.
pub open spec fn unheld(repo: Repository, chain: Seq<ContentHash>, keep: int, n: int) -> Seq<
    ContentHash,
>
    decreases n,
{
    if n <= 0 {
        Seq::empty()
    } else {
        let rest = unheld(repo, chain, keep, n - 1);
        if n - 1 >= keep && !held(repo, chain[n - 1]) {
            rest.push(chain[n - 1])
        } else {
            rest
        }
    }
}

/// The first change of a chain that is not stored.
pub open spec fn first_unloaded(repo: Repository, chain: Seq<ContentHash>, i: int) -> Option<
    ContentHash,
>
    decreases chain.len() - i,
{
    if i < 0 || i >= chain.len() {
        None
    } else if repo.change_at(chain[i]) is None {
        Some(chain[i])
    } else {
        first_unloaded(repo, chain, i + 1)
    }
}

/// Whether an outcome follows from a chain: the latest stay, and of the rest
/// those go that no view holds.
pub open spec fn is_retention(
    repo: Repository,
    chain: Seq<ContentHash>,
    policy: SnapshotRetentionPolicy,
    outcome: SnapshotRetentionOutcome,
) -> bool {
    &&& outcome.retained@ == (if policy.keep_superseded < chain.len() {
        chain.take(policy.keep_superseded as int)
    } else {
        chain
    })
    &&& outcome.deleted@ == unheld(repo, chain, policy.keep_superseded as int, chain.len() as int)
}

/// Whether an answer to a retention request is the right one.
pub open spec fn is_pruning(
    repo: Repository,
    id: Seq<char>,
    policy: SnapshotRetentionPolicy,
    found: Result<SnapshotRetentionOutcome, RepositoryError>,
) -> bool {
    match private_read(repo, id) {
        Err(fault) => found matches Err(error) && reports(error, fault),
        Ok((_, None, _)) => found matches Ok(outcome) && outcome.retained@.len() == 0
            && outcome.deleted@.len() == 0,
        Ok((_, Some(head), _)) => (exists|chain: Seq<ContentHash>|
            {
                &&& #[trigger] is_chain(repo, head, chain)
                &&& match first_unloaded(repo, chain, 0) {
                    Some(hash) => found matches Err(error) && reports(
                        error,
                        SnapshotFault::Unknown { hash },
                    ),
                    None => found matches Ok(outcome) && is_retention(repo, chain, policy, outcome),
                }
            }) || exists|hash: ContentHash|
            turns_back_at(repo, head, hash) && (found matches Err(error) && reports(
                error,
                SnapshotFault::Refused { refusal: SnapshotRefusal::SupersedesCycle { hash } },
            )),
    }
}

impl Repository {
    /// Whether any view holds a change.
    fn is_held(&self, hash: ContentHash) -> (answer: bool)
        ensures
            answer == held(*self, hash),
    {
        let mut v: usize = 0;
        while v < self.views.len()
            invariant
                v <= self.views.len(),
                forall|u: int|
                    0 <= u < v ==> !logged(*self, (#[trigger] self.views@[u]).changes@, hash),
            decreases self.views.len() - v,
        {
            let changes: &Vec<NodeId> = &self.views[v].changes;
            let mut i: usize = 0;
            while i < changes.len()
                invariant
                    v < self.views.len(),
                    changes@ == self.views@[v as int].changes@,
                    i <= changes.len(),
                    forall|j: int|
                        0 <= j < i ==> self.pristine@.external(#[trigger] changes@[j]) != Some(hash),
                decreases changes.len() - i,
            {
                if let Some(found) = self.pristine.get_external(changes[i]) {
                    if found == hash {
                        assert(logged(*self, self.views@[v as int].changes@, hash));
                        return true;
                    }
                }
                i = i + 1;
            }
            v = v + 1;
        }
        false
    }

    /// Splits what a snapshot supersedes.
    fn split_chain(&self, chain: &Vec<ContentHash>, policy: SnapshotRetentionPolicy) -> (outcome:
        SnapshotRetentionOutcome)
        ensures
            is_retention(*self, chain@, policy, outcome),
    {
        let mut retained: Vec<ContentHash> = Vec::new();
        let mut deleted: Vec<ContentHash> = Vec::new();
        let mut i: usize = 0;
        while i < chain.len()
            invariant
                i <= chain.len(),
                retained@ == chain@.take(if policy.keep_superseded < i {
                    policy.keep_superseded as int
                } else {
                    i as int
                }),
                deleted@ == unheld(*self, chain@, policy.keep_superseded as int, i as int),
            decreases chain.len() - i,
        {
            if i < policy.keep_superseded {
                retained.push(chain[i]);
                assert(retained@ =~= chain@.take(i + 1));
            } else if !self.is_held(chain[i]) {
                deleted.push(chain[i]);
            }
            i = i + 1;
        }
        proof {
            assert(chain@.take(chain@.len() as int) =~= chain@);
        }
        SnapshotRetentionOutcome { retained, deleted }
    }

    /// Which superseded snapshots a retention policy keeps and which it
    /// deletes.
    pub fn prune_superseded_snapshots(
        &self,
        working_copy: &WorkingCopyId,
        policy: SnapshotRetentionPolicy,
    ) -> (found: Result<SnapshotRetentionOutcome, RepositoryError>)
        ensures
            is_pruning(*self, working_copy@, policy, found),
    {
        let status: SnapshotStatus = match self.snapshot_status(working_copy) {
            Ok(status) => status,
            Err(error) => return Err(error),
        };
        let head: ContentHash = match status.snapshot {
            Some(head) => head,
            None => return Ok(SnapshotRetentionOutcome::default()),
        };
        let chain: Vec<ContentHash> = match self.superseded_chain(head) {
            Ok(chain) => chain,
            Err(error) => return Err(error),
        };
        let mut i: usize = 0;
        while i < chain.len()
            invariant
                i <= chain.len(),
                private_read(*self, working_copy@) matches Ok((_, Some(h), _)) && h == head,
                is_chain(*self, head, chain@),
                first_unloaded(*self, chain@, 0) == first_unloaded(*self, chain@, i as int),
            decreases chain.len() - i,
        {
            if self.find_change(chain[i]).is_none() {
                return Err(RepositoryError::ChangeNotFound { hash: ChangeName::Hash(chain[i]) });
            }
            i = i + 1;
        }
        Ok(self.split_chain(&chain, policy))
    }
}

/// Retention deletes nothing that a view holds and nothing among the latest
/// snapshots: what stays and what goes are distinct, and all of both was
/// superseded.
pub proof fn retention_spares_held_and_recent(
    repo: Repository,
    head: ContentHash,
    chain: Seq<ContentHash>,
    policy: SnapshotRetentionPolicy,
    outcome: SnapshotRetentionOutcome,
)
    requires
        is_chain(repo, head, chain),
        is_retention(repo, chain, policy, outcome),
    ensures
        forall|i: int|
            0 <= i < outcome.deleted@.len() ==> !held(repo, #[trigger] outcome.deleted@[i])
                && !outcome.retained@.contains(outcome.deleted@[i]) && chain.contains(
                outcome.deleted@[i],
            ),
        outcome.retained@.len() <= policy.keep_superseded,
        outcome.retained@.is_prefix_of(chain),
        forall|i: int|
            policy.keep_superseded <= i < chain.len() && !held(repo, #[trigger] chain[i])
                ==> outcome.deleted@.contains(chain[i]),
{
    unheld_members(repo, chain, policy.keep_superseded as int, chain.len() as int);
}

/// What [`unheld`] holds.
proof fn unheld_members(repo: Repository, chain: Seq<ContentHash>, keep: int, n: int)
    requires
        0 <= n <= chain.len(),
        0 <= keep,
        chain.no_duplicates(),
    ensures
        forall|i: int|
            0 <= i < unheld(repo, chain, keep, n).len() ==> !held(
                repo,
                #[trigger] unheld(repo, chain, keep, n)[i],
            ) && exists|k: int| keep <= k < n && chain[k] == unheld(repo, chain, keep, n)[i],
        forall|k: int|
            keep <= k < n && !held(repo, #[trigger] chain[k]) ==> unheld(
                repo,
                chain,
                keep,
                n,
            ).contains(chain[k]),
    decreases n,
{
    if n > 0 {
        unheld_members(repo, chain, keep, n - 1);
        let rest = unheld(repo, chain, keep, n - 1);
        let all = unheld(repo, chain, keep, n);
        assert forall|i: int| 0 <= i < all.len() implies !held(repo, #[trigger] all[i]) && exists|
            k: int,
        | keep <= k < n && chain[k] == all[i] by {
            if i < rest.len() {
                assert(all[i] == rest[i]);
                let k: int = choose|k: int| keep <= k < n - 1 && chain[k] == rest[i];
                assert(keep <= k < n && chain[k] == all[i]);
            } else {
                assert(chain[n - 1] == all[i]);
            }
        }
        assert forall|k: int| keep <= k < n && !held(repo, #[trigger] chain[k]) implies all.contains(
            chain[k],
        ) by {
            if k < n - 1 {
                let i: int = choose|i: int| 0 <= i < rest.len() && rest[i] == chain[k];
                assert(all[i] == chain[k]);
            } else {
                assert(all[rest.len() as int] == chain[k]);
            }
        }
    }
}

/// The file of a stored change.
#[derive(Debug)]
pub struct ChangeFile {
    pub path: String,
    /// Its mode, file type bits included.
    pub mode: u32,
    pub content: ContentHash,
}

/// The effect that deletes the `i`-th file, which lies at `path` below the
/// root.
pub open spec fn deletion(file: ChangeFile, path: Seq<char>, i: int) -> PlanModel {
    PlanModel {
        ordinal: i as u32,
        target: TargetModel::FilesystemPath { path: paths::forward_slashes(path) },
        expected_old: ValueModel::File(
            FileState {
                kind: FileKind::Regular,
                mode: file.mode & 0o7777,
                content: file.content,
            },
        ),
        expected_new: ValueModel::Absent,
    }
}

/// The effects that delete the first `n` files, or none if one of them lies
/// outside the root.
pub open spec fn deletions(files: Seq<ChangeFile>, root: Seq<char>, n: int) -> Option<Seq<PlanModel>>
    decreases n,
{
    if n <= 0 {
        Some(Seq::empty())
    } else {
        match (deletions(files, root, n - 1), paths::relative_to(files[n - 1].path@, root)) {
            (Some(rest), Some(path)) => Some(rest.push(deletion(files[n - 1], path, n - 1))),
            _ => None,
        }
    }
}

/// Files outside the root stay outside.
proof fn outside_stays(files: Seq<ChangeFile>, root: Seq<char>, n: int, m: int)
    requires
        0 <= n <= m,
        deletions(files, root, n) is None,
    ensures
        deletions(files, root, m) is None,
    decreases m,
{
    if n < m {
        outside_stays(files, root, n, m - 1);
    }
}

impl Repository {
    /// The leased effects that delete the files of pruned snapshots, in their
    /// order.
    pub fn retention_effects(&self, files: &Vec<ChangeFile>) -> (planned: Result<
        Vec<EffectPlan>,
        RepositoryError,
    >)
        requires
            files@.len() <= u32::MAX,
        ensures
            match deletions(files@, self.root@, files@.len() as int) {
                Some(plans) => planned matches Ok(effects) && effects::plan_models(effects@)
                    == plans,
                None => planned matches Err(error) && error.says("prefix not found"@),
            },
    {
        let mut effects: Vec<EffectPlan> = Vec::new();
        let mut i: usize = 0;
        proof {
            assert(effects::plan_models(effects@) =~= Seq::<PlanModel>::empty());
        }
        while i < files.len()
            invariant
                i <= files.len() <= u32::MAX,
                deletions(files@, self.root@, i as int) == Some(effects::plan_models(effects@)),
            decreases files.len() - i,
        {
            let ghost before = effects::plan_models(effects@);
            let path: String = match paths::strip_root(files[i].path.as_str(), self.root.as_str()) {
                Some(path) => path,
                None => {
                    proof {
                        outside_stays(files@, self.root@, i + 1, files@.len() as int);
                    }
                    return Err(error::invalid("prefix not found"));
                },
            };
            effects.push(
                EffectPlan {
                    ordinal: i as u32,
                    target: EffectTarget::FilesystemPath {
                        path: paths::to_forward_slashes(path.as_str()),
                    },
                    expected_old: EffectValue::File(
                        FileState {
                            kind: FileKind::Regular,
                            mode: files[i].mode & 0o7777,
                            content: files[i].content,
                        },
                    ),
                    expected_new: EffectValue::Absent,
                },
            );
            assert(effects::plan_models(effects@) =~= before.push(
                deletion(files@[i as int], path@, i as int),
            ));
            i = i + 1;
        }
        Ok(effects)
    }
}

/// Why a change with this owner may not enter a view.
pub open spec fn entry_fault(repo: Repository, name: Seq<char>, owner: Option<Seq<char>>) -> Option<
    SnapshotFault,
> {
    match repo.view_at(name) {
        None => Some(SnapshotFault::NoView { name }),
        Some(v) => match owner {
            None => None,
            Some(id) => if repo.views@[v].scope == ViewScope::Shared {
                Some(
                    SnapshotFault::Says {
                        message: about_view(
                            "snapshot changes cannot enter Shared view '"@,
                            name,
                            "'"@,
                        ),
                    },
                )
            } else if name != private_view(id) {
                Some(
                    SnapshotFault::Says {
                        message: "snapshot owned by working copy "@ + id
                            + " can only enter private view '"@ + private_view(id) + "'"@,
                    },
                )
            } else {
                None
            },
        },
    }
}

impl Repository {
    /// Checks that a change of this kind may enter a view: a snapshot only
    /// ever enters the private view of its owner, and no shared view.
    pub fn ensure_change_allowed_in_view(&self, view_name: &str, kind: &ChangeKind) -> (checked: Result<
        (),
        RepositoryError,
    >)
        ensures
            match entry_fault(*self, view_name@, kind.owner()) {
                None => checked is Ok,
                Some(fault) => checked matches Err(error) && reports(error, fault),
            },
    {
        let at: usize = match self.find_view(view_name) {
            Some(at) => at,
            None => return Err(RepositoryError::ViewNotFound { name: view_name.to_owned() }),
        };
        let owner: WorkingCopyId = match owner_of(kind) {
            Some(owner) => owner,
            None => return Ok(()),
        };
        if self.views[at].scope == ViewScope::Shared {
            return Err(
                invalid_view("snapshot changes cannot enter Shared view '", view_name, "'"),
            );
        }
        let own: String = Self::snapshot_view_name(&owner);
        if !text::same(view_name, own.as_str()) {
            let mut message: String = "snapshot owned by working copy ".to_owned();
            message.append(owner.text.as_str());
            message.append(" can only enter private view '");
            message.append(own.as_str());
            message.append("'");
            return Err(error::invalid(message.as_str()));
        }
        Ok(())
    }
}

/// Why a view with this log may not become shared: the first change, from the
/// `i`-th on, that is a snapshot or cannot be read.
pub open spec fn sharing_fault(repo: Repository, changes: Seq<NodeId>, i: int) -> Option<
    SnapshotFault,
>
    decreases changes.len() - i,
{
    if i < 0 || i >= changes.len() {
        None
    } else {
        match repo.pristine@.external(changes[i]) {
            None => Some(SnapshotFault::Unnamed { change: changes[i] }),
            Some(hash) => match repo.change_at(hash) {
                None => Some(SnapshotFault::Unknown { hash }),
                Some(c) => if repo.changes@[c].kind.owner() is Some {
                    Some(SnapshotFault::Refused { refusal: SnapshotRefusal::HeldByView { hash } })
                } else {
                    sharing_fault(repo, changes, i + 1)
                },
            },
        }
    }
}

impl Repository {
    /// Checks that a view holds no snapshot, so that it may become shared.
    pub fn ensure_view_has_no_snapshots(&self, view: &ViewState) -> (checked: Result<
        (),
        RepositoryError,
    >)
        ensures
            match sharing_fault(*self, view.changes@, 0) {
                None => checked is Ok,
                Some(fault) => checked matches Err(error) && reports(error, fault),
            },
    {
        let mut i: usize = 0;
        while i < view.changes.len()
            invariant
                i <= view.changes.len(),
                sharing_fault(*self, view.changes@, 0) == sharing_fault(
                    *self,
                    view.changes@,
                    i as int,
                ),
            decreases view.changes.len() - i,
        {
            let hash: ContentHash = match self.pristine.get_external(view.changes[i]) {
                Some(hash) => hash,
                None => return Err(unnamed(view.changes[i])),
            };
            match self.find_change(hash) {
                None => return Err(RepositoryError::ChangeNotFound { hash: ChangeName::Hash(hash) }),
                Some(c) => {
                    if self.changes[c].kind.is_snapshot() {
                        return Err(refused(SnapshotRefusal::HeldByView { hash }));
                    }
                },
            }
            i = i + 1;
        }
        Ok(())
    }
}

/// Whether a change is stored and is no snapshot.
pub open spec fn durable(repo: Repository, hash: ContentHash) -> bool {
    repo.change_at(hash) matches Some(i) && repo.changes@[i].kind.owner() is None
}

/// The dependencies of a stored change.
pub open spec fn dependencies(repo: Repository, hash: ContentHash) -> Seq<ContentHash> {
    match repo.change_at(hash) {
        Some(i) => repo.changes@[i].dependencies@,
        None => Seq::empty(),
    }
}

/// Whether each change of `path` after the first is a dependency of the one
/// before it.
pub open spec fn is_dependency_path(repo: Repository, path: Seq<ContentHash>) -> bool {
    forall|i: int|
        0 < i < path.len() ==> dependencies(repo, path[i - 1]).contains(#[trigger] path[i])
}

/// Whether `root` depends on `hash`, through any number of changes; every
/// change depends on itself.
pub open spec fn reaches(repo: Repository, root: ContentHash, hash: ContentHash) -> bool {
    exists|path: Seq<ContentHash>| #[trigger]
        is_dependency_path(repo, path) && path.len() > 0 && path[0] == root && path.last() == hash
}

/// How far a walk over dependencies has come.
pub ghost struct Walk {
    pub pending: Seq<ContentHash>,
    pub seen: Seq<ContentHash>,
}

/// Takes the last pending change: one that was not seen yet must be durable,
/// and its dependencies become pending.
pub open spec fn walk_step(repo: Repository, walk: Walk) -> Result<Walk, SnapshotFault> {
    let hash = walk.pending.last();
    let rest = walk.pending.drop_last();
    if walk.seen.contains(hash) {
        Ok(Walk { pending: rest, seen: walk.seen })
    } else {
        match repo.change_at(hash) {
            None => Err(SnapshotFault::Unknown { hash }),
            Some(i) => if repo.changes@[i].kind.owner() is Some {
                Err(SnapshotFault::Refused { refusal: SnapshotRefusal::Private { hash } })
            } else {
                Ok(Walk { pending: rest + dependencies(repo, hash), seen: walk.seen.push(hash) })
            },
        }
    }
}

/// The walk from `root` after `n` steps.
pub open spec fn walked(repo: Repository, root: ContentHash, n: nat) -> Result<Walk, SnapshotFault>
    decreases n,
{
    if n == 0 {
        Ok(Walk { pending: seq![root], seen: Seq::empty() })
    } else {
        match walked(repo, root, (n - 1) as nat) {
            Err(fault) => Err(fault),
            Ok(walk) => if walk.pending.len() == 0 {
                Ok(walk)
            } else {
                walk_step(repo, walk)
            },
        }
    }
}

/// Whether a walk is on its way from `root`: what it has seen is durable and
/// leads to what it has seen or what is pending, and all of it is reached.
pub open spec fn on_its_way(repo: Repository, root: ContentHash, walk: Walk) -> bool {
    &&& walk.seen.contains(root) || walk.pending.contains(root)
    &&& forall|i: int| 0 <= i < walk.seen.len() ==> durable(repo, #[trigger] walk.seen[i])
    &&& forall|i: int, hash: ContentHash|
        0 <= i < walk.seen.len() && #[trigger] dependencies(repo, walk.seen[i]).contains(hash)
            ==> walk.seen.contains(hash) || walk.pending.contains(hash)
    &&& forall|i: int|
        0 <= i < walk.pending.len() ==> reaches(repo, root, #[trigger] walk.pending[i])
}

/// A dependency of what is reached is reached.
proof fn reaches_further(repo: Repository, root: ContentHash, hash: ContentHash, next: ContentHash)
    requires
        reaches(repo, root, hash),
        dependencies(repo, hash).contains(next),
    ensures
        reaches(repo, root, next),
{
    let path: Seq<ContentHash> = choose|path: Seq<ContentHash>| #[trigger]
        is_dependency_path(repo, path) && path.len() > 0 && path[0] == root && path.last() == hash;
    let longer = path.push(next);
    assert forall|i: int| 0 < i < longer.len() implies dependencies(repo, longer[i - 1]).contains(
        #[trigger] longer[i],
    ) by {
        if i < path.len() {
            assert(longer[i] == path[i]);
        }
    }
    assert(is_dependency_path(repo, longer));
    assert(longer.last() == next);
}

/// A step keeps a walk on its way.
proof fn step_stays_on_way(repo: Repository, root: ContentHash, walk: Walk)
    requires
        on_its_way(repo, root, walk),
        walk.pending.len() > 0,
        walk_step(repo, walk) is Ok,
    ensures
        on_its_way(repo, root, walk_step(repo, walk)->Ok_0),
{
    let hash = walk.pending.last();
    let rest = walk.pending.drop_last();
    let next = walk_step(repo, walk)->Ok_0;
    assert(walk.pending == rest.push(hash));
    assert(reaches(repo, root, walk.pending[walk.pending.len() - 1]));
    if walk.seen.contains(hash) {
        assert forall|x: ContentHash| walk.pending.contains(x) implies next.pending.contains(x)
            || next.seen.contains(x) by {
            let k: int = choose|k: int| 0 <= k < walk.pending.len() && walk.pending[k] == x;
            if k < rest.len() {
                assert(rest[k] == x);
            }
        }
        assert forall|i: int| 0 <= i < next.pending.len() implies reaches(
            repo,
            root,
            #[trigger] next.pending[i],
        ) by {
            assert(walk.pending[i] == next.pending[i]);
        }
    } else {
        let deps = dependencies(repo, hash);
        assert(next.seen[walk.seen.len() as int] == hash);
        assert forall|x: ContentHash| walk.seen.contains(x) implies next.seen.contains(x) by {
            let k: int = choose|k: int| 0 <= k < walk.seen.len() && walk.seen[k] == x;
            assert(next.seen[k] == x);
        }
        assert forall|x: ContentHash| walk.pending.contains(x) implies next.pending.contains(x)
            || next.seen.contains(x) by {
            let k: int = choose|k: int| 0 <= k < walk.pending.len() && walk.pending[k] == x;
            if k < rest.len() {
                assert(next.pending[k] == x);
            }
        }
        assert forall|x: ContentHash| deps.contains(x) implies next.pending.contains(x) by {
            let k: int = choose|k: int| 0 <= k < deps.len() && deps[k] == x;
            assert(next.pending[rest.len() + k] == x);
        }
        assert forall|i: int, x: ContentHash|
            0 <= i < next.seen.len() && #[trigger] dependencies(repo, next.seen[i]).contains(
                x,
            ) implies next.seen.contains(x) || next.pending.contains(x) by {
            if i < walk.seen.len() {
                assert(next.seen[i] == walk.seen[i]);
                assert(dependencies(repo, walk.seen[i]).contains(x));
            }
        }
        assert forall|i: int| 0 <= i < next.seen.len() implies durable(
            repo,
            #[trigger] next.seen[i],
        ) by {
            if i < walk.seen.len() {
                assert(next.seen[i] == walk.seen[i]);
            }
        }
        assert forall|i: int| 0 <= i < next.pending.len() implies reaches(
            repo,
            root,
            #[trigger] next.pending[i],
        ) by {
            if i < rest.len() {
                assert(walk.pending[i] == next.pending[i]);
            } else {
                assert(deps[i - rest.len()] == next.pending[i]);
                reaches_further(repo, root, hash, next.pending[i]);
            }
        }
    }
}

/// A walk with nothing pending has seen everything that is reached.
proof fn ended_walk_saw_all(repo: Repository, root: ContentHash, walk: Walk, path: Seq<ContentHash>)
    requires
        on_its_way(repo, root, walk),
        walk.pending.len() == 0,
        is_dependency_path(repo, path),
        path.len() > 0,
        path[0] == root,
    ensures
        walk.seen.contains(path.last()),
    decreases path.len(),
{
    if path.len() > 1 {
        let shorter = path.drop_last();
        assert forall|i: int| 0 < i < shorter.len() implies dependencies(
            repo,
            shorter[i - 1],
        ).contains(#[trigger] shorter[i]) by {
            assert(path[i] == shorter[i]);
        }
        ended_walk_saw_all(repo, root, walk, shorter);
        let k: int = choose|k: int| 0 <= k < walk.seen.len() && walk.seen[k] == shorter.last();
        assert(path[path.len() - 1] == path.last());
        assert(dependencies(repo, walk.seen[k]).contains(path.last()));
    }
}

impl Repository {
    /// Checks that a change and everything it depends on may leave this
    /// repository, which a private snapshot may not.
    pub fn ensure_exchangeable_change(&self, root: ContentHash) -> (checked: Result<
        (),
        RepositoryError,
    >)
        ensures
            checked is Ok <==> forall|hash: ContentHash|
                reaches(*self, root, hash) ==> durable(*self, hash),
            checked matches Err(error) ==> exists|n: nat|
                (#[trigger] walked(*self, root, n)) matches Err(fault) && reports(error, fault),
    {
        let mut pending: Vec<ContentHash> = Vec::new();
        pending.push(root);
        let mut seen: Vec<ContentHash> = Vec::new();
        let ghost stored = stored_hashes(self.changes@);
        let ghost mut steps: nat = 0;
        proof {
            let path = seq![root];
            assert(is_dependency_path(*self, path));
            assert(path.last() == root);
            assert(pending@ =~= seq![root]);
            assert(pending@[0] == root);
        }
        while pending.len() > 0
            invariant
                stored == stored_hashes(self.changes@),
                walked(*self, root, steps) == Ok::<Walk, SnapshotFault>(
                    Walk { pending: pending@, seen: seen@ },
                ),
                on_its_way(*self, root, Walk { pending: pending@, seen: seen@ }),
                seen@.no_duplicates(),
                forall|i: int| 0 <= i < seen@.len() ==> stored.contains(#[trigger] seen@[i]),
            decreases stored.len() - seen@.len(), pending@.len(),
        {
            let ghost walk = Walk { pending: pending@, seen: seen@ };
            proof {
                no_more_than(seen@, stored);
                steps = steps + 1;
                assert(walked(*self, root, steps) == walk_step(*self, walk));
                assert(reaches(*self, root, walk.pending[walk.pending.len() - 1]));
            }
            let hash: ContentHash = match pending.pop() {
                Some(hash) => hash,
                None => root,
            };
            if !collections::contains(&seen, hash) {
                let at: usize = match self.find_change(hash) {
                    Some(at) => at,
                    None => {
                        proof {
                            assert(reaches(*self, root, hash) && !durable(*self, hash));
                        }
                        return Err(RepositoryError::ChangeNotFound { hash: ChangeName::Hash(hash) });
                    },
                };
                if self.changes[at].kind.is_snapshot() {
                    proof {
                        assert(reaches(*self, root, hash) && !durable(*self, hash));
                    }
                    return Err(refused(SnapshotRefusal::Private { hash }));
                }
                let ghost before = seen@;
                seen.push(hash);
                proof {
                    found_is_stored(self.changes@, hash, 0);
                    assert forall|i: int| 0 <= i < seen@.len() implies stored.contains(
                        #[trigger] seen@[i],
                    ) by {
                        if i < before.len() {
                            assert(seen@[i] == before[i]);
                        }
                    }
                    no_more_than(seen@, stored);
                }
                let both: Vec<ContentHash> = collections::joined(
                    &pending,
                    &self.changes[at].dependencies,
                );
                pending = both;
            }
            proof {
                step_stays_on_way(*self, root, walk);
            }
        }
        proof {
            assert forall|hash: ContentHash| reaches(*self, root, hash) implies durable(
                *self,
                hash,
            ) by {
                let path: Seq<ContentHash> = choose|path: Seq<ContentHash>| #[trigger]
                    is_dependency_path(*self, path) && path.len() > 0 && path[0] == root
                        && path.last() == hash;
                let walk = Walk { pending: pending@, seen: seen@ };
                ended_walk_saw_all(*self, root, walk, path);
                let k: int = choose|k: int| 0 <= k < walk.seen.len() && walk.seen[k] == hash;
                assert(durable(*self, walk.seen[k]));
            }
        }
        Ok(())
    }
}

/// A snapshot that may enter a view enters the private view of its owner,
/// which is a draft.
pub proof fn snapshots_stay_private(repo: Repository, name: Seq<char>, id: Seq<char>)
    requires
        entry_fault(repo, name, Some(id)) is None,
    ensures
        name == private_view(id),
        repo.view_at(name) matches Some(v) && repo.views@[v].scope == ViewScope::Draft,
{
}

/// A view that may become shared holds durable changes only.
pub proof fn shareable_views_are_durable(repo: Repository, changes: Seq<NodeId>)
    requires
        sharing_fault(repo, changes, 0) is None,
    ensures
        forall|i: int|
            0 <= i < changes.len() ==> (repo.pristine@.external(#[trigger] changes[i]) matches Some(
                hash,
            ) && durable(repo, hash)),
{
    assert forall|i: int| 0 <= i < changes.len() implies (repo.pristine@.external(
        #[trigger] changes[i],
    ) matches Some(hash) && durable(repo, hash)) by {
        shareable_up_to(repo, changes, i, 0);
    }
}

/// The `i`-th change of a shareable log is durable.
proof fn shareable_up_to(repo: Repository, changes: Seq<NodeId>, i: int, from: int)
    requires
        0 <= from <= i < changes.len(),
        sharing_fault(repo, changes, from) is None,
    ensures
        repo.pristine@.external(changes[i]) matches Some(hash) && durable(repo, hash),
    decreases i - from,
{
    if from < i {
        shareable_up_to(repo, changes, i, from + 1);
    }
}

} // verus!
