//! What can go wrong, and what it says.

use crate::deferred_tree::TreeRefusal;
use crate::effects::OperationRefusal;
use crate::native_roots::{NativeFault, NativeRefusal, PathRefusal, PathRefusalModel};
use crate::native_tables;
use crate::text;
use crate::types::{ContentHash, WorkingCopyId};
use vstd::prelude::*;

verus! {

/// A cross-process lock participating in the repository operation hierarchy.
#[derive(Debug)]
pub enum RepositoryLockKind {
    /// Repository-common refs, bindings, and operation state.
    Common,
    /// Index and materialization state for one persistent working copy.
    WorkingCopy { id: WorkingCopyId },
    /// Shelved filesystem state for one persistent working copy.
    Shelf { id: WorkingCopyId },
    /// Repository-common deferred TREE journal and alignment state.
    DeferredTree,
}

impl RepositoryLockKind {
    /// The text of [`RepositoryLockKind::message`].
    pub open spec fn text(self) -> Seq<char> {
        match self {
            RepositoryLockKind::Common => "common repository operation lock"@,
            RepositoryLockKind::WorkingCopy { id } => "working-copy operation lock for "@ + id@,
            RepositoryLockKind::Shelf { id } => "working-copy shelf lock for "@ + id@,
            RepositoryLockKind::DeferredTree => "deferred-tree operation lock"@,
        }
    }

    /// Names the lock.
    pub fn message(&self) -> (message: String)
        ensures
            message@ == self.text(),
    {
        match self {
            RepositoryLockKind::Common => "common repository operation lock".to_owned(),
            RepositoryLockKind::WorkingCopy { id } => {
                let mut m: String = "working-copy operation lock for ".to_owned();
                m.append(id.text.as_str());
                m
            },
            RepositoryLockKind::Shelf { id } => {
                let mut m: String = "working-copy shelf lock for ".to_owned();
                m.append(id.text.as_str());
                m
            },
            RepositoryLockKind::DeferredTree => "deferred-tree operation lock".to_owned(),
        }
    }
}

/// Why an operation is invalid.
#[derive(Debug)]
pub enum Refusal {
    /// In so many words.
    Message(String),
    /// Tree metadata cannot be projected.
    Tree(TreeRefusal),
    /// An operation or its recovery is refused.
    Operation(OperationRefusal),
    /// Native indexes cannot be rebuilt.
    Native(NativeRefusal),
    /// A snapshot may not be treated so.
    Snapshot(SnapshotRefusal),
    /// A provenance object does not explain a change.
    Unexplained { provenance: ContentHash, change: ContentHash },
}

/// Why a snapshot may not be treated so.
#[derive(Clone, Copy, Debug, PartialEq, Eq, Structural)]
pub enum SnapshotRefusal {
    /// A chain of superseded snapshots comes back to this one.
    SupersedesCycle { hash: ContentHash },
    /// A private view holds the snapshot of another working copy.
    NotOwned { hash: ContentHash },
    /// The working copy no longer matches the snapshot to promote.
    Stale { hash: ContentHash },
    /// A private snapshot cannot be exchanged.
    Private { hash: ContentHash },
    /// A view that holds a private snapshot cannot become shared.
    HeldByView { hash: ContentHash },
}

impl Refusal {
    /// The text of [`Refusal::message`].
    pub open spec fn text(self) -> Seq<char> {
        match self {
            Refusal::Message(message) => message@,
            Refusal::Tree(refusal) => tree_text(refusal),
            Refusal::Operation(refusal) => operation_text(refusal),
            Refusal::Native(refusal) => native_text(refusal),
            Refusal::Snapshot(refusal) => snapshot_text(refusal),
            Refusal::Unexplained { .. } => "provenance does not explain change"@,
        }
    }

    /// What was refused; identifiers are left to the caller to render.
    pub fn message(&self) -> (message: String)
        ensures
            message@ == self.text(),
    {
        match self {
            Refusal::Message(message) => message.clone(),
            Refusal::Tree(refusal) => tree_message(*refusal),
            Refusal::Operation(refusal) => operation_message(*refusal),
            Refusal::Native(refusal) => native_message(*refusal),
            Refusal::Snapshot(refusal) => snapshot_message(*refusal),
            Refusal::Unexplained { .. } => "provenance does not explain change".to_owned(),
        }
    }
}

/// Why a repository's structure is invalid.
#[derive(Debug)]
pub enum InvalidReason {
    /// In so many words.
    Message(String),
    /// A working copy expects its view at another state than it has; the
    /// states' names are left to the caller to render.
    DesiredState { id: WorkingCopyId, view: String, expected: ContentHash, actual: ContentHash },
}

impl InvalidReason {
    /// The text of [`InvalidReason::message`].
    pub open spec fn text(self) -> Seq<char> {
        match self {
            InvalidReason::Message(message) => message@,
            InvalidReason::DesiredState { id, view, .. } => "working-copy "@ + id@
                + " expects view '"@ + view@ + "' at another state"@,
        }
    }

    /// What is invalid.
    pub fn message(&self) -> (message: String)
        ensures
            message@ == self.text(),
    {
        match self {
            InvalidReason::Message(message) => message.clone(),
            InvalidReason::DesiredState { id, view, .. } => {
                let mut m: String = "working-copy ".to_owned();
                m.append(id.text.as_str());
                m.append(" expects view '");
                m.append(view.as_str());
                m.append("' at another state");
                m
            },
        }
    }
}

/// What a change is called.
#[derive(Debug)]
pub enum ChangeName {
    /// By a text.
    Text(String),
    /// By its hash, whose text is left to the caller to render.
    Hash(ContentHash),
}

/// Errors of repository operations.
#[derive(Debug)]
#[allow(inconsistent_fields)]
pub enum RepositoryError {
    /// Repository not found at the specified path.
    NotFound { path: String },
    /// Repository already exists at the specified path.
    AlreadyExists { path: String },
    /// Not inside a repository.
    NotInRepository,
    /// Invalid repository structure.
    InvalidRepository { reason: InvalidReason },
    /// View not found.
    ViewNotFound { name: String },
    /// View already exists.
    ViewAlreadyExists { name: String },
    /// Cannot delete the current view.
    CannotDeleteCurrentView { name: String },
    /// A change requested for a split is not in the source view's own log.
    ChangeNotInView { hash: String, view: String },
    /// Changes left behind still depend on the ones being split.
    ViewSplitHasDependents { view: String, blocking: Vec<String> },
    /// Working copy has uncommitted changes.
    UncommittedChanges,
    /// Persistent working-copy identity must be initialized by a writable open.
    WorkingCopyMigrationRequired { path: String, reason: String },
    /// A nonempty working-copy identity is corrupt.
    MalformedWorkingCopyIdentity { path: String, reason: String },
    /// The operation requires a registered physical working copy.
    WorkingCopyRequired,
    /// No persistent record exists for a working-copy identity.
    WorkingCopyRecordNotFound { id: WorkingCopyId },
    /// The supplied identity does not identify this working directory.
    WorkingCopyIdentityMismatch { requested: WorkingCopyId, actual: WorkingCopyId },
    /// The persistent identity is bound to a different canonical location.
    WorkingCopyLocationMismatch { id: WorkingCopyId },
    /// File not found.
    FileNotFound { path: String },
    /// File not tracked.
    FileNotTracked { path: String },
    /// File already tracked.
    FileAlreadyTracked { path: String },
    /// Path is outside the repository.
    PathOutsideRepository { path: String },
    /// Path is ignored by ignore rules.
    PathIgnored { path: String },
    /// Invalid operation.
    InvalidOperation { refusal: Refusal },
    /// Change not found.
    ChangeNotFound { hash: ChangeName },
    /// Operation not found by full identity or prefix.
    OperationNotFound { selector: String },
    /// Ambiguous operation identity prefix.
    AmbiguousOperation { prefix: String, found: Vec<String> },
    /// An operation selector is malformed or too short.
    InvalidOperationSelector { selector: String, reason: String },
    /// Concurrent operation heads cannot be consolidated.
    OperationHeadsDiverged { scope: String, heads: Vec<String> },
    /// The selected operation has not completed verification.
    OperationNotVerified { operation: String },
    /// The selected operation is outside the scope's reachable history.
    OperationNotReachable { operation: String, scope: String },
    /// The selected operation cannot be inverted.
    OperationNotReversible { operation: String, kind: String, reason: String },
    /// Ambiguous hash prefix.
    AmbiguousHash { prefix: String, found: Vec<String> },
    /// Ambiguous intent prefix.
    AmbiguousIntent { prefix: String, found: Vec<String> },
    /// Change already applied.
    ChangeAlreadyApplied { hash: String },
    /// Missing dependency.
    MissingDependency { change: String, dependency: String },
    /// Merge conflict.
    MergeConflict { description: String },
    /// Apply error.
    Apply(String),
    /// Tag not found.
    TagNotFound { name: String },
    /// Tag already exists.
    TagAlreadyExists { name: String },
    /// Invalid tag name.
    InvalidTagName { name: String, reason: String },
    /// Archive error.
    Archive(String),
    /// Output error.
    Output(String),
    /// Unrecord error.
    Unrecord(String),
    /// An ordered operation lock is held by another process.
    LockContended { lock: RepositoryLockKind, path: String },
    /// Repository is locked by another process.
    Locked,
    /// Configuration error.
    Config(String),
    /// Remote not found.
    RemoteNotFound { name: String },
    /// No remotes configured.
    NoRemotesConfigured,
    /// Remote error.
    Remote(String),
    /// Core library error.
    Core(String),
    /// IO error.
    Io(String),
    /// Serialization error.
    Serialization(String),
    /// Database error.
    Database(String),
    /// Directory traversal error.
    WalkDir(String),
    /// View manifest structural error.
    Manifest(String),
    /// A manifest references change files not present locally.
    ManifestMissingChanges { view: String, count: u64, first: String },
    /// A manifest change has a dependency that is neither earlier nor local.
    ManifestDependencyMissing { view: String, change: String, dependency: String },
    /// The local view log is not a prefix of the manifest log.
    ManifestDiverged { view: String, at: u64 },
    /// The local view has another identity.
    ManifestIdentityMismatch { view: String, reason: String },
    /// The manifest's parent view does not exist locally.
    ManifestParentMissing { view: String, parent: String },
    /// The replayed view state is not the declared one.
    ManifestStateMismatch { view: String, declared: String, actual: String },
}

impl RepositoryError {
    /// Whether this is an invalid operation with exactly this message.
    pub open spec fn says(self, message: Seq<char>) -> bool {
        self matches RepositoryError::InvalidOperation { refusal: Refusal::Message(text) } && text@
            == message
    }

    /// The text of [`RepositoryError::message`].
    pub open spec fn text(self) -> Seq<char> {
        match self {
            RepositoryError::NotFound { path } => "Repository not found: "@ + path@,
            RepositoryError::AlreadyExists { path } => "Repository already exists at: "@ + path@,
            RepositoryError::NotInRepository => {
                "Not in a Atomic repository (or any parent up to root)"@
            },
            RepositoryError::InvalidRepository { reason } => "Invalid repository structure: "@
                + reason.text(),
            RepositoryError::ViewNotFound { name } => "View not found: "@ + name@,
            RepositoryError::ViewAlreadyExists { name } => "View already exists: "@ + name@,
            RepositoryError::CannotDeleteCurrentView { name } => "Cannot delete the current view '"@
                + name@ + "'"@,
            RepositoryError::ChangeNotInView { hash, view } => "Change "@ + hash@
                + " is not in view '"@ + view@ + "'"@,
            RepositoryError::ViewSplitHasDependents { view, blocking } => "cannot split: "@
                + text::numeral(blocking@.len()) + " change(s) remaining in '"@ + view@
                + "' still depend on the changes being split (use --cascade to move them too): "@
                + text::separated(text::texts(blocking@), ", "@),
            RepositoryError::UncommittedChanges => "Working copy has uncommitted changes"@,
            RepositoryError::WorkingCopyMigrationRequired { path, reason } => "working-copy identity at '"@
                + path@ + "' requires writable migration: "@ + reason@
                + "; rerun with a command that opens the repository for writing"@,
            RepositoryError::MalformedWorkingCopyIdentity { path, reason } => "malformed working-copy identity at '"@
                + path@ + "': "@ + reason@,
            RepositoryError::WorkingCopyRequired => {
                "this repository handle has no registered physical working copy"@
            },
            RepositoryError::WorkingCopyRecordNotFound { id } => "working-copy record not found: "@
                + id@,
            RepositoryError::WorkingCopyIdentityMismatch { requested, actual } => "working-copy identity mismatch: requested "@
                + requested@ + ", this directory uses "@ + actual@,
            RepositoryError::WorkingCopyLocationMismatch { id } => "working-copy identity "@ + id@
                + " is bound to a different canonical location"@,
            RepositoryError::FileNotFound { path } => "File not found: "@ + path@,
            RepositoryError::FileNotTracked { path } => "File not tracked: "@ + path@,
            RepositoryError::FileAlreadyTracked { path } => "File already tracked: "@ + path@,
            RepositoryError::PathOutsideRepository { path } => "Path is outside the repository: "@
                + path@,
            RepositoryError::PathIgnored { path } => "Path is ignored: "@ + path@,
            RepositoryError::InvalidOperation { refusal } => "Invalid operation: "@
                + refusal.text(),
            RepositoryError::ChangeNotFound { hash } => match hash {
                ChangeName::Text(name) => "Change not found: "@ + name@,
                ChangeName::Hash(_) => "Change not found"@,
            },
            RepositoryError::OperationNotFound { selector } => "Operation not found: "@ + selector@,
            RepositoryError::AmbiguousOperation { prefix, found } => "Ambiguous operation prefix '"@
                + prefix@ + "': matches "@ + text::separated(text::texts(found@), ", "@),
            RepositoryError::InvalidOperationSelector { selector, reason } => "Invalid operation selector '"@
                + selector@ + "': "@ + reason@,
            RepositoryError::OperationHeadsDiverged { scope, heads } => "Operation scope '"@
                + scope@ + "' is Diverged: "@ + text::separated(text::texts(heads@), ", "@),
            RepositoryError::OperationNotVerified { operation } => "Operation "@ + operation@
                + " is not verified"@,
            RepositoryError::OperationNotReachable { operation, scope } => "Operation "@
                + operation@ + " is not reachable from scope '"@ + scope@ + "'"@,
            RepositoryError::OperationNotReversible { operation, kind, reason } => "Operation "@
                + operation@ + " ("@ + kind@ + ") is not reversible: "@ + reason@,
            RepositoryError::AmbiguousHash { prefix, found } => "Ambiguous hash prefix '"@
                + prefix@ + "': matches "@ + text::separated(text::texts(found@), ", "@),
            RepositoryError::AmbiguousIntent { prefix, found } => "Ambiguous intent reference '"@
                + prefix@ + "': matches "@ + text::separated(text::texts(found@), ", "@),
            RepositoryError::ChangeAlreadyApplied { hash } => "Change already applied: "@ + hash@,
            RepositoryError::MissingDependency { change, dependency } => "Missing dependency: change "@
                + change@ + " requires "@ + dependency@,
            RepositoryError::MergeConflict { description } => "Merge conflict: "@ + description@,
            RepositoryError::Apply(cause) => "Apply error: "@ + cause@,
            RepositoryError::TagNotFound { name } => "Tag not found: "@ + name@,
            RepositoryError::TagAlreadyExists { name } => "Tag already exists: "@ + name@,
            RepositoryError::InvalidTagName { name, reason } => "Invalid tag name '"@ + name@
                + "': "@ + reason@,
            RepositoryError::Archive(cause) => "Archive error: "@ + cause@,
            RepositoryError::Output(cause) => "Output error: "@ + cause@,
            RepositoryError::Unrecord(cause) => "Unrecord error: "@ + cause@,
            RepositoryError::LockContended { lock, path } => lock.text() + " at '"@ + path@
                + "' is held by another process; retry the operation"@,
            RepositoryError::Locked => "Repository is locked by another process"@,
            RepositoryError::Config(cause) => "Configuration error: "@ + cause@,
            RepositoryError::RemoteNotFound { name } => "Remote '"@ + name@ + "' not found"@,
            RepositoryError::NoRemotesConfigured => "No remotes configured"@,
            RepositoryError::Remote(cause) => "Remote error: "@ + cause@,
            RepositoryError::Core(cause) => "Core error: "@ + cause@,
            RepositoryError::Io(cause) => "IO error: "@ + cause@,
            RepositoryError::Serialization(cause) => "Serialization error: "@ + cause@,
            RepositoryError::Database(cause) => "Database error: "@ + cause@,
            RepositoryError::WalkDir(cause) => "Directory traversal error: "@ + cause@,
            RepositoryError::Manifest(cause) => "Manifest error: "@ + cause@,
            RepositoryError::ManifestMissingChanges { view, count, first } => "Manifest for view '"@
                + view@ + "' references "@ + text::numeral(count as nat)
                + " change(s) not present locally (first: "@ + first@ + ")"@,
            RepositoryError::ManifestDependencyMissing { view, change, dependency } => "Manifest for view '"@
                + view@ + "': change "@ + change@ + " depends on "@ + dependency@
                + ", which is neither earlier in the log nor present locally"@,
            RepositoryError::ManifestDiverged { view, at } => "View '"@ + view@
                + "' has diverged from the manifest (first mismatch at sequence "@
                + text::numeral(at as nat) + ")"@,
            RepositoryError::ManifestIdentityMismatch { view, reason } => "View '"@ + view@
                + "' identity mismatch: "@ + reason@,
            RepositoryError::ManifestParentMissing { view, parent } => "Manifest for view '"@
                + view@ + "' requires parent view '"@ + parent@ + "', which does not exist"@,
            RepositoryError::ManifestStateMismatch { view, declared, actual } => "View '"@ + view@
                + "' state mismatch after manifest apply: declared "@ + declared@ + ", got "@
                + actual@,
        }
    }

    /// Says what went wrong.
    pub fn message(&self) -> (message: String)
        ensures
            message@ == self.text(),
    {
        match self {
            RepositoryError::NotFound { path } => {
                let mut m: String = "Repository not found: ".to_owned();
                m.append(path.as_str());
                m
            },
            RepositoryError::AlreadyExists { path } => {
                let mut m: String = "Repository already exists at: ".to_owned();
                m.append(path.as_str());
                m
            },
            RepositoryError::NotInRepository => {
                "Not in a Atomic repository (or any parent up to root)".to_owned()
            },
            RepositoryError::InvalidRepository { reason } => {
                let mut m: String = "Invalid repository structure: ".to_owned();
                m.append(reason.message().as_str());
                m
            },
            RepositoryError::ViewNotFound { name } => {
                let mut m: String = "View not found: ".to_owned();
                m.append(name.as_str());
                m
            },
            RepositoryError::ViewAlreadyExists { name } => {
                let mut m: String = "View already exists: ".to_owned();
                m.append(name.as_str());
                m
            },
            RepositoryError::CannotDeleteCurrentView { name } => {
                let mut m: String = "Cannot delete the current view '".to_owned();
                m.append(name.as_str());
                m.append("'");
                m
            },
            RepositoryError::ChangeNotInView { hash, view } => {
                let mut m: String = "Change ".to_owned();
                m.append(hash.as_str());
                m.append(" is not in view '");
                m.append(view.as_str());
                m.append("'");
                m
            },
            RepositoryError::ViewSplitHasDependents { view, blocking } => {
                let mut m: String = "cannot split: ".to_owned();
                m.append(text::decimal(blocking.len() as u64).as_str());
                m.append(" change(s) remaining in '");
                m.append(view.as_str());
                m.append("' still depend on the changes being split (use --cascade to move them too): ");
                m.append(text::separate(blocking, ", ").as_str());
                m
            },
            RepositoryError::UncommittedChanges => {
                "Working copy has uncommitted changes".to_owned()
            },
            RepositoryError::WorkingCopyMigrationRequired { path, reason } => {
                let mut m: String = "working-copy identity at '".to_owned();
                m.append(path.as_str());
                m.append("' requires writable migration: ");
                m.append(reason.as_str());
                m.append("; rerun with a command that opens the repository for writing");
                m
            },
            RepositoryError::MalformedWorkingCopyIdentity { path, reason } => {
                let mut m: String = "malformed working-copy identity at '".to_owned();
                m.append(path.as_str());
                m.append("': ");
                m.append(reason.as_str());
                m
            },
            RepositoryError::WorkingCopyRequired => {
                "this repository handle has no registered physical working copy".to_owned()
            },
            RepositoryError::WorkingCopyRecordNotFound { id } => {
                let mut m: String = "working-copy record not found: ".to_owned();
                m.append(id.text.as_str());
                m
            },
            RepositoryError::WorkingCopyIdentityMismatch { requested, actual } => {
                let mut m: String = "working-copy identity mismatch: requested ".to_owned();
                m.append(requested.text.as_str());
                m.append(", this directory uses ");
                m.append(actual.text.as_str());
                m
            },
            RepositoryError::WorkingCopyLocationMismatch { id } => {
                let mut m: String = "working-copy identity ".to_owned();
                m.append(id.text.as_str());
                m.append(" is bound to a different canonical location");
                m
            },
            RepositoryError::FileNotFound { path } => {
                let mut m: String = "File not found: ".to_owned();
                m.append(path.as_str());
                m
            },
            RepositoryError::FileNotTracked { path } => {
                let mut m: String = "File not tracked: ".to_owned();
                m.append(path.as_str());
                m
            },
            RepositoryError::FileAlreadyTracked { path } => {
                let mut m: String = "File already tracked: ".to_owned();
                m.append(path.as_str());
                m
            },
            RepositoryError::PathOutsideRepository { path } => {
                let mut m: String = "Path is outside the repository: ".to_owned();
                m.append(path.as_str());
                m
            },
            RepositoryError::PathIgnored { path } => {
                let mut m: String = "Path is ignored: ".to_owned();
                m.append(path.as_str());
                m
            },
            RepositoryError::InvalidOperation { refusal } => {
                let mut m: String = "Invalid operation: ".to_owned();
                m.append(refusal.message().as_str());
                m
            },
            RepositoryError::ChangeNotFound { hash } => match hash {
                ChangeName::Text(name) => {
                    let mut m: String = "Change not found: ".to_owned();
                    m.append(name.as_str());
                    m
                },
                ChangeName::Hash(_) => "Change not found".to_owned(),
            },
            RepositoryError::OperationNotFound { selector } => {
                let mut m: String = "Operation not found: ".to_owned();
                m.append(selector.as_str());
                m
            },
            RepositoryError::AmbiguousOperation { prefix, found } => {
                let mut m: String = "Ambiguous operation prefix '".to_owned();
                m.append(prefix.as_str());
                m.append("': matches ");
                m.append(text::separate(found, ", ").as_str());
                m
            },
            RepositoryError::InvalidOperationSelector { selector, reason } => {
                let mut m: String = "Invalid operation selector '".to_owned();
                m.append(selector.as_str());
                m.append("': ");
                m.append(reason.as_str());
                m
            },
            RepositoryError::OperationHeadsDiverged { scope, heads } => {
                let mut m: String = "Operation scope '".to_owned();
                m.append(scope.as_str());
                m.append("' is Diverged: ");
                m.append(text::separate(heads, ", ").as_str());
                m
            },
            RepositoryError::OperationNotVerified { operation } => {
                let mut m: String = "Operation ".to_owned();
                m.append(operation.as_str());
                m.append(" is not verified");
                m
            },
            RepositoryError::OperationNotReachable { operation, scope } => {
                let mut m: String = "Operation ".to_owned();
                m.append(operation.as_str());
                m.append(" is not reachable from scope '");
                m.append(scope.as_str());
                m.append("'");
                m
            },
            RepositoryError::OperationNotReversible { operation, kind, reason } => {
                let mut m: String = "Operation ".to_owned();
                m.append(operation.as_str());
                m.append(" (");
                m.append(kind.as_str());
                m.append(") is not reversible: ");
                m.append(reason.as_str());
                m
            },
            RepositoryError::AmbiguousHash { prefix, found } => {
                let mut m: String = "Ambiguous hash prefix '".to_owned();
                m.append(prefix.as_str());
                m.append("': matches ");
                m.append(text::separate(found, ", ").as_str());
                m
            },
            RepositoryError::AmbiguousIntent { prefix, found } => {
                let mut m: String = "Ambiguous intent reference '".to_owned();
                m.append(prefix.as_str());
                m.append("': matches ");
                m.append(text::separate(found, ", ").as_str());
                m
            },
            RepositoryError::ChangeAlreadyApplied { hash } => {
                let mut m: String = "Change already applied: ".to_owned();
                m.append(hash.as_str());
                m
            },
            RepositoryError::MissingDependency { change, dependency } => {
                let mut m: String = "Missing dependency: change ".to_owned();
                m.append(change.as_str());
                m.append(" requires ");
                m.append(dependency.as_str());
                m
            },
            RepositoryError::MergeConflict { description } => {
                let mut m: String = "Merge conflict: ".to_owned();
                m.append(description.as_str());
                m
            },
            RepositoryError::Apply(cause) => {
                let mut m: String = "Apply error: ".to_owned();
                m.append(cause.as_str());
                m
            },
            RepositoryError::TagNotFound { name } => {
                let mut m: String = "Tag not found: ".to_owned();
                m.append(name.as_str());
                m
            },
            RepositoryError::TagAlreadyExists { name } => {
                let mut m: String = "Tag already exists: ".to_owned();
                m.append(name.as_str());
                m
            },
            RepositoryError::InvalidTagName { name, reason } => {
                let mut m: String = "Invalid tag name '".to_owned();
                m.append(name.as_str());
                m.append("': ");
                m.append(reason.as_str());
                m
            },
            RepositoryError::Archive(cause) => {
                let mut m: String = "Archive error: ".to_owned();
                m.append(cause.as_str());
                m
            },
            RepositoryError::Output(cause) => {
                let mut m: String = "Output error: ".to_owned();
                m.append(cause.as_str());
                m
            },
            RepositoryError::Unrecord(cause) => {
                let mut m: String = "Unrecord error: ".to_owned();
                m.append(cause.as_str());
                m
            },
            RepositoryError::LockContended { lock, path } => {
                let mut m: String = lock.message().as_str().to_owned();
                m.append(" at '");
                m.append(path.as_str());
                m.append("' is held by another process; retry the operation");
                m
            },
            RepositoryError::Locked => "Repository is locked by another process".to_owned(),
            RepositoryError::Config(cause) => {
                let mut m: String = "Configuration error: ".to_owned();
                m.append(cause.as_str());
                m
            },
            RepositoryError::RemoteNotFound { name } => {
                let mut m: String = "Remote '".to_owned();
                m.append(name.as_str());
                m.append("' not found");
                m
            },
            RepositoryError::NoRemotesConfigured => "No remotes configured".to_owned(),
            RepositoryError::Remote(cause) => {
                let mut m: String = "Remote error: ".to_owned();
                m.append(cause.as_str());
                m
            },
            RepositoryError::Core(cause) => {
                let mut m: String = "Core error: ".to_owned();
                m.append(cause.as_str());
                m
            },
            RepositoryError::Io(cause) => {
                let mut m: String = "IO error: ".to_owned();
                m.append(cause.as_str());
                m
            },
            RepositoryError::Serialization(cause) => {
                let mut m: String = "Serialization error: ".to_owned();
                m.append(cause.as_str());
                m
            },
            RepositoryError::Database(cause) => {
                let mut m: String = "Database error: ".to_owned();
                m.append(cause.as_str());
                m
            },
            RepositoryError::WalkDir(cause) => {
                let mut m: String = "Directory traversal error: ".to_owned();
                m.append(cause.as_str());
                m
            },
            RepositoryError::Manifest(cause) => {
                let mut m: String = "Manifest error: ".to_owned();
                m.append(cause.as_str());
                m
            },
            RepositoryError::ManifestMissingChanges { view, count, first } => {
                let mut m: String = "Manifest for view '".to_owned();
                m.append(view.as_str());
                m.append("' references ");
                m.append(text::decimal(*count).as_str());
                m.append(" change(s) not present locally (first: ");
                m.append(first.as_str());
                m.append(")");
                m
            },
            RepositoryError::ManifestDependencyMissing { view, change, dependency } => {
                let mut m: String = "Manifest for view '".to_owned();
                m.append(view.as_str());
                m.append("': change ");
                m.append(change.as_str());
                m.append(" depends on ");
                m.append(dependency.as_str());
                m.append(", which is neither earlier in the log nor present locally");
                m
            },
            RepositoryError::ManifestDiverged { view, at } => {
                let mut m: String = "View '".to_owned();
                m.append(view.as_str());
                m.append("' has diverged from the manifest (first mismatch at sequence ");
                m.append(text::decimal(*at).as_str());
                m.append(")");
                m
            },
            RepositoryError::ManifestIdentityMismatch { view, reason } => {
                let mut m: String = "View '".to_owned();
                m.append(view.as_str());
                m.append("' identity mismatch: ");
                m.append(reason.as_str());
                m
            },
            RepositoryError::ManifestParentMissing { view, parent } => {
                let mut m: String = "Manifest for view '".to_owned();
                m.append(view.as_str());
                m.append("' requires parent view '");
                m.append(parent.as_str());
                m.append("', which does not exist");
                m
            },
            RepositoryError::ManifestStateMismatch { view, declared, actual } => {
                let mut m: String = "View '".to_owned();
                m.append(view.as_str());
                m.append("' state mismatch after manifest apply: declared ");
                m.append(declared.as_str());
                m.append(", got ");
                m.append(actual.as_str());
                m
            },
        }
    }

    /// Whether retrying after the competing operation completes can succeed.
    pub fn is_lock_contended(&self) -> (answer: bool)
        ensures
            answer == (self is LockContended),
    {
        match self {
            RepositoryError::LockContended { .. } => true,
            _ => false,
        }
    }

    /// Whether the repository does not exist.
    pub fn is_not_found(&self) -> (answer: bool)
        ensures
            answer == (self is NotFound || self is NotInRepository),
    {
        match self {
            RepositoryError::NotFound { .. } => true,
            RepositoryError::NotInRepository => true,
            _ => false,
        }
    }

    /// Whether the user can recover by acting.
    pub fn is_user_fixable(&self) -> (answer: bool)
        ensures
            answer == (self is UncommittedChanges || self is WorkingCopyMigrationRequired
                || self is MalformedWorkingCopyIdentity || self is MergeConflict
                || self is FileNotTracked || self is MissingDependency || self is TagAlreadyExists
                || self is InvalidTagName || self is ViewAlreadyExists || self is ChangeNotInView
                || self is ViewSplitHasDependents),
    {
        match self {
            RepositoryError::UncommittedChanges => true,
            RepositoryError::WorkingCopyMigrationRequired { .. } => true,
            RepositoryError::MalformedWorkingCopyIdentity { .. } => true,
            RepositoryError::MergeConflict { .. } => true,
            RepositoryError::FileNotTracked { .. } => true,
            RepositoryError::MissingDependency { .. } => true,
            RepositoryError::TagAlreadyExists { .. } => true,
            RepositoryError::InvalidTagName { .. } => true,
            RepositoryError::ViewAlreadyExists { .. } => true,
            RepositoryError::ChangeNotInView { .. } => true,
            RepositoryError::ViewSplitHasDependents { .. } => true,
            _ => false,
        }
    }

    /// Whether a path is ignored.
    pub fn is_ignored(&self) -> (answer: bool)
        ensures
            answer == (self is PathIgnored),
    {
        match self {
            RepositoryError::PathIgnored { .. } => true,
            _ => false,
        }
    }

    /// Whether this is about tags.
    pub fn is_tag_error(&self) -> (answer: bool)
        ensures
            answer == (self is TagNotFound || self is TagAlreadyExists || self is InvalidTagName),
    {
        match self {
            RepositoryError::TagNotFound { .. } => true,
            RepositoryError::TagAlreadyExists { .. } => true,
            RepositoryError::InvalidTagName { .. } => true,
            _ => false,
        }
    }

    /// Whether this is about remotes.
    pub fn is_remote_error(&self) -> (answer: bool)
        ensures
            answer == (self is RemoteNotFound || self is NoRemotesConfigured || self is Remote),
    {
        match self {
            RepositoryError::RemoteNotFound { .. } => true,
            RepositoryError::NoRemotesConfigured => true,
            RepositoryError::Remote(_) => true,
            _ => false,
        }
    }

    /// Whether this is about applying changes.
    pub fn is_apply_error(&self) -> (answer: bool)
        ensures
            answer == (self is Apply || self is ChangeNotFound
                || self is ChangeAlreadyApplied || self is MissingDependency),
    {
        match self {
            RepositoryError::Apply(_) => true,
            RepositoryError::ChangeNotFound { .. } => true,
            RepositoryError::ChangeAlreadyApplied { .. } => true,
            RepositoryError::MissingDependency { .. } => true,
            _ => false,
        }
    }

}

/// An invalid operation with a message.
pub fn invalid(message: &str) -> (error: RepositoryError)
    ensures
        error.says(message@),
{
    RepositoryError::InvalidOperation { refusal: Refusal::Message(message.to_owned()) }
}

/// What is said of a visible change without an external hash.
pub open spec fn unhashed(id: crate::types::NodeId) -> Seq<char> {
    "validated visible change "@ + text::numeral(id.0 as nat) + " has no external hash"@
}

/// Whether `error` reports why a projection failed: a visible change without
/// a hash is the database's fault, anything else an invalid operation.
pub open spec fn reports(error: RepositoryError, refusal: TreeRefusal) -> bool {
    match refusal {
        TreeRefusal::UnhashedChange { id } => error matches RepositoryError::Database(message)
            && message@ == unhashed(id),
        _ => error == (RepositoryError::InvalidOperation { refusal: Refusal::Tree(refusal) }),
    }
}

/// The error for a failed projection.
pub fn projection_error(refusal: TreeRefusal) -> (error: RepositoryError)
    ensures
        reports(error, refusal),
{
    match refusal {
        TreeRefusal::UnhashedChange { id } => {
            let mut m: String = "validated visible change ".to_owned();
            m.append(text::decimal(id.0).as_str());
            m.append(" has no external hash");
            RepositoryError::Database(m)
        },
        other => RepositoryError::InvalidOperation { refusal: Refusal::Tree(other) },
    }
}

/// What is said of a refused operation.
pub open spec fn operation_text(refusal: OperationRefusal) -> Seq<char> {
    match refusal {
        OperationRefusal::EmptyPath => "operation effect path cannot be empty"@,
        OperationRefusal::UnsafePath => "effect path must be a safe relative path"@,
        OperationRefusal::VcsPath => "effect path names version-control metadata"@,
        OperationRefusal::SymlinkParent => "effect path leads through a symbolic link"@,
        OperationRefusal::ForeignWorkspace => {
            "workspace effect belongs to another working copy than the operation lock"@
        },
        OperationRefusal::ForeignShelf => {
            "shelf effect belongs to another working copy than the operation lock"@
        },
        OperationRefusal::ForeignWorkingCopy => {
            "working-copy effect belongs to another one than the operation lock"@
        },
        OperationRefusal::UnsupportedTarget => "effect target is not supported"@,
        OperationRefusal::NotObserved { ordinal } => "the target of effect "@
            + text::numeral(ordinal as nat) + " was not observed"@,
        OperationRefusal::LeaseDiverged { ordinal } => "effect "@ + text::numeral(ordinal as nat)
            + " lease diverged"@,
        OperationRefusal::NoSuchEffect { ordinal } => "operation has no effect "@
            + text::numeral(ordinal as nat),
        OperationRefusal::BrokenChain { ordinal } => "effect "@ + text::numeral(ordinal as nat)
            + " does not continue the chain of its target"@,
        OperationRefusal::NeedsContent { ordinal } => "regular-file effect "@
            + text::numeral(ordinal as nat) + " requires prepared content bytes"@,
        OperationRefusal::ContentMismatch { ordinal } => "prepared content for effect "@
            + text::numeral(ordinal as nat) + " does not match expected-new hash"@,
        OperationRefusal::CannotMaterialize { ordinal } => "filesystem effect "@
            + text::numeral(ordinal as nat) + " cannot materialize its expected-new value"@,
        OperationRefusal::Unfinished { ordinal } => "operation cannot be verified before effect "@
            + text::numeral(ordinal as nat) + " has a successful receipt"@,
        OperationRefusal::FinalMismatch { ordinal } => "operation cannot be verified: the target of effect "@
            + text::numeral(ordinal as nat) + " does not have its expected value"@,
        OperationRefusal::DivergedBeforeRecovery { ordinal } => "the target of effect "@
            + text::numeral(ordinal as nat) + " diverged before recovery"@,
        OperationRefusal::AmbiguousChain { ordinal } => "the target of effect "@
            + text::numeral(ordinal as nat) + " has an ambiguous cyclic lease chain"@,
        OperationRefusal::NoOriginalTransition { ordinal } => "recovery effect "@
            + text::numeral(ordinal as nat)
            + " does not identify exactly one original inverse transition"@,
        OperationRefusal::CannotRestore { ordinal } => "recovery cannot restore the value of effect "@
            + text::numeral(ordinal as nat),
        OperationRefusal::GitlinkRecovery { ordinal } => "filesystem recovery does not synthesize gitlink effect "@
            + text::numeral(ordinal as nat),
        OperationRefusal::MultipleHeads { count } => "working copy has "@
            + text::numeral(count as nat) + " operation heads"@,
        OperationRefusal::IncompleteHead => {
            "operation head is incomplete; recover it before preparing another operation"@
        },
        OperationRefusal::HeadChanged => "operation head changed while preparing switch"@,
        OperationRefusal::RecoveryParents { count } => "recovery operation must have exactly one parent, found "@
            + text::numeral(count as nat),
        OperationRefusal::StateOfAnother => {
            "operation state belongs to another working copy than the lock"@
        },
        OperationRefusal::StateMissing => "working-copy operation requires working-copy state"@,
        OperationRefusal::OperationOfAnother => {
            "operation belongs to another working copy than the lock"@
        },
        OperationRefusal::RepositoryScoped => {
            "repository-scoped operation cannot use a working-copy recovery lock"@
        },
        OperationRefusal::InvalidBackupMarker => {
            "operation recovery backup has an invalid complete marker"@
        },
        OperationRefusal::InvalidAbsentBackup { ordinal } => "effect "@
            + text::numeral(ordinal as nat) + " has an invalid absent backup"@,
        OperationRefusal::BackupMismatch { ordinal } => "effect "@ + text::numeral(ordinal as nat)
            + " backup does not match expected-old"@,
        OperationRefusal::InvalidOldValue { ordinal } => "filesystem effect "@
            + text::numeral(ordinal as nat) + " expected-old must be Absent or File"@,
        OperationRefusal::BackupNotRebuildable { ordinal } => "incomplete recovery backup cannot be rebuilt after effect "@
            + text::numeral(ordinal as nat) + " moved away from expected-old"@,
    }
}

/// Says what a refused operation is about.
pub fn operation_message(refusal: OperationRefusal) -> (message: String)
    ensures
        message@ == operation_text(refusal),
{
    match refusal {
        OperationRefusal::EmptyPath => "operation effect path cannot be empty".to_owned(),
        OperationRefusal::UnsafePath => "effect path must be a safe relative path".to_owned(),
        OperationRefusal::VcsPath => "effect path names version-control metadata".to_owned(),
        OperationRefusal::SymlinkParent => "effect path leads through a symbolic link".to_owned(),
        OperationRefusal::ForeignWorkspace => {
            "workspace effect belongs to another working copy than the operation lock".to_owned()
        },
        OperationRefusal::ForeignShelf => {
            "shelf effect belongs to another working copy than the operation lock".to_owned()
        },
        OperationRefusal::ForeignWorkingCopy => {
            "working-copy effect belongs to another one than the operation lock".to_owned()
        },
        OperationRefusal::UnsupportedTarget => "effect target is not supported".to_owned(),
        OperationRefusal::NotObserved { ordinal } => {
            let mut m: String = "the target of effect ".to_owned();
            m.append(text::decimal(ordinal as u64).as_str());
            m.append(" was not observed");
            m
        },
        OperationRefusal::LeaseDiverged { ordinal } => {
            let mut m: String = "effect ".to_owned();
            m.append(text::decimal(ordinal as u64).as_str());
            m.append(" lease diverged");
            m
        },
        OperationRefusal::NoSuchEffect { ordinal } => {
            let mut m: String = "operation has no effect ".to_owned();
            m.append(text::decimal(ordinal as u64).as_str());
            m
        },
        OperationRefusal::BrokenChain { ordinal } => {
            let mut m: String = "effect ".to_owned();
            m.append(text::decimal(ordinal as u64).as_str());
            m.append(" does not continue the chain of its target");
            m
        },
        OperationRefusal::NeedsContent { ordinal } => {
            let mut m: String = "regular-file effect ".to_owned();
            m.append(text::decimal(ordinal as u64).as_str());
            m.append(" requires prepared content bytes");
            m
        },
        OperationRefusal::ContentMismatch { ordinal } => {
            let mut m: String = "prepared content for effect ".to_owned();
            m.append(text::decimal(ordinal as u64).as_str());
            m.append(" does not match expected-new hash");
            m
        },
        OperationRefusal::CannotMaterialize { ordinal } => {
            let mut m: String = "filesystem effect ".to_owned();
            m.append(text::decimal(ordinal as u64).as_str());
            m.append(" cannot materialize its expected-new value");
            m
        },
        OperationRefusal::Unfinished { ordinal } => {
            let mut m: String = "operation cannot be verified before effect ".to_owned();
            m.append(text::decimal(ordinal as u64).as_str());
            m.append(" has a successful receipt");
            m
        },
        OperationRefusal::FinalMismatch { ordinal } => {
            let mut m: String = "operation cannot be verified: the target of effect ".to_owned();
            m.append(text::decimal(ordinal as u64).as_str());
            m.append(" does not have its expected value");
            m
        },
        OperationRefusal::DivergedBeforeRecovery { ordinal } => {
            let mut m: String = "the target of effect ".to_owned();
            m.append(text::decimal(ordinal as u64).as_str());
            m.append(" diverged before recovery");
            m
        },
        OperationRefusal::AmbiguousChain { ordinal } => {
            let mut m: String = "the target of effect ".to_owned();
            m.append(text::decimal(ordinal as u64).as_str());
            m.append(" has an ambiguous cyclic lease chain");
            m
        },
        OperationRefusal::NoOriginalTransition { ordinal } => {
            let mut m: String = "recovery effect ".to_owned();
            m.append(text::decimal(ordinal as u64).as_str());
            m.append(" does not identify exactly one original inverse transition");
            m
        },
        OperationRefusal::CannotRestore { ordinal } => {
            let mut m: String = "recovery cannot restore the value of effect ".to_owned();
            m.append(text::decimal(ordinal as u64).as_str());
            m
        },
        OperationRefusal::GitlinkRecovery { ordinal } => {
            let mut m: String = "filesystem recovery does not synthesize gitlink effect ".to_owned();
            m.append(text::decimal(ordinal as u64).as_str());
            m
        },
        OperationRefusal::MultipleHeads { count } => {
            let mut m: String = "working copy has ".to_owned();
            m.append(text::decimal(count as u64).as_str());
            m.append(" operation heads");
            m
        },
        OperationRefusal::IncompleteHead => {
            "operation head is incomplete; recover it before preparing another operation".to_owned()
        },
        OperationRefusal::HeadChanged => "operation head changed while preparing switch".to_owned(),
        OperationRefusal::RecoveryParents { count } => {
            let mut m: String = "recovery operation must have exactly one parent, found ".to_owned();
            m.append(text::decimal(count as u64).as_str());
            m
        },
        OperationRefusal::StateOfAnother => {
            "operation state belongs to another working copy than the lock".to_owned()
        },
        OperationRefusal::StateMissing => {
            "working-copy operation requires working-copy state".to_owned()
        },
        OperationRefusal::OperationOfAnother => {
            "operation belongs to another working copy than the lock".to_owned()
        },
        OperationRefusal::RepositoryScoped => {
            "repository-scoped operation cannot use a working-copy recovery lock".to_owned()
        },
        OperationRefusal::InvalidBackupMarker => {
            "operation recovery backup has an invalid complete marker".to_owned()
        },
        OperationRefusal::InvalidAbsentBackup { ordinal } => {
            let mut m: String = "effect ".to_owned();
            m.append(text::decimal(ordinal as u64).as_str());
            m.append(" has an invalid absent backup");
            m
        },
        OperationRefusal::BackupMismatch { ordinal } => {
            let mut m: String = "effect ".to_owned();
            m.append(text::decimal(ordinal as u64).as_str());
            m.append(" backup does not match expected-old");
            m
        },
        OperationRefusal::InvalidOldValue { ordinal } => {
            let mut m: String = "filesystem effect ".to_owned();
            m.append(text::decimal(ordinal as u64).as_str());
            m.append(" expected-old must be Absent or File");
            m
        },
        OperationRefusal::BackupNotRebuildable { ordinal } => {
            let mut m: String = "incomplete recovery backup cannot be rebuilt after effect ".to_owned();
            m.append(text::decimal(ordinal as u64).as_str());
            m.append(" moved away from expected-old");
            m
        },
    }
}

/// What is said of a refused rebuild.
pub open spec fn native_text(refusal: NativeRefusal) -> Seq<char> {
    match refusal {
        NativeRefusal::DependencyCycle { change } => "native-index replay found a dependency cycle at "@
            + text::numeral(change.0 as nat),
        NativeRefusal::UnregisteredDependency { change, .. } => "change "@ + text::numeral(
            change.0 as nat,
        ) + " has unregistered dependency"@,
        NativeRefusal::DependenciesUnavailable { change } => "dependencies of change "@
            + text::numeral(change.0 as nat) + " are unavailable"@,
        NativeRefusal::UnhashedChange { change } => "reachable change "@
            + text::numeral(change.0 as nat) + " has no external hash"@,
        NativeRefusal::UnreadChange { change } => "reachable change "@
            + text::numeral(change.0 as nat) + " cannot be read"@,
        NativeRefusal::RootKindChanged { position } => "graph root "@
            + native_tables::position_text(position) + " changes between file and directory"@,
        NativeRefusal::AmbiguousOwner { position, candidates } => "graph root "@
            + native_tables::position_text(position) + " has "@ + text::numeral(candidates as nat)
            + " candidate INODE_GRAPH owners and no matching existing binding; repair is unsafe"@,
        NativeRefusal::MissingVertex { inode, position } => "INODE_GRAPH owner "@
            + text::numeral(inode.0 as nat) + " for root "@
            + native_tables::position_text(position) + " has no canonical GRAPH vertex"@,
        NativeRefusal::OwnerMismatch { position, inode, bound } => "graph root "@
            + native_tables::position_text(position) + " is owned by inode "@
            + text::numeral(inode.0 as nat) + " in INODE_GRAPH but inode "@
            + text::numeral(bound.0 as nat) + " in REV_INODES"@,
        NativeRefusal::SharedInode { inode, first, second } => "inode "@ + text::numeral(
            inode.0 as nat,
        ) + " owns both graph roots "@ + native_tables::position_text(first) + " and "@
            + native_tables::position_text(second),
        NativeRefusal::UnhashedSide { change } => "name-conflict side change "@ + text::numeral(
            change.0 as nat,
        ) + " has no external hash"@,
    }
}

/// Says what a refused rebuild is about.
pub fn native_message(refusal: NativeRefusal) -> (message: String)
    ensures
        message@ == native_text(refusal),
{
    match refusal {
        NativeRefusal::DependencyCycle { change } => {
            let mut m: String = "native-index replay found a dependency cycle at ".to_owned();
            m.append(text::decimal(change.0).as_str());
            m
        },
        NativeRefusal::UnregisteredDependency { change, .. } => {
            let mut m: String = "change ".to_owned();
            m.append(text::decimal(change.0).as_str());
            m.append(" has unregistered dependency");
            m
        },
        NativeRefusal::DependenciesUnavailable { change } => {
            let mut m: String = "dependencies of change ".to_owned();
            m.append(text::decimal(change.0).as_str());
            m.append(" are unavailable");
            m
        },
        NativeRefusal::UnhashedChange { change } => {
            let mut m: String = "reachable change ".to_owned();
            m.append(text::decimal(change.0).as_str());
            m.append(" has no external hash");
            m
        },
        NativeRefusal::UnreadChange { change } => {
            let mut m: String = "reachable change ".to_owned();
            m.append(text::decimal(change.0).as_str());
            m.append(" cannot be read");
            m
        },
        NativeRefusal::RootKindChanged { position } => {
            let mut m: String = "graph root ".to_owned();
            m.append(native_tables::render_position(position).as_str());
            m.append(" changes between file and directory");
            m
        },
        NativeRefusal::AmbiguousOwner { position, candidates } => {
            let mut m: String = "graph root ".to_owned();
            m.append(native_tables::render_position(position).as_str());
            m.append(" has ");
            m.append(text::decimal(candidates as u64).as_str());
            m.append(" candidate INODE_GRAPH owners and no matching existing binding; repair is unsafe");
            m
        },
        NativeRefusal::MissingVertex { inode, position } => {
            let mut m: String = "INODE_GRAPH owner ".to_owned();
            m.append(text::decimal(inode.0).as_str());
            m.append(" for root ");
            m.append(native_tables::render_position(position).as_str());
            m.append(" has no canonical GRAPH vertex");
            m
        },
        NativeRefusal::OwnerMismatch { position, inode, bound } => {
            let mut m: String = "graph root ".to_owned();
            m.append(native_tables::render_position(position).as_str());
            m.append(" is owned by inode ");
            m.append(text::decimal(inode.0).as_str());
            m.append(" in INODE_GRAPH but inode ");
            m.append(text::decimal(bound.0).as_str());
            m.append(" in REV_INODES");
            m
        },
        NativeRefusal::SharedInode { inode, first, second } => {
            let mut m: String = "inode ".to_owned();
            m.append(text::decimal(inode.0).as_str());
            m.append(" owns both graph roots ");
            m.append(native_tables::render_position(first).as_str());
            m.append(" and ");
            m.append(native_tables::render_position(second).as_str());
            m
        },
        NativeRefusal::UnhashedSide { change } => {
            let mut m: String = "name-conflict side change ".to_owned();
            m.append(text::decimal(change.0).as_str());
            m.append(" has no external hash");
            m
        },
    }
}

/// What is said of paths and inodes that cannot name each other.
pub open spec fn path_text(refusal: PathRefusalModel) -> Seq<char> {
    match refusal {
        PathRefusalModel::UnownedClaim { path, claimant } => "path claim '"@ + path
            + "' references graph root "@ + native_tables::position_text(claimant)
            + " with no unique inode owner"@,
        PathRefusalModel::SharedPath { path, inode, other } => "native projection maps '"@ + path
            + "' to both inode "@ + text::numeral(inode.0 as nat) + " and inode "@ + text::numeral(
            other.0 as nat,
        ),
        PathRefusalModel::InodeAtTwoPaths { inode, first, second } => {
            "native projection maps inode "@ + text::numeral(inode.0 as nat) + " to both '"@ + first
                + "' and '"@ + second + "'"@
        },
        PathRefusalModel::StagedBinding { path, inode } => "graphless staged path '"@ + path
            + "' for inode "@ + text::numeral(inode.0 as nat)
            + " has an unexpected INODES binding"@,
        PathRefusalModel::StagedNotBijective { path, inode } => "graphless staged TREE row '"@
            + path + "' for inode "@ + text::numeral(inode.0 as nat) + " is not bijective"@,
        PathRefusalModel::StagedFlags { inode, flags } => "graphless staged directory inode "@
            + text::numeral(inode.0 as nat) + " has invalid flags "@ + native_tables::flags_text(
            flags,
        ),
        PathRefusalModel::ReverseBinding { path, inode } => "graphless staged reverse path '"@
            + path + "' for inode "@ + text::numeral(inode.0 as nat)
            + " has an unexpected INODES binding"@,
        PathRefusalModel::ReverseNotBijective { path, inode } => {
            "graphless staged REV_TREE row for inode "@ + text::numeral(inode.0 as nat) + " and '"@
                + path + "' is not bijective"@
        },
    }
}

fn five(a: &str, b: &str, c: &str, d: &str, e: &str) -> (joined: String)
    ensures
        joined@ == a@ + b@ + c@ + d@ + e@,
{
    let mut m: String = a.to_owned();
    m.append(b);
    m.append(c);
    m.append(d);
    m.append(e);
    m
}

/// Says what of paths and inodes cannot name each other.
pub fn path_message(refusal: &PathRefusal) -> (message: String)
    ensures
        message@ == path_text(refusal@),
{
    match refusal {
        PathRefusal::UnownedClaim { path, claimant } => five(
            "path claim '",
            path.as_str(),
            "' references graph root ",
            native_tables::render_position(*claimant).as_str(),
            " with no unique inode owner",
        ),
        PathRefusal::SharedPath { path, inode, other } => {
            let mut m: String = five(
                "native projection maps '",
                path.as_str(),
                "' to both inode ",
                text::decimal(inode.0).as_str(),
                " and inode ",
            );
            m.append(text::decimal(other.0).as_str());
            m
        },
        PathRefusal::InodeAtTwoPaths { inode, first, second } => {
            let mut m: String = five(
                "native projection maps inode ",
                text::decimal(inode.0).as_str(),
                " to both '",
                first.as_str(),
                "' and '",
            );
            m.append(second.as_str());
            m.append("'");
            m
        },
        PathRefusal::StagedBinding { path, inode } => five(
            "graphless staged path '",
            path.as_str(),
            "' for inode ",
            text::decimal(inode.0).as_str(),
            " has an unexpected INODES binding",
        ),
        PathRefusal::StagedNotBijective { path, inode } => five(
            "graphless staged TREE row '",
            path.as_str(),
            "' for inode ",
            text::decimal(inode.0).as_str(),
            " is not bijective",
        ),
        PathRefusal::StagedFlags { inode, flags } => {
            let mut m: String = "graphless staged directory inode ".to_owned();
            m.append(text::decimal(inode.0).as_str());
            m.append(" has invalid flags ");
            m.append(native_tables::render_flags(*flags).as_str());
            m
        },
        PathRefusal::ReverseBinding { path, inode } => five(
            "graphless staged reverse path '",
            path.as_str(),
            "' for inode ",
            text::decimal(inode.0).as_str(),
            " has an unexpected INODES binding",
        ),
        PathRefusal::ReverseNotBijective { path, inode } => five(
            "graphless staged REV_TREE row for inode ",
            text::decimal(inode.0).as_str(),
            " and '",
            path.as_str(),
            "' is not bijective",
        ),
    }
}

/// What is said of a refused snapshot.
pub open spec fn snapshot_text(refusal: SnapshotRefusal) -> Seq<char> {
    match refusal {
        SnapshotRefusal::SupersedesCycle { .. } => "snapshot supersedes cycle"@,
        SnapshotRefusal::NotOwned { .. } => {
            "snapshot view contains a change not owned by its working copy"@
        },
        SnapshotRefusal::Stale { .. } => {
            "working copy no longer matches snapshot; create a new snapshot before promotion"@
        },
        SnapshotRefusal::Private { .. } => "change is a private snapshot and cannot be exchanged"@,
        SnapshotRefusal::HeldByView { .. } => {
            "view contains private snapshot; it cannot become Shared"@
        },
    }
}

/// Says what a refused snapshot is about.
pub fn snapshot_message(refusal: SnapshotRefusal) -> (message: String)
    ensures
        message@ == snapshot_text(refusal),
{
    match refusal {
        SnapshotRefusal::SupersedesCycle { .. } => "snapshot supersedes cycle".to_owned(),
        SnapshotRefusal::NotOwned { .. } => {
            "snapshot view contains a change not owned by its working copy".to_owned()
        },
        SnapshotRefusal::Stale { .. } => {
            "working copy no longer matches snapshot; create a new snapshot before promotion".to_owned()
        },
        SnapshotRefusal::Private { .. } => {
            "change is a private snapshot and cannot be exchanged".to_owned()
        },
        SnapshotRefusal::HeldByView { .. } => {
            "view contains private snapshot; it cannot become Shared".to_owned()
        },
    }
}

/// The error for a refused operation.
pub fn operation_error(refusal: OperationRefusal) -> (error: RepositoryError)
    ensures
        error == (RepositoryError::InvalidOperation { refusal: Refusal::Operation(refusal) }),
{
    RepositoryError::InvalidOperation { refusal: Refusal::Operation(refusal) }
}

/// Whether stored facts, rather than what they say, are at fault.
pub open spec fn is_storage_fault(refusal: NativeRefusal) -> bool {
    refusal is UnregisteredDependency || refusal is DependenciesUnavailable
        || refusal is UnhashedChange || refusal is UnreadChange || refusal is UnhashedSide
}

/// Whether `error` reports why native indexes cannot be rebuilt.
pub open spec fn reports_native(error: RepositoryError, fault: NativeFault) -> bool {
    match fault {
        NativeFault::Refused(refusal) => if is_storage_fault(refusal) {
            error matches RepositoryError::Database(message) && message@ == native_text(refusal)
        } else {
            error == (RepositoryError::InvalidOperation { refusal: Refusal::Native(refusal) })
        },
        NativeFault::Unpaired(refusal) => error matches RepositoryError::InvalidOperation {
            refusal: Refusal::Message(message),
        } && message@ == path_text(refusal@),
        NativeFault::Database(cause) => error matches RepositoryError::Database(message) && message@
            == cause@,
        NativeFault::Output(cause) => error matches RepositoryError::Output(message) && message@
            == cause@,
        NativeFault::ViewNotFound(missing) => error matches RepositoryError::ViewNotFound { name }
            && name@ == missing@,
    }
}

/// The error for native indexes that cannot be rebuilt.
pub fn native_error(fault: NativeFault) -> (error: RepositoryError)
    ensures
        reports_native(error, fault),
{
    match fault {
        NativeFault::Refused(refusal) => match refusal {
            NativeRefusal::UnregisteredDependency { .. }
            | NativeRefusal::DependenciesUnavailable { .. }
            | NativeRefusal::UnhashedChange { .. }
            | NativeRefusal::UnreadChange { .. }
            | NativeRefusal::UnhashedSide { .. } => {
                RepositoryError::Database(native_message(refusal))
            },
            _ => RepositoryError::InvalidOperation { refusal: Refusal::Native(refusal) },
        },
        NativeFault::Unpaired(refusal) => RepositoryError::InvalidOperation {
            refusal: Refusal::Message(path_message(&refusal)),
        },
        NativeFault::Database(cause) => RepositoryError::Database(cause),
        NativeFault::Output(cause) => RepositoryError::Output(cause),
        NativeFault::ViewNotFound(name) => RepositoryError::ViewNotFound { name },
    }
}

/// What is said of tree metadata that cannot be projected; changes are left
/// unnamed.
pub open spec fn tree_text(refusal: TreeRefusal) -> Seq<char> {
    match refusal {
        TreeRefusal::UnknownChange { .. } => "tree projection references unknown change"@,
        TreeRefusal::UnknownLifecycle { .. } => {
            "deferred TREE lifecycle references unknown change"@
        },
        TreeRefusal::UnknownOperand { .. } => "tree operation references unknown change"@,
        TreeRefusal::UnknownRestored { .. } => "undelete references unknown change"@,
        TreeRefusal::DependenciesUnavailable { .. } => "dependency metadata is unavailable"@,
        TreeRefusal::DependencyCycle { .. } => {
            "deferred TREE lifecycle contains a dependency cycle"@
        },
        TreeRefusal::KindChanges { at } => "tree projection metadata changes inode "@
            + text::numeral(at.pos as nat) + " from file to directory"@,
        TreeRefusal::AmbiguousPriorPaths { at } => "delete for inode "@ + text::numeral(
            at.pos as nat,
        ) + " has causally ambiguous prior paths"@,
        TreeRefusal::PositionWithoutInode { position } => "tree projection position "@
            + native_tables::position_text(position) + " has no inode"@,
        TreeRefusal::OperandWithoutInode { at } => "tree operation position "@ + text::numeral(
            at.pos as nat,
        ) + " has no inode"@,
        TreeRefusal::RestoredWithoutInode { position } => "undelete position "@
            + native_tables::position_text(position) + " has no inode"@,
        TreeRefusal::KindDisagrees { inode } => "tree projection kind for inode "@ + text::numeral(
            inode.0 as nat,
        ) + " disagrees with DIRECTORIES"@,
        TreeRefusal::UnhashedChange { id } => unhashed(id),
        TreeRefusal::InodeWithoutPosition { inode } => "inode "@ + text::numeral(inode.0 as nat)
            + " has no graph position"@,
        TreeRefusal::InodeAtRoot { inode } => "inode "@ + text::numeral(inode.0 as nat)
            + " resolves to the ROOT change"@,
        TreeRefusal::InodeWithoutHash { inode, id } => "inode "@ + text::numeral(inode.0 as nat)
            + " references change "@ + text::numeral(id.0 as nat) + " without an external hash"@,
        TreeRefusal::RootReference => "tree operation inode cannot reference ROOT"@,
        TreeRefusal::PathOccupied { inode } => "path is already bound to graph inode "@
            + text::numeral(inode.0 as nat),
    }
}

/// Text around a number.
fn around(before: &str, number: u64, after: &str) -> (message: String)
    ensures
        message@ == before@ + text::numeral(number as nat) + after@,
{
    let mut m: String = before.to_owned();
    m.append(text::decimal(number).as_str());
    m.append(after);
    m
}

/// Says why tree metadata cannot be projected.
pub fn tree_message(refusal: TreeRefusal) -> (message: String)
    ensures
        message@ == tree_text(refusal),
{
    match refusal {
        TreeRefusal::UnknownChange { .. } => "tree projection references unknown change".to_owned(),
        TreeRefusal::UnknownLifecycle { .. } => {
            "deferred TREE lifecycle references unknown change".to_owned()
        },
        TreeRefusal::UnknownOperand { .. } => "tree operation references unknown change".to_owned(),
        TreeRefusal::UnknownRestored { .. } => "undelete references unknown change".to_owned(),
        TreeRefusal::DependenciesUnavailable { .. } => {
            "dependency metadata is unavailable".to_owned()
        },
        TreeRefusal::DependencyCycle { .. } => {
            "deferred TREE lifecycle contains a dependency cycle".to_owned()
        },
        TreeRefusal::KindChanges { at } => around(
            "tree projection metadata changes inode ",
            at.pos,
            " from file to directory",
        ),
        TreeRefusal::AmbiguousPriorPaths { at } => around(
            "delete for inode ",
            at.pos,
            " has causally ambiguous prior paths",
        ),
        TreeRefusal::PositionWithoutInode { position } => {
            let mut m: String = "tree projection position ".to_owned();
            m.append(native_tables::render_position(position).as_str());
            m.append(" has no inode");
            m
        },
        TreeRefusal::OperandWithoutInode { at } => around(
            "tree operation position ",
            at.pos,
            " has no inode",
        ),
        TreeRefusal::RestoredWithoutInode { position } => {
            let mut m: String = "undelete position ".to_owned();
            m.append(native_tables::render_position(position).as_str());
            m.append(" has no inode");
            m
        },
        TreeRefusal::KindDisagrees { inode } => around(
            "tree projection kind for inode ",
            inode.0,
            " disagrees with DIRECTORIES",
        ),
        TreeRefusal::UnhashedChange { id } => around(
            "validated visible change ",
            id.0,
            " has no external hash",
        ),
        TreeRefusal::InodeWithoutPosition { inode } => around(
            "inode ",
            inode.0,
            " has no graph position",
        ),
        TreeRefusal::InodeAtRoot { inode } => around(
            "inode ",
            inode.0,
            " resolves to the ROOT change",
        ),
        TreeRefusal::InodeWithoutHash { inode, id } => {
            let mut m: String = around("inode ", inode.0, " references change ");
            m.append(text::decimal(id.0).as_str());
            m.append(" without an external hash");
            m
        },
        TreeRefusal::RootReference => "tree operation inode cannot reference ROOT".to_owned(),
        TreeRefusal::PathOccupied { inode } => {
            let mut m: String = "path is already bound to graph inode ".to_owned();
            m.append(text::decimal(inode.0).as_str());
            m
        },
    }
}

/// How identifiers are written: those that an error carries, or that its
/// caller knows.
#[derive(Debug)]
pub struct Names {
    /// The change that the error is about.
    pub change: String,
    /// The provenance object that the error is about.
    pub provenance: String,
    pub operation: String,
    pub path: String,
    /// The symbolic link that a path leads through.
    pub link: String,
    pub view: String,
    pub working_copy: String,
    /// The working copy that a target or an operation belongs to instead.
    pub owner: String,
    /// The state that was expected of a view.
    pub expected_state: String,
    /// The state that a view has.
    pub actual_state: String,
}

/// What is said of a refusal once its identifiers are written out; a refusal
/// that names none says what it says anyway.
pub open spec fn spelled_text(refusal: Refusal, names: Names) -> Seq<char> {
    match refusal {
        Refusal::Tree(TreeRefusal::UnknownChange { .. }) => {
            "tree projection references unknown change "@ + names.change@
        },
        Refusal::Tree(TreeRefusal::UnknownLifecycle { .. }) => {
            "deferred TREE lifecycle references unknown change "@ + names.change@
        },
        Refusal::Tree(TreeRefusal::UnknownOperand { .. }) => {
            "tree operation references unknown change "@ + names.change@
        },
        Refusal::Tree(TreeRefusal::UnknownRestored { .. }) => {
            "undelete references unknown change "@ + names.change@
        },
        Refusal::Tree(TreeRefusal::OperandWithoutInode { at }) => "tree operation position "@
            + names.change@ + ":"@ + text::numeral(at.pos as nat) + " has no inode"@,
        Refusal::Tree(TreeRefusal::DependencyCycle { .. }) => {
            "deferred TREE lifecycle contains a dependency cycle at "@ + names.change@
        },
        Refusal::Tree(TreeRefusal::PathOccupied { inode }) => "cannot add '"@ + names.path@
            + "': path is already bound to graph inode "@ + text::numeral(inode.0 as nat),
        Refusal::Snapshot(SnapshotRefusal::SupersedesCycle { .. }) => {
            "snapshot supersedes cycle at "@ + names.change@
        },
        Refusal::Snapshot(SnapshotRefusal::NotOwned { .. }) => "snapshot view '"@ + names.view@
            + "' contains change "@ + names.change@ + " not owned by working copy "@
            + names.working_copy@,
        Refusal::Snapshot(SnapshotRefusal::Stale { .. }) => {
            "working copy no longer matches snapshot "@ + names.change@
                + "; create a new snapshot before promotion"@
        },
        Refusal::Snapshot(SnapshotRefusal::Private { .. }) => "change "@ + names.change@
            + " is a private snapshot and cannot be exchanged"@,
        Refusal::Snapshot(SnapshotRefusal::HeldByView { .. }) => "view '"@ + names.view@
            + "' contains private snapshot "@ + names.change@ + "; it cannot become Shared"@,
        Refusal::Operation(OperationRefusal::UnsafePath) => "unsafe operation effect path '"@
            + names.path@ + "'"@,
        Refusal::Operation(OperationRefusal::VcsPath) => {
            "operation filesystem effect cannot target '"@ + names.path@ + "'"@
        },
        Refusal::Operation(OperationRefusal::SymlinkParent) => "operation path '"@ + names.path@
            + "' traverses symlink parent '"@ + names.link@ + "'"@,
        Refusal::Operation(OperationRefusal::ForeignWorkspace) => {
            "workspace effect belongs to working copy "@ + names.owner@
                + ", operation lock is for "@ + names.working_copy@
        },
        Refusal::Operation(OperationRefusal::ForeignShelf) => {
            "shelf effect belongs to working copy "@ + names.owner@
                + ", operation lock is for "@ + names.working_copy@
        },
        Refusal::Operation(OperationRefusal::ForeignWorkingCopy) => {
            "working-copy effect belongs to "@ + names.owner@
                + ", operation lock is for "@ + names.working_copy@
        },
        Refusal::Operation(OperationRefusal::Unfinished { ordinal }) => "operation "@
            + names.operation@ + " cannot be verified before effect "@ + text::numeral(
            ordinal as nat,
        ) + " has a successful receipt"@,
        Refusal::Operation(OperationRefusal::IncompleteHead) => "operation head "@
            + names.operation@ + " is incomplete; recover it before preparing another operation"@,
        Refusal::Operation(OperationRefusal::OperationOfAnother) => "operation "@
            + names.operation@ + " belongs to working copy "@ + names.owner@
            + ", but lock is for "@ + names.working_copy@,
        Refusal::Operation(OperationRefusal::RepositoryScoped) => {
            "repository-scoped operation "@ + names.operation@
                + " cannot use a working-copy recovery lock"@
        },
        Refusal::Operation(OperationRefusal::StateOfAnother) => {
            "operation state belongs to working copy "@ + names.owner@ + ", lock is for "@
                + names.working_copy@
        },
        Refusal::Operation(OperationRefusal::StateMissing) => "working-copy operation for "@
            + names.working_copy@ + " requires working-copy state"@,
        Refusal::Operation(OperationRefusal::NoSuchEffect { ordinal }) => "operation "@
            + names.operation@ + " has no effect ordinal "@ + text::numeral(ordinal as nat),
        Refusal::Operation(OperationRefusal::InvalidBackupMarker) => {
            "operation recovery backup "@ + names.path@ + " has an invalid complete marker"@
        },
        Refusal::Operation(OperationRefusal::InvalidAbsentBackup { ordinal }) => "operation "@
            + names.operation@ + " effect "@ + text::numeral(ordinal as nat)
            + " has an invalid absent backup"@,
        Refusal::Operation(OperationRefusal::BackupMismatch { ordinal }) => "operation "@
            + names.operation@ + " effect "@ + text::numeral(ordinal as nat)
            + " backup no longer matches expected-old"@,
        Refusal::Operation(OperationRefusal::BackupNotRebuildable { ordinal }) => {
            "incomplete recovery backup for operation "@ + names.operation@
                + " cannot be rebuilt after effect "@ + text::numeral(ordinal as nat)
                + " moved away from expected-old"@
        },
        Refusal::Operation(OperationRefusal::RecoveryParents { count }) => "Recover operation "@
            + names.operation@ + " must have exactly one parent for CB-1B, found "@
            + text::numeral(count as nat),
        Refusal::Operation(OperationRefusal::BrokenChain { ordinal }) => "switch operation "@
            + names.operation@ + " repeats effect target at ordinal "@ + text::numeral(
            ordinal as nat,
        ) + " without chaining expected-old from the previous expected-new value"@,
        Refusal::Unexplained { .. } => "provenance "@ + names.provenance@
            + " does not explain change "@ + names.change@,
        _ => refusal.text(),
    }
}

fn join3(a: &str, b: &str, c: &str) -> (message: String)
    ensures
        message@ == a@ + b@ + c@,
{
    let mut m: String = a.to_owned();
    m.append(b);
    m.append(c);
    m
}

/// Text about an effect of the operation.
fn of_operation(before: &str, names: &Names, between: &str, ordinal: u32, after: &str) -> (message:
    String)
    ensures
        message@ == before@ + names.operation@ + between@ + text::numeral(ordinal as nat) + after@,
{
    let mut m: String = join3(before, names.operation.as_str(), between);
    m.append(text::decimal(ordinal as u64).as_str());
    m.append(after);
    m
}

/// Says what was refused, with its identifiers written out.
pub fn spell(refusal: &Refusal, names: &Names) -> (message: String)
    ensures
        message@ == spelled_text(*refusal, *names),
{
    match refusal {
        Refusal::Tree(TreeRefusal::UnknownChange { .. }) => {
            let mut m: String = "tree projection references unknown change ".to_owned();
            m.append(names.change.as_str());
            m
        },
        Refusal::Tree(TreeRefusal::UnknownLifecycle { .. }) => {
            let mut m: String = "deferred TREE lifecycle references unknown change ".to_owned();
            m.append(names.change.as_str());
            m
        },
        Refusal::Tree(TreeRefusal::UnknownOperand { .. }) => {
            let mut m: String = "tree operation references unknown change ".to_owned();
            m.append(names.change.as_str());
            m
        },
        Refusal::Tree(TreeRefusal::UnknownRestored { .. }) => {
            let mut m: String = "undelete references unknown change ".to_owned();
            m.append(names.change.as_str());
            m
        },
        Refusal::Tree(TreeRefusal::OperandWithoutInode { at }) => {
            let mut m: String = join3("tree operation position ", names.change.as_str(), ":");
            m.append(text::decimal(at.pos).as_str());
            m.append(" has no inode");
            m
        },
        Refusal::Tree(TreeRefusal::DependencyCycle { .. }) => {
            let mut m: String = "deferred TREE lifecycle contains a dependency cycle at ".to_owned();
            m.append(names.change.as_str());
            m
        },
        Refusal::Tree(TreeRefusal::PathOccupied { inode }) => {
            let mut m: String = join3(
                "cannot add '",
                names.path.as_str(),
                "': path is already bound to graph inode ",
            );
            m.append(text::decimal(inode.0).as_str());
            m
        },
        Refusal::Snapshot(SnapshotRefusal::SupersedesCycle { .. }) => {
            let mut m: String = "snapshot supersedes cycle at ".to_owned();
            m.append(names.change.as_str());
            m
        },
        Refusal::Snapshot(SnapshotRefusal::NotOwned { .. }) => {
            let mut m: String = join3("snapshot view '", names.view.as_str(), "' contains change ");
            m.append(names.change.as_str());
            m.append(" not owned by working copy ");
            m.append(names.working_copy.as_str());
            m
        },
        Refusal::Snapshot(SnapshotRefusal::Stale { .. }) => join3(
            "working copy no longer matches snapshot ",
            names.change.as_str(),
            "; create a new snapshot before promotion",
        ),
        Refusal::Snapshot(SnapshotRefusal::Private { .. }) => join3(
            "change ",
            names.change.as_str(),
            " is a private snapshot and cannot be exchanged",
        ),
        Refusal::Snapshot(SnapshotRefusal::HeldByView { .. }) => {
            let mut m: String = join3("view '", names.view.as_str(), "' contains private snapshot ");
            m.append(names.change.as_str());
            m.append("; it cannot become Shared");
            m
        },
        Refusal::Operation(OperationRefusal::UnsafePath) => join3(
            "unsafe operation effect path '",
            names.path.as_str(),
            "'",
        ),
        Refusal::Operation(OperationRefusal::VcsPath) => join3(
            "operation filesystem effect cannot target '",
            names.path.as_str(),
            "'",
        ),
        Refusal::Operation(OperationRefusal::SymlinkParent) => {
            let mut m: String = join3(
                "operation path '",
                names.path.as_str(),
                "' traverses symlink parent '",
            );
            m.append(names.link.as_str());
            m.append("'");
            m
        },
        Refusal::Operation(OperationRefusal::ForeignWorkspace) => {
            let mut m: String = join3(
                "workspace effect belongs to working copy ",
                names.owner.as_str(),
                ", operation lock is for ",
            );
            m.append(names.working_copy.as_str());
            m
        },
        Refusal::Operation(OperationRefusal::ForeignShelf) => {
            let mut m: String = join3(
                "shelf effect belongs to working copy ",
                names.owner.as_str(),
                ", operation lock is for ",
            );
            m.append(names.working_copy.as_str());
            m
        },
        Refusal::Operation(OperationRefusal::ForeignWorkingCopy) => {
            let mut m: String = join3(
                "working-copy effect belongs to ",
                names.owner.as_str(),
                ", operation lock is for ",
            );
            m.append(names.working_copy.as_str());
            m
        },
        Refusal::Operation(OperationRefusal::Unfinished { ordinal }) => of_operation(
            "operation ",
            names,
            " cannot be verified before effect ",
            *ordinal,
            " has a successful receipt",
        ),
        Refusal::Operation(OperationRefusal::IncompleteHead) => join3(
            "operation head ",
            names.operation.as_str(),
            " is incomplete; recover it before preparing another operation",
        ),
        Refusal::Operation(OperationRefusal::OperationOfAnother) => {
            let mut m: String = join3(
                "operation ",
                names.operation.as_str(),
                " belongs to working copy ",
            );
            m.append(names.owner.as_str());
            m.append(", but lock is for ");
            m.append(names.working_copy.as_str());
            m
        },
        Refusal::Operation(OperationRefusal::RepositoryScoped) => join3(
            "repository-scoped operation ",
            names.operation.as_str(),
            " cannot use a working-copy recovery lock",
        ),
        Refusal::Operation(OperationRefusal::StateOfAnother) => {
            let mut m: String = join3(
                "operation state belongs to working copy ",
                names.owner.as_str(),
                ", lock is for ",
            );
            m.append(names.working_copy.as_str());
            m
        },
        Refusal::Operation(OperationRefusal::StateMissing) => join3(
            "working-copy operation for ",
            names.working_copy.as_str(),
            " requires working-copy state",
        ),
        Refusal::Operation(OperationRefusal::NoSuchEffect { ordinal }) => {
            let mut m: String = join3(
                "operation ",
                names.operation.as_str(),
                " has no effect ordinal ",
            );
            m.append(text::decimal(*ordinal as u64).as_str());
            m
        },
        Refusal::Operation(OperationRefusal::InvalidBackupMarker) => join3(
            "operation recovery backup ",
            names.path.as_str(),
            " has an invalid complete marker",
        ),
        Refusal::Operation(OperationRefusal::InvalidAbsentBackup { ordinal }) => of_operation(
            "operation ",
            names,
            " effect ",
            *ordinal,
            " has an invalid absent backup",
        ),
        Refusal::Operation(OperationRefusal::BackupMismatch { ordinal }) => of_operation(
            "operation ",
            names,
            " effect ",
            *ordinal,
            " backup no longer matches expected-old",
        ),
        Refusal::Operation(OperationRefusal::BackupNotRebuildable { ordinal }) => of_operation(
            "incomplete recovery backup for operation ",
            names,
            " cannot be rebuilt after effect ",
            *ordinal,
            " moved away from expected-old",
        ),
        Refusal::Operation(OperationRefusal::RecoveryParents { count }) => {
            let mut m: String = join3(
                "Recover operation ",
                names.operation.as_str(),
                " must have exactly one parent for CB-1B, found ",
            );
            m.append(text::decimal(*count as u64).as_str());
            m
        },
        Refusal::Operation(OperationRefusal::BrokenChain { ordinal }) => of_operation(
            "switch operation ",
            names,
            " repeats effect target at ordinal ",
            *ordinal,
            " without chaining expected-old from the previous expected-new value",
        ),
        Refusal::Unexplained { .. } => {
            let mut m: String = join3(
                "provenance ",
                names.provenance.as_str(),
                " does not explain change ",
            );
            m.append(names.change.as_str());
            m
        },
        other => other.message(),
    }
}

impl RepositoryError {
    /// The change whose name the error leaves open.
    pub open spec fn open_change(self) -> Option<ContentHash> {
        match self {
            RepositoryError::ChangeNotFound { hash: ChangeName::Hash(hash) } => Some(hash),
            RepositoryError::InvalidOperation { refusal } => match refusal {
                Refusal::Tree(TreeRefusal::UnknownChange { change }) => Some(change),
                Refusal::Tree(TreeRefusal::UnknownLifecycle { change }) => Some(change),
                Refusal::Tree(TreeRefusal::UnknownOperand { change }) => Some(change),
                Refusal::Tree(TreeRefusal::UnknownRestored { change }) => Some(change),
                Refusal::Tree(TreeRefusal::OperandWithoutInode { at }) => Some(at.change),
                Refusal::Tree(TreeRefusal::DependencyCycle { change }) => Some(change),
                Refusal::Snapshot(SnapshotRefusal::SupersedesCycle { hash }) => Some(hash),
                Refusal::Snapshot(SnapshotRefusal::NotOwned { hash }) => Some(hash),
                Refusal::Snapshot(SnapshotRefusal::Stale { hash }) => Some(hash),
                Refusal::Snapshot(SnapshotRefusal::Private { hash }) => Some(hash),
                Refusal::Snapshot(SnapshotRefusal::HeldByView { hash }) => Some(hash),
                Refusal::Unexplained { change, .. } => Some(change),
                _ => None,
            },
            _ => None,
        }
    }

    /// The change whose name the error leaves open.
    pub fn unnamed_change(&self) -> (found: Option<ContentHash>)
        ensures
            found == self.open_change(),
    {
        match self {
            RepositoryError::ChangeNotFound { hash: ChangeName::Hash(hash) } => Some(*hash),
            RepositoryError::InvalidOperation { refusal } => match refusal {
                Refusal::Tree(TreeRefusal::UnknownChange { change }) => Some(*change),
                Refusal::Tree(TreeRefusal::UnknownLifecycle { change }) => Some(*change),
                Refusal::Tree(TreeRefusal::UnknownOperand { change }) => Some(*change),
                Refusal::Tree(TreeRefusal::UnknownRestored { change }) => Some(*change),
                Refusal::Tree(TreeRefusal::OperandWithoutInode { at }) => Some(at.change),
                Refusal::Tree(TreeRefusal::DependencyCycle { change }) => Some(*change),
                Refusal::Snapshot(SnapshotRefusal::SupersedesCycle { hash }) => Some(*hash),
                Refusal::Snapshot(SnapshotRefusal::NotOwned { hash }) => Some(*hash),
                Refusal::Snapshot(SnapshotRefusal::Stale { hash }) => Some(*hash),
                Refusal::Snapshot(SnapshotRefusal::Private { hash }) => Some(*hash),
                Refusal::Snapshot(SnapshotRefusal::HeldByView { hash }) => Some(*hash),
                Refusal::Unexplained { change, .. } => Some(*change),
                _ => None,
            },
            _ => None,
        }
    }

    /// The same error with its identifiers written out: a refusal in so many
    /// words, a missing change and unlike states by their names.
    pub fn named(self, names: &Names) -> (error: RepositoryError)
        ensures
            match self {
                RepositoryError::InvalidOperation { refusal } => error.says(
                    spelled_text(refusal, *names),
                ),
                RepositoryError::ChangeNotFound { hash: ChangeName::Hash(_) } => error matches
                    RepositoryError::ChangeNotFound { hash: ChangeName::Text(name) } && name@
                    == names.change@,
                RepositoryError::InvalidRepository {
                    reason: InvalidReason::DesiredState { id, view, .. },
                } => error matches RepositoryError::InvalidRepository {
                    reason: InvalidReason::Message(message),
                } && message@ == "working-copy "@ + id@ + " expects view '"@ + view@ + "' at "@
                    + names.expected_state@ + ", but the view is at "@ + names.actual_state@,
                _ => error == self,
            },
    {
        match self {
            RepositoryError::InvalidOperation { refusal } => invalid(
                spell(&refusal, names).as_str(),
            ),
            RepositoryError::ChangeNotFound { hash: ChangeName::Hash(_) } => {
                RepositoryError::ChangeNotFound { hash: ChangeName::Text(names.change.clone()) }
            },
            RepositoryError::InvalidRepository {
                reason: InvalidReason::DesiredState { id, view, .. },
            } => {
                let mut m: String = join3("working-copy ", id.text.as_str(), " expects view '");
                m.append(view.as_str());
                m.append("' at ");
                m.append(names.expected_state.as_str());
                m.append(", but the view is at ");
                m.append(names.actual_state.as_str());
                RepositoryError::InvalidRepository { reason: InvalidReason::Message(m) }
            },
            other => other,
        }
    }
}

} // verus!
