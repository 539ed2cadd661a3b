use atomic_repository::effects::OperationRefusal;
use atomic_repository::error::{
    invalid, native_error, operation_error, projection_error, ChangeName, InvalidReason, Names,
    Refusal, RepositoryError, RepositoryLockKind, SnapshotRefusal,
};
use atomic_repository::deferred_tree::TreeRefusal;
use atomic_repository::native_roots::{NativeFault, NativeRefusal};
use atomic_repository::types::{
    ContentHash, ExternalPosition, Inode, NodeId, Position, WorkingCopyId,
};

#[test]
fn test_not_found_detection() {
    let err = RepositoryError::NotFound { path: "/some/path".to_string() };
    assert!(err.is_not_found());

    let err = RepositoryError::NotInRepository;
    assert!(err.is_not_found());

    let err = RepositoryError::ViewNotFound { name: "main".to_string() };
    assert!(!err.is_not_found());
}

#[test]
fn test_user_fixable_detection() {
    let err = RepositoryError::UncommittedChanges;
    assert!(err.is_user_fixable());

    let err = RepositoryError::MergeConflict { description: "conflict in file.txt".to_string() };
    assert!(err.is_user_fixable());

    let err = RepositoryError::Locked;
    assert!(!err.is_user_fixable());
}

#[test]
fn test_error_display() {
    let err = RepositoryError::ViewNotFound { name: "feature".to_string() };
    assert_eq!(err.message(), "View not found: feature");

    let err = RepositoryError::MissingDependency {
        change: "ABC123".to_string(),
        dependency: "DEF456".to_string(),
    };
    assert!(err.message().contains("ABC123"));
    assert!(err.message().contains("DEF456"));
}

#[test]
fn test_tag_error_detection() {
    let err = RepositoryError::TagNotFound { name: "v1.0.0".to_string() };
    assert!(err.is_tag_error());

    let err = RepositoryError::TagAlreadyExists { name: "v1.0.0".to_string() };
    assert!(err.is_tag_error());
    assert!(err.is_user_fixable());

    let err = RepositoryError::InvalidTagName {
        name: "bad/name".to_string(),
        reason: "contains slash".to_string(),
    };
    assert!(err.is_tag_error());
    assert!(err.is_user_fixable());
}

#[test]
fn test_apply_error_detection() {
    let err = RepositoryError::Apply("conflict".to_string());
    assert!(err.is_apply_error());

    let err = RepositoryError::ChangeNotFound { hash: ChangeName::Text("ABC123".to_string()) };
    assert!(err.is_apply_error());

    let err = RepositoryError::ChangeAlreadyApplied { hash: "ABC123".to_string() };
    assert!(err.is_apply_error());
}

#[test]
fn test_archive_error_display() {
    let err = RepositoryError::Archive("too large".to_string());
    assert!(err.message().contains("too large"));
}

#[test]
fn test_unrecord_error_display() {
    let err = RepositoryError::Unrecord("has dependents".to_string());
    assert!(err.message().contains("has dependents"));
}

#[test]
fn every_lock_has_its_name() {
    let id = || WorkingCopyId { text: "wc-1".to_string() };
    assert_eq!(RepositoryLockKind::Common.message(), "common repository operation lock");
    assert_eq!(
        RepositoryLockKind::WorkingCopy { id: id() }.message(),
        "working-copy operation lock for wc-1"
    );
    assert_eq!(
        RepositoryLockKind::Shelf { id: id() }.message(),
        "working-copy shelf lock for wc-1"
    );
    assert_eq!(RepositoryLockKind::DeferredTree.message(), "deferred-tree operation lock");
    let err = RepositoryError::LockContended {
        lock: RepositoryLockKind::Common,
        path: "/r/.atomic/lock".to_string(),
    };
    assert!(err.is_lock_contended());
    assert_eq!(
        err.message(),
        "common repository operation lock at '/r/.atomic/lock' is held by another process; retry the operation"
    );
    assert!(!RepositoryError::Locked.is_lock_contended());
}

#[test]
fn lists_and_counts_are_spelled_out() {
    let err = RepositoryError::ViewSplitHasDependents {
        view: "dev".to_string(),
        blocking: vec!["A".to_string(), "B".to_string()],
    };
    assert_eq!(
        err.message(),
        "cannot split: 2 change(s) remaining in 'dev' still depend on the changes being split (use --cascade to move them too): A, B"
    );
    let err = RepositoryError::ManifestDiverged { view: "dev".to_string(), at: 12 };
    assert_eq!(
        err.message(),
        "View 'dev' has diverged from the manifest (first mismatch at sequence 12)"
    );
}

#[test]
fn other_kinds_are_told_apart() {
    assert!(RepositoryError::PathIgnored { path: "x".to_string() }.is_ignored());
    assert!(!RepositoryError::FileNotFound { path: "x".to_string() }.is_ignored());
    assert!(RepositoryError::NoRemotesConfigured.is_remote_error());
    assert!(!RepositoryError::Locked.is_remote_error());
    let hash = ChangeName::Hash(ContentHash { hi: 1, lo: 2 });
    assert!(RepositoryError::ChangeNotFound { hash }.is_apply_error());
}

#[test]
fn refusals_become_invalid_operations() {
    let err = operation_error(OperationRefusal::NeedsContent { ordinal: 3 });
    assert_eq!(
        err.message(),
        "Invalid operation: regular-file effect 3 requires prepared content bytes"
    );
    assert_eq!(invalid("no").message(), "Invalid operation: no");
    let err = RepositoryError::InvalidOperation {
        refusal: Refusal::Snapshot(SnapshotRefusal::Stale { hash: ContentHash { hi: 0, lo: 1 } }),
    };
    assert!(err.message().contains("create a new snapshot"));
    let err = projection_error(TreeRefusal::UnhashedChange { id: NodeId(7) });
    assert_eq!(
        err.message(),
        "Database error: validated visible change 7 has no external hash"
    );
    let err = projection_error(TreeRefusal::RootReference);
    assert_eq!(
        err.message(),
        "Invalid operation: tree operation inode cannot reference ROOT"
    );
    let at = ExternalPosition { change: ContentHash { hi: 0, lo: 1 }, pos: 12 };
    assert_eq!(
        projection_error(TreeRefusal::AmbiguousPriorPaths { at }).message(),
        "Invalid operation: delete for inode 12 has causally ambiguous prior paths"
    );
    assert_eq!(
        projection_error(TreeRefusal::KindChanges { at }).message(),
        "Invalid operation: tree projection metadata changes inode 12 from file to directory"
    );
    assert_eq!(
        projection_error(TreeRefusal::InodeWithoutHash { inode: Inode(3), id: NodeId(4) })
            .message(),
        "Invalid operation: inode 3 references change 4 without an external hash"
    );
    assert_eq!(
        projection_error(TreeRefusal::KindDisagrees { inode: Inode(5) }).message(),
        "Invalid operation: tree projection kind for inode 5 disagrees with DIRECTORIES"
    );
}

fn names() -> Names {
    Names {
        change: "CHANGE".to_string(),
        provenance: "PROOF".to_string(),
        operation: "OP".to_string(),
        path: "a/../b".to_string(),
        link: "a".to_string(),
        view: "wc/1".to_string(),
        working_copy: "wc-1".to_string(),
        owner: "wc-2".to_string(),
        expected_state: "OLD".to_string(),
        actual_state: "NEW".to_string(),
    }
}

#[test]
fn identifiers_are_written_out() {
    let hash = ContentHash { hi: 0, lo: 1 };
    let said = |refusal: Refusal| {
        RepositoryError::InvalidOperation { refusal }.named(&names()).message()
    };
    assert_eq!(
        said(Refusal::Snapshot(SnapshotRefusal::NotOwned { hash })),
        "Invalid operation: snapshot view 'wc/1' contains change CHANGE not owned by working copy wc-1"
    );
    assert_eq!(
        said(Refusal::Snapshot(SnapshotRefusal::SupersedesCycle { hash })),
        "Invalid operation: snapshot supersedes cycle at CHANGE"
    );
    assert_eq!(
        said(Refusal::Snapshot(SnapshotRefusal::HeldByView { hash })),
        "Invalid operation: view 'wc/1' contains private snapshot CHANGE; it cannot become Shared"
    );
    assert_eq!(
        said(Refusal::Operation(OperationRefusal::UnsafePath)),
        "Invalid operation: unsafe operation effect path 'a/../b'"
    );
    assert_eq!(
        said(Refusal::Operation(OperationRefusal::SymlinkParent)),
        "Invalid operation: operation path 'a/../b' traverses symlink parent 'a'"
    );
    assert_eq!(
        said(Refusal::Tree(TreeRefusal::PathOccupied { inode: Inode(6) })),
        "Invalid operation: cannot add 'a/../b': path is already bound to graph inode 6"
    );
    assert_eq!(
        said(Refusal::Unexplained { provenance: hash, change: hash }),
        "Invalid operation: provenance PROOF does not explain change CHANGE"
    );
    assert_eq!(
        said(Refusal::Operation(OperationRefusal::Unfinished { ordinal: 2 })),
        "Invalid operation: operation OP cannot be verified before effect 2 has a successful receipt"
    );
    assert_eq!(
        said(Refusal::Operation(OperationRefusal::RecoveryParents { count: 0 })),
        "Invalid operation: Recover operation OP must have exactly one parent for CB-1B, found 0"
    );
    assert_eq!(
        said(Refusal::Operation(OperationRefusal::OperationOfAnother)),
        "Invalid operation: operation OP belongs to working copy wc-2, but lock is for wc-1"
    );
    assert_eq!(
        said(Refusal::Operation(OperationRefusal::ForeignShelf)),
        "Invalid operation: shelf effect belongs to working copy wc-2, operation lock is for wc-1"
    );
    assert_eq!(
        said(Refusal::Operation(OperationRefusal::ForeignWorkingCopy)),
        "Invalid operation: working-copy effect belongs to wc-2, operation lock is for wc-1"
    );
    assert_eq!(
        said(Refusal::Tree(TreeRefusal::UnknownLifecycle { change: hash })),
        "Invalid operation: deferred TREE lifecycle references unknown change CHANGE"
    );
    assert_eq!(
        said(Refusal::Tree(TreeRefusal::OperandWithoutInode {
            at: ExternalPosition { change: hash, pos: 7 },
        })),
        "Invalid operation: tree operation position CHANGE:7 has no inode"
    );
    let unknown = RepositoryError::ChangeNotFound { hash: ChangeName::Hash(hash) };
    assert_eq!(unknown.unnamed_change(), Some(hash));
    assert_eq!(unknown.named(&names()).message(), "Change not found: CHANGE");
    let mismatch = RepositoryError::InvalidRepository {
        reason: InvalidReason::DesiredState {
            id: WorkingCopyId { text: "wc-1".to_string() },
            view: "dev".to_string(),
            expected: hash,
            actual: hash,
        },
    };
    assert_eq!(
        mismatch.message(),
        "Invalid repository structure: working-copy wc-1 expects view 'dev' at another state"
    );
    assert_eq!(
        mismatch.named(&names()).message(),
        "Invalid repository structure: working-copy wc-1 expects view 'dev' at OLD, but the view is at NEW"
    );
    assert_eq!(RepositoryError::Locked.unnamed_change(), None);
}

#[test]
fn native_faults_keep_their_kind() {
    let position = Position { change: NodeId(4), pos: 9 };
    let err = native_error(NativeFault::Refused(NativeRefusal::AmbiguousOwner {
        position,
        candidates: 2,
    }));
    assert_eq!(
        err.message(),
        "Invalid operation: graph root 4:9 has 2 candidate INODE_GRAPH owners and no matching existing binding; repair is unsafe"
    );
    let err = native_error(NativeFault::Refused(NativeRefusal::UnhashedChange {
        change: NodeId(4),
    }));
    assert!(matches!(err, RepositoryError::Database(_)));
    let err = native_error(NativeFault::ViewNotFound("dev".to_string()));
    assert_eq!(err.message(), "View not found: dev");
    let err = native_error(NativeFault::Output("torn".to_string()));
    assert_eq!(err.message(), "Output error: torn");
}
