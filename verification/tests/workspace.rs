use atomic_repository::effects::OperationId;
use atomic_repository::error::{InvalidReason, RepositoryError};
use atomic_repository::git_state::{
    head_symref, GitAdminEntryKind, GitAdminPathObservation, GitHeadObservation,
    GitObservationToken,
    GitOperationMarker, GitOperationMarkerObservation, GitOperationObservation,
    WorkspaceGitObservation, WorkspaceGitRepositoryObservation,
};
use atomic_repository::pristine::{Pristine, Visibility};
use atomic_repository::repository::{Repository, ViewScope, ViewState, WorkingCopyRecord};
use atomic_repository::types::{ContentHash, WorkingCopyId};
use atomic_repository::workspace_txn::{
    accept_checkpoint, classify_git_state, EntryAction, EntryEvent, EntryTurn,
    GitOperationDisposition, OperationHeadState, UnanchoredWorkspace, ViewHeader,
    WorkspaceCheckpoint, WorkspaceEntryPlan, WorkspaceFilesystemPlan, WorkspaceHeadPlan,
    WorkspaceRefPlan, WorkspaceRemediation, WorkspaceTxnMode, WorkspaceTxnStart,
    MAX_WORKSPACE_TXN_ATTEMPTS,
};

fn hash_of(bytes: &[u8]) -> ContentHash {
    let mut value: u128 = 0x6c62272e07bb014262b821756295c58d;
    for byte in bytes {
        value ^= *byte as u128;
        value = value.wrapping_mul(0x0000000001000000000000000000013b);
    }
    ContentHash { hi: value, lo: !value }
}

fn state() -> ContentHash {
    hash_of(b"state")
}

fn head(oid: &str) -> GitHeadObservation {
    GitHeadObservation::Attached {
        symref: "refs/heads/main".to_string(),
        oid: oid.to_string(),
    }
}

fn fake_repository(oid: &str, index: &[u8]) -> WorkspaceGitRepositoryObservation {
    WorkspaceGitRepositoryObservation {
        worktree_git_dir: ".git".to_string(),
        common_dir: ".git".to_string(),
        index_path: ".git/index".to_string(),
        head: head(oid),
        head_tree: Some("tree".to_string()),
        index_digest: hash_of(index),
        index_tree: Some("tree".to_string()),
        index_stages: vec![0],
        index_lock: GitAdminPathObservation {
            path: ".git/index.lock".to_string(),
            kind: GitAdminEntryKind::Missing,
        },
        operation: GitOperationObservation {
            repository_state: "Clean".to_string(),
            markers: Vec::new(),
        },
    }
}

fn fake_git(oid: &str, index: &[u8]) -> WorkspaceGitObservation {
    WorkspaceGitObservation::Repository(Box::new(fake_repository(oid, index)))
}

fn token(oid: &str, index: &[u8]) -> GitObservationToken {
    GitObservationToken {
        head: head(oid),
        head_tree: Some("tree".to_string()),
        index_digest: hash_of(index),
        index_tree: Some("tree".to_string()),
        index_stages: vec![0],
        index_locked: false,
        repository_state: "Clean".to_string(),
        markers: Vec::new(),
    }
}

fn checkpoint(oid: &str) -> WorkspaceCheckpoint {
    accept_checkpoint(WorkspaceCheckpoint {
        version: 2,
        view: "dev".to_string(),
        atomic_state: "state".to_string(),
        git_head_symref: None,
        git_head: oid.to_string(),
        git_tree: "tree".to_string(),
        git_index_tree: None,
        git_index_digest: None,
    })
    .unwrap()
}

fn record() -> WorkingCopyRecord {
    WorkingCopyRecord {
        id: WorkingCopyId { text: "wc-1".to_string() },
        desired_view: 1,
        desired_state: state(),
        materialized_state: state(),
        materialized_manifest: state(),
    }
}

fn header() -> ViewHeader {
    ViewHeader { id: 1, name: "dev".to_string(), state: state() }
}

fn repository() -> Repository {
    Repository {
        root: "/r".to_string(),
        canonical_root: None,
        current_view: "dev".to_string(),
        working_copy: Some(WorkingCopyId { text: "wc-1".to_string() }),
        pristine: Pristine {
            changes: Vec::new(),
            tree: Vec::new(),
            rev_tree: Vec::new(),
            inodes: Vec::new(),
            rev_inodes: Vec::new(),
            directories: Vec::new(),
        },
        journal: Vec::new(),
        views: vec![ViewState {
            id: 1,
            name: "dev".to_string(),
            scope: ViewScope::Shared,
            parent: None,
            state: state(),
            changes: Vec::new(),
            visibility: Ok(Visibility {
                changes: Vec::new(),
                live: Vec::new(),
                rendered: Vec::new(),
                attributes: Vec::new(),
            }),
            claims: Ok(Visibility {
                changes: Vec::new(),
                live: Vec::new(),
                rendered: Vec::new(),
                attributes: Vec::new(),
            }),
            name_conflicts: Vec::new(),
            conflicts: Vec::new(),
        }],
        changes: Vec::new(),
        load_faults: Vec::new(),
        edges: Vec::new(),
        working_copies: vec![record()],
        tags: Vec::new(),
        file_index: Vec::new(),
    }
}

/// Enters a workspace, with one observation for each look and nothing to
/// recover.
fn enter(
    mode: WorkspaceTxnMode,
    checkpoint: Option<WorkspaceCheckpoint>,
    observations: Vec<WorkspaceGitObservation>,
) -> WorkspaceTxnStart {
    let repo = repository();
    let mut observations = observations.into_iter();
    let mut turn = repo
        .begin_workspace_txn(mode, OperationHeadState::Empty, checkpoint)
        .unwrap();
    loop {
        match turn {
            EntryTurn::Finish(start) => return start,
            EntryTurn::Continue(entry, action) => {
                let event = match action {
                    EntryAction::Observe => EntryEvent::Observed(observations.next().unwrap()),
                    EntryAction::RecoverAlignment | EntryAction::Consolidate => {
                        EntryEvent::Consolidated(OperationHeadState::Empty)
                    }
                    EntryAction::RecoverOperation => {
                        EntryEvent::Reloaded { record: record(), view: header() }
                    }
                };
                turn = entry.turn(event);
            }
        }
    }
}

#[test]
fn bounded_plan_structurally_blocks_filesystem_before_head_alignment() {
    let plan = WorkspaceEntryPlan::blocked(Some("old".to_string()), head("new"));
    assert!(plan.is_ordered());
    assert_eq!(plan.item_count(), 3);
    assert!(matches!(
        plan.filesystem(),
        WorkspaceFilesystemPlan::BlockedUntilHeadAligned
    ));
}

#[test]
fn observation_token_compares_head_and_index() {
    let first = token("one", b"index-one");
    let second = token("one", b"index-two");
    assert!(!first.same(&second));
    assert!(first.same(&first.dup()));
}

#[test]
fn unstable_observation_retries_three_times_then_returns_remediation() {
    let start = enter(
        WorkspaceTxnMode::Observe,
        Some(checkpoint("stable")),
        vec![
            fake_git("stable", b"one"),
            fake_git("changed", b"two"),
            fake_git("stable", b"one"),
            fake_git("changed", b"three"),
            fake_git("stable", b"one"),
            fake_git("changed", b"four"),
        ],
    );
    let WorkspaceTxnStart::Remediation(WorkspaceRemediation::ConcurrentGitMutation {
        attempts,
        ..
    }) = start
    else {
        panic!("unstable observations must return retry remediation");
    };
    assert_eq!(attempts, MAX_WORKSPACE_TXN_ATTEMPTS);
}

#[test]
fn changed_first_attempt_is_discarded_and_second_stable_attempt_succeeds() {
    let start = enter(
        WorkspaceTxnMode::Observe,
        Some(checkpoint("stable")),
        vec![
            fake_git("stable", b"one"),
            fake_git("changed", b"two"),
            fake_git("stable", b"three"),
            fake_git("stable", b"three"),
        ],
    );
    let WorkspaceTxnStart::Ready(txn) = start else {
        panic!("the second stable attempt should succeed");
    };
    assert_eq!(txn.attempts(), 2);
}

#[test]
fn unsafe_state_appearing_on_reobservation_never_returns_ready() {
    let sequence = || {
        let mut git = fake_repository("stable", b"one");
        git.operation.markers.push(GitOperationMarkerObservation {
            marker: GitOperationMarker::RebaseApply,
            path: ".git/rebase-apply".to_string(),
            kind: GitAdminEntryKind::Directory,
        });
        WorkspaceGitObservation::Repository(Box::new(git))
    };
    let start = enter(
        WorkspaceTxnMode::Observe,
        Some(checkpoint("stable")),
        vec![fake_git("stable", b"one"), sequence(), sequence()],
    );
    assert!(matches!(
        start,
        WorkspaceTxnStart::Remediation(WorkspaceRemediation::GitOperationInProgress { .. })
    ));
}

#[test]
fn conflicted_index_stages_are_git_owned_and_cannot_be_forced() {
    let mut git = fake_repository("stable", b"conflict");
    git.index_stages = vec![1, 2, 3];
    let start = enter(
        WorkspaceTxnMode::Force,
        Some(checkpoint("stable")),
        vec![WorkspaceGitObservation::Repository(Box::new(git))],
    );
    let WorkspaceTxnStart::Remediation(WorkspaceRemediation::GitOperationInProgress {
        conflict_stages,
        disposition,
        ..
    }) = start
    else {
        panic!("conflicted index must return Git-owned remediation");
    };
    assert_eq!(conflict_stages, vec![1, 2, 3]);
    assert_eq!(disposition, GitOperationDisposition::ForceForbidden);
}

#[test]
fn changed_head_blocks_filesystem_phase_before_reconciliation() {
    let mut recorded = checkpoint("0000000000000000000000000000000000000000");
    recorded.git_head_symref = Some("refs/heads/main".to_string());
    recorded.git_index_tree = Some("tree".to_string());
    let start = enter(
        WorkspaceTxnMode::Reconcile,
        Some(recorded),
        vec![fake_git("stable", b"one")],
    );
    let WorkspaceTxnStart::Remediation(WorkspaceRemediation::Unanchored {
        state: UnanchoredWorkspace::HeadChanged { .. },
        plan,
        ..
    }) = start
    else {
        panic!("changed HEAD should require reconciliation");
    };
    assert!(plan.is_ordered());
    assert!(matches!(
        plan.head(),
        WorkspaceHeadPlan::ReconcileBeforeFilesystem { .. }
    ));
    assert_eq!(
        plan.filesystem(),
        WorkspaceFilesystemPlan::BlockedUntilHeadAligned
    );
    assert_eq!(plan.refs(), WorkspaceRefPlan::Deferred);
}

#[test]
fn observe_native_workspace_is_ready() {
    let start = enter(
        WorkspaceTxnMode::Observe,
        None,
        vec![
            WorkspaceGitObservation::NoGit { root: "/r".to_string() },
            WorkspaceGitObservation::NoGit { root: "/r".to_string() },
        ],
    );
    let WorkspaceTxnStart::Ready(txn) = start else {
        panic!("native workspace should be ready");
    };
    assert_eq!(txn.mode(), WorkspaceTxnMode::Observe);
    assert_eq!(txn.working_copy().text, "wc-1");
    assert_eq!(txn.view().id, txn.working_copy_record().desired_view);
    assert!(matches!(txn.git(), WorkspaceGitObservation::NoGit { .. }));
    assert!(txn.plan().is_ordered());
    assert!(txn.checkpoint().is_none());
    assert!(matches!(txn.operation_heads(), OperationHeadState::Empty));
}

#[test]
fn reconciling_takes_a_third_look() {
    let start = enter(
        WorkspaceTxnMode::Reconcile,
        Some(checkpoint("stable")),
        vec![
            fake_git("stable", b"one"),
            fake_git("stable", b"one"),
            fake_git("stable", b"one"),
        ],
    );
    let WorkspaceTxnStart::Ready(txn) = start else {
        panic!("a stable workspace should be ready");
    };
    assert_eq!(txn.attempts(), 1);
    let start = enter(
        WorkspaceTxnMode::Reconcile,
        Some(checkpoint("stable")),
        vec![
            fake_git("stable", b"one"),
            fake_git("stable", b"one"),
            fake_git("stable", b"late"),
        ],
    );
    assert!(matches!(
        start,
        WorkspaceTxnStart::Remediation(WorkspaceRemediation::ConcurrentGitMutation { attempts: 1, .. })
    ));
}

#[test]
fn diverged_heads_are_reported() {
    let repo = repository();
    let heads = || {
        OperationHeadState::Diverged(vec![
            OperationId(hash_of(b"a")),
            OperationId(hash_of(b"b")),
        ])
    };
    let turn = repo
        .begin_workspace_txn(WorkspaceTxnMode::Observe, heads(), None)
        .unwrap();
    let EntryTurn::Finish(WorkspaceTxnStart::Remediation(
        WorkspaceRemediation::OperationHeadsDiverged { heads: found },
    )) = turn
    else {
        panic!("diverged heads must be reported");
    };
    assert_eq!(found.len(), 2);
}

#[test]
fn authority_is_required() {
    let mut repo = repository();
    repo.working_copy = None;
    assert!(matches!(
        repo.begin_workspace_txn(WorkspaceTxnMode::Observe, OperationHeadState::Empty, None),
        Err(RepositoryError::WorkingCopyRequired)
    ));
    let mut repo = repository();
    repo.working_copies.clear();
    assert!(repo
        .begin_workspace_txn(WorkspaceTxnMode::Observe, OperationHeadState::Empty, None)
        .is_err());
    let mut repo = repository();
    repo.working_copies[0].desired_view = 17;
    let refused =
        repo.begin_workspace_txn(WorkspaceTxnMode::Observe, OperationHeadState::Empty, None);
    assert_eq!(refused.unwrap_err().message(), "View not found: id 17");
    let mut repo = repository();
    repo.views[0].state = ContentHash { hi: 1, lo: 1 };
    let refused =
        repo.begin_workspace_txn(WorkspaceTxnMode::Observe, OperationHeadState::Empty, None);
    assert!(matches!(
        refused,
        Err(RepositoryError::InvalidRepository { reason: InvalidReason::DesiredState { .. } })
    ));
}

#[test]
fn sequence_state_reports_a_disposition_for_each_mode() {
    for (mode, expected) in [
        (WorkspaceTxnMode::Observe, GitOperationDisposition::ObserveOnly),
        (WorkspaceTxnMode::Reconcile, GitOperationDisposition::FinishOrAbortInGit),
        (WorkspaceTxnMode::Force, GitOperationDisposition::ForceForbidden),
    ] {
        let mut git = fake_repository("stable", b"one");
        git.operation.markers.push(GitOperationMarkerObservation {
            marker: GitOperationMarker::MergeHead,
            path: ".git/MERGE_HEAD".to_string(),
            kind: GitAdminEntryKind::File,
        });
        let found = classify_git_state(
            mode,
            "dev",
            state(),
            &Some(checkpoint("stable")),
            &WorkspaceGitObservation::Repository(Box::new(git)),
        );
        let Some(WorkspaceRemediation::GitOperationInProgress { markers, disposition, .. }) = found
        else {
            panic!("merge state should return typed remediation");
        };
        assert!(markers.contains(&GitOperationMarker::MergeHead));
        assert_eq!(disposition, expected);
    }
}

#[test]
fn each_unanchored_state_is_told_apart() {
    let classify = |recorded: Option<WorkspaceCheckpoint>, git: WorkspaceGitRepositoryObservation| {
        let found = classify_git_state(
            WorkspaceTxnMode::Observe,
            "dev",
            state(),
            &recorded,
            &WorkspaceGitObservation::Repository(Box::new(git)),
        );
        match found {
            Some(WorkspaceRemediation::Unanchored { state, .. }) => Some(state),
            _ => None,
        }
    };
    let full = || {
        let mut recorded = checkpoint("stable");
        recorded.git_head_symref = Some("refs/heads/main".to_string());
        recorded.git_index_tree = Some("tree".to_string());
        recorded
    };
    assert!(classify(Some(full()), fake_repository("stable", b"one")).is_none());
    assert!(matches!(
        classify(None, fake_repository("stable", b"one")),
        Some(UnanchoredWorkspace::MissingCheckpoint)
    ));
    let mut git = fake_repository("stable", b"one");
    git.head = GitHeadObservation::Detached { oid: "stable".to_string() };
    assert!(matches!(
        classify(Some(full()), git),
        Some(UnanchoredWorkspace::DetachedHead { .. })
    ));
    let mut git = fake_repository("stable", b"one");
    git.head = GitHeadObservation::Unborn { symref: "refs/heads/main".to_string() };
    assert!(matches!(
        classify(Some(full()), git),
        Some(UnanchoredWorkspace::UnbornHead { .. })
    ));
    let mut git = fake_repository("stable", b"one");
    git.head = GitHeadObservation::MissingTarget { symref: "refs/heads/main".to_string() };
    assert!(matches!(
        classify(Some(full()), git),
        Some(UnanchoredWorkspace::MissingHeadTarget { .. })
    ));
    let mut git = fake_repository("stable", b"one");
    git.index_lock.kind = GitAdminEntryKind::File;
    assert!(matches!(
        classify(Some(full()), git),
        Some(UnanchoredWorkspace::IndexLocked { .. })
    ));
    let mut recorded = full();
    recorded.view = "other".to_string();
    assert!(matches!(
        classify(Some(recorded), fake_repository("stable", b"one")),
        Some(UnanchoredWorkspace::AtomicCheckpointDrift { .. })
    ));
    let mut recorded = full();
    recorded.git_head_symref = Some("refs/heads/old".to_string());
    assert!(matches!(
        classify(Some(recorded), fake_repository("stable", b"one")),
        Some(UnanchoredWorkspace::HeadSymrefChanged { .. })
    ));
    let mut recorded = full();
    recorded.git_tree = "old".to_string();
    assert!(matches!(
        classify(Some(recorded), fake_repository("stable", b"one")),
        Some(UnanchoredWorkspace::HeadTreeChanged { .. })
    ));
    let mut recorded = full();
    recorded.git_index_tree = Some("old".to_string());
    assert!(matches!(
        classify(Some(recorded), fake_repository("stable", b"one")),
        Some(UnanchoredWorkspace::IndexTreeChanged { .. })
    ));
    let missing = classify_git_state(
        WorkspaceTxnMode::Observe,
        "dev",
        state(),
        &Some(full()),
        &WorkspaceGitObservation::NoGit { root: "/r".to_string() },
    );
    assert!(matches!(
        missing,
        Some(WorkspaceRemediation::Unanchored { state: UnanchoredWorkspace::GitRepositoryMissing, .. })
    ));
}

#[test]
fn legacy_checkpoints_are_completed() {
    let accepted = accept_checkpoint(WorkspaceCheckpoint {
        version: 1,
        view: "dev".to_string(),
        atomic_state: "state".to_string(),
        git_head_symref: None,
        git_head: "head".to_string(),
        git_tree: "tree".to_string(),
        git_index_tree: None,
        git_index_digest: None,
    })
    .unwrap();
    assert_eq!(accepted.version, 1);
    assert_eq!(accepted.git_head_symref.as_deref(), Some("refs/heads/dev"));
    assert_eq!(accepted.git_index_tree.as_deref(), Some("tree"));
    let refused = accept_checkpoint(WorkspaceCheckpoint { version: 3, ..accepted });
    let Err(RepositoryError::InvalidRepository { reason: InvalidReason::Message(reason) }) = refused
    else {
        panic!("an unknown version must be refused");
    };
    assert_eq!(reason, "unsupported bridge checkpoint version 3");
}

#[test]
fn detached_heads_name_no_branch() {
    assert_eq!(head_symref(&head("one")), Some("refs/heads/main".to_string()));
    assert_eq!(head_symref(&GitHeadObservation::Detached { oid: "one".to_string() }), None);
}
