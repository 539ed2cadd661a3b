use atomic_repository::error::{ChangeName, RepositoryError};
use atomic_repository::effects::{EffectTarget, EffectValue};
use atomic_repository::pristine::{ChangeRecord, Pristine, Visibility};
use atomic_repository::provenance_relink::{
    is_well_sized, sign_provenance_relink, verify_provenance_relink_signature, SignatureVerdict,
};
use atomic_repository::repository::{
    ChangeKind, Repository, StoredChange, ViewScope, ViewState, WorkingCopyRecord,
};
use atomic_repository::snapshot::{
    ChangeBody, ChangeFile, RecordLifecycle, RecordOptions, SnapshotRetentionOutcome,
    SnapshotRetentionPolicy, ViewAction,
};
use atomic_repository::types::{ContentHash, NodeId, WorkingCopyId};

fn hash(n: u64) -> ContentHash {
    ContentHash { hi: 1, lo: n as u128 }
}

fn wc() -> WorkingCopyId {
    WorkingCopyId { text: "wc-1".to_string() }
}

fn shown() -> Visibility {
    Visibility { changes: Vec::new(), live: Vec::new(), rendered: Vec::new(), attributes: Vec::new() }
}

fn view(id: u64, name: &str, scope: ViewScope, parent: Option<u64>, log: &[u64]) -> ViewState {
    ViewState {
        id,
        name: name.to_string(),
        scope,
        parent,
        state: hash(500 + id),
        changes: log.iter().map(|n| NodeId(*n)).collect(),
        visibility: Ok(shown()),
        claims: Ok(shown()),
        name_conflicts: Vec::new(),
        conflicts: Vec::new(),
    }
}

fn durable(n: u64, dependencies: &[u64]) -> StoredChange {
    StoredChange {
        hash: hash(n),
        kind: ChangeKind::Durable,
        supersedes: None,
        dependencies: dependencies.iter().map(|d| hash(*d)).collect(),
        contents: Vec::new(),
    }
}

fn snapshot(n: u64, supersedes: Option<u64>) -> StoredChange {
    StoredChange {
        kind: ChangeKind::Snapshot { working_copy: wc() },
        supersedes: supersedes.map(hash),
        ..durable(n, &[1])
    }
}

/// A repository whose shared view holds change 1.
fn repository(changes: Vec<StoredChange>, views: Vec<ViewState>) -> Repository {
    let mut all = vec![view(1, "dev", ViewScope::Shared, None, &[1])];
    all.extend(views);
    let mut stored = vec![durable(1, &[])];
    stored.extend(changes);
    Repository {
        root: "/r".to_string(),
        canonical_root: None,
        current_view: "dev".to_string(),
        working_copy: Some(wc()),
        pristine: Pristine {
            changes: (1..10)
                .map(|n| ChangeRecord {
                    hash: hash(n),
                    id: NodeId(n),
                    dependencies: Some(Vec::new()),
                })
                .collect(),
            tree: Vec::new(),
            rev_tree: Vec::new(),
            inodes: Vec::new(),
            rev_inodes: Vec::new(),
            directories: Vec::new(),
        },
        journal: Vec::new(),
        views: all,
        changes: stored,
        load_faults: Vec::new(),
        edges: Vec::new(),
        working_copies: vec![WorkingCopyRecord {
            id: wc(),
            desired_view: 1,
            desired_state: hash(501),
            materialized_state: hash(501),
            materialized_manifest: hash(501),
        }],
        tags: Vec::new(),
        file_index: Vec::new(),
    }
}

fn private(log: &[u64]) -> ViewState {
    view(2, "wc/wc-1", ViewScope::Draft, Some(1), log)
}

fn options() -> RecordOptions {
    RecordOptions { save_to_store: true, apply_after_record: true }
}

#[test]
fn a_first_snapshot_needs_a_private_view() {
    assert_eq!(Repository::snapshot_view_name(&wc()), "wc/wc-1");
    let repo = repository(Vec::new(), Vec::new());
    let (state, action) = repo.ensure_snapshot_view(&wc()).unwrap();
    assert_eq!(state.view, "wc/wc-1");
    assert_eq!(state.baseline_view, "dev");
    assert_eq!(state.head, None);
    assert_eq!(state.remainder, None);
    assert_eq!(action, ViewAction::Create { parent: 1 });
    let status = repo.snapshot_status(&wc()).unwrap();
    assert!(!status.is_active());
    assert_eq!(status.superseded_snapshots, 0);
}

#[test]
fn a_snapshot_replaces_the_one_before_it() {
    let repo = repository(vec![snapshot(2, None)], vec![private(&[2])]);
    let record = repo.snapshot(&wc(), options()).unwrap();
    assert_eq!(record.action, ViewAction::Keep);
    assert_eq!(record.lifecycle.target_view(&record.baseline_view), "wc/wc-1");
    assert_eq!(record.lifecycle.removal(), Some(("wc/wc-1".to_string(), hash(2))));
    let (kind, supersedes) = record.lifecycle.classify();
    assert!(matches!(kind, ChangeKind::Snapshot { .. }));
    assert_eq!(supersedes, Some(hash(2)));
}

#[test]
fn a_remainder_is_replaced_but_not_superseded() {
    let repo = repository(vec![durable(2, &[1])], vec![private(&[2])]);
    let status = repo.snapshot_status(&wc()).unwrap();
    assert!(status.is_active());
    assert_eq!(status.remainder, Some(hash(2)));
    assert_eq!(status.snapshot, None);
    let record = repo.snapshot(&wc(), options()).unwrap();
    assert_eq!(record.lifecycle.removal(), Some(("wc/wc-1".to_string(), hash(2))));
    assert_eq!(record.lifecycle.classify().1, None);
    let refused = repo.promote_snapshot(&wc(), options()).unwrap_err();
    assert_eq!(
        refused.message(),
        "Invalid operation: snapshot view 'wc/wc-1' has no snapshot to promote"
    );
}

#[test]
fn a_promotion_joins_the_baseline() {
    let repo = repository(vec![snapshot(2, None)], vec![private(&[2])]);
    let record = repo.promote_snapshot(&wc(), options()).unwrap();
    assert_eq!(record.lifecycle.target_view(&record.baseline_view), "dev");
    assert_eq!(record.lifecycle.removal(), Some(("wc/wc-1".to_string(), hash(2))));
    let (kind, supersedes) = record.lifecycle.classify();
    assert!(matches!(kind, ChangeKind::Durable));
    assert_eq!(supersedes, None);
    let body = |contents: &str| ChangeBody {
        hunks: b"hunks".to_vec(),
        contents: contents.as_bytes().to_vec(),
        file_ops: b"ops".to_vec(),
    };
    assert!(record
        .lifecycle
        .verify_promotion_content(&body("snapshotted"), &body("snapshotted"))
        .is_ok());
    let stale = record
        .lifecycle
        .verify_promotion_content(&body("newer unsnapshotted content"), &body("snapshotted"))
        .unwrap_err();
    assert!(stale.message().contains("create a new snapshot"));
    assert!(RecordLifecycle::Durable
        .verify_promotion_content(&body("a"), &body("b"))
        .is_ok());
}

#[test]
fn snapshots_are_atomic() {
    let repo = repository(Vec::new(), Vec::new());
    let loose = RecordOptions { save_to_store: true, apply_after_record: false };
    assert_eq!(
        repo.snapshot(&wc(), loose).unwrap_err().message(),
        "Invalid operation: snapshots must be saved and applied atomically"
    );
    assert_eq!(
        repo.promote_snapshot(&wc(), loose).unwrap_err().message(),
        "Invalid operation: snapshot promotion must be saved and applied atomically"
    );
}

#[test]
fn private_views_are_kept_in_order() {
    let told = |views: Vec<ViewState>, changes: Vec<StoredChange>| {
        match repository(changes, views).ensure_snapshot_view(&wc()) {
            Ok((_, action)) => Ok(action),
            Err(error) => Err(error.message()),
        }
    };
    assert_eq!(
        told(vec![view(2, "wc/wc-1", ViewScope::Shared, Some(1), &[])], Vec::new()),
        Err("Invalid operation: snapshot view 'wc/wc-1' must remain Draft".to_string())
    );
    assert_eq!(
        told(vec![view(2, "wc/wc-1", ViewScope::Draft, Some(7), &[])], Vec::new()),
        Ok(ViewAction::Reparent { parent: 1 })
    );
    assert_eq!(
        told(vec![view(2, "wc/wc-1", ViewScope::Draft, Some(7), &[2])], vec![snapshot(2, None)]),
        Err("Invalid operation: snapshot view 'wc/wc-1' still contains a snapshot for a different baseline".to_string())
    );
    assert_eq!(
        told(vec![private(&[2, 3])], vec![snapshot(2, None), snapshot(3, None)]),
        Err("Invalid operation: snapshot view 'wc/wc-1' contains more than one direct change".to_string())
    );
    let mut foreign = snapshot(2, None);
    foreign.kind = ChangeKind::Snapshot {
        working_copy: WorkingCopyId { text: "wc-2".to_string() },
    };
    assert!(told(vec![private(&[2])], vec![foreign]).unwrap_err().contains("not owned"));
    assert!(told(vec![private(&[2])], Vec::new()).unwrap_err().contains("Change not found"));
    assert!(told(vec![private(&[77])], Vec::new()).unwrap_err().contains("77"));
}

#[test]
fn superseded_snapshots_are_counted() {
    let repo = repository(
        vec![snapshot(2, None), snapshot(3, Some(2)), snapshot(4, Some(3))],
        vec![private(&[4])],
    );
    let status = repo.snapshot_status(&wc()).unwrap();
    assert_eq!(status.snapshot, Some(hash(4)));
    assert_eq!(status.superseded_snapshots, 2);
    assert_eq!(repo.superseded_chain(hash(4)).unwrap(), vec![hash(3), hash(2)]);
}

#[test]
fn superseding_circles_are_refused() {
    let repo = repository(
        vec![snapshot(2, Some(3)), snapshot(3, Some(2)), snapshot(4, Some(3))],
        vec![private(&[4])],
    );
    assert!(repo.snapshot_status(&wc()).unwrap_err().message().contains("cycle"));
}

#[test]
fn retention_keeps_the_latest_and_what_views_hold() {
    assert_eq!(SnapshotRetentionPolicy::default().keep_superseded, 8);
    let chain = || {
        vec![
            snapshot(2, None),
            snapshot(3, Some(2)),
            snapshot(4, Some(3)),
            snapshot(5, Some(4)),
        ]
    };
    let repo = repository(chain(), vec![private(&[5])]);
    let outcome = repo
        .prune_superseded_snapshots(&wc(), SnapshotRetentionPolicy { keep_superseded: 1 })
        .unwrap();
    assert_eq!(outcome.retained, vec![hash(4)]);
    assert_eq!(outcome.deleted, vec![hash(3), hash(2)]);
    let repo = repository(
        chain(),
        vec![private(&[5]), view(3, "other", ViewScope::Draft, None, &[3])],
    );
    let outcome = repo
        .prune_superseded_snapshots(&wc(), SnapshotRetentionPolicy { keep_superseded: 1 })
        .unwrap();
    assert_eq!(outcome.deleted, vec![hash(2)]);
    let repo = repository(Vec::new(), Vec::new());
    let outcome = repo
        .prune_superseded_snapshots(&wc(), SnapshotRetentionPolicy::default())
        .unwrap();
    assert!(outcome.retained.is_empty() && outcome.deleted.is_empty());
    assert!(SnapshotRetentionOutcome::default().retained.is_empty());
}

#[test]
fn pruned_files_are_deleted_through_leases() {
    let repo = repository(Vec::new(), Vec::new());
    let file = |path: &str| ChangeFile {
        path: path.to_string(),
        mode: 0o100644,
        content: hash(40),
    };
    let effects = repo.retention_effects(&vec![file("/r/.atomic/changes/AB")]).unwrap();
    assert_eq!(effects.len(), 1);
    assert_eq!(effects[0].ordinal, 0);
    let EffectTarget::FilesystemPath { path } = &effects[0].target else { panic!() };
    assert_eq!(path, ".atomic/changes/AB");
    let EffectValue::File(state) = &effects[0].expected_old else { panic!() };
    assert_eq!(state.mode, 0o644);
    assert!(matches!(effects[0].expected_new, EffectValue::Absent));
    assert!(repo.retention_effects(&vec![file("/elsewhere/AB")]).is_err());
}

#[test]
fn snapshots_enter_their_private_view_only() {
    let repo = repository(
        Vec::new(),
        vec![private(&[]), view(3, "other-private", ViewScope::Draft, Some(1), &[])],
    );
    let kind = ChangeKind::Snapshot { working_copy: wc() };
    assert!(repo.ensure_change_allowed_in_view("wc/wc-1", &kind).is_ok());
    assert_eq!(
        repo.ensure_change_allowed_in_view("dev", &kind).unwrap_err().message(),
        "Invalid operation: snapshot changes cannot enter Shared view 'dev'"
    );
    assert_eq!(
        repo.ensure_change_allowed_in_view("other-private", &kind).unwrap_err().message(),
        "Invalid operation: snapshot owned by working copy wc-1 can only enter private view 'wc/wc-1'"
    );
    assert!(repo.ensure_change_allowed_in_view("dev", &ChangeKind::Durable).is_ok());
    assert!(matches!(
        repo.ensure_change_allowed_in_view("gone", &ChangeKind::Durable),
        Err(RepositoryError::ViewNotFound { .. })
    ));
}

#[test]
fn views_with_snapshots_stay_private() {
    let repo = repository(vec![snapshot(2, None)], vec![private(&[2])]);
    assert!(repo.ensure_view_has_no_snapshots(&repo.views[0]).is_ok());
    assert!(repo
        .ensure_view_has_no_snapshots(&repo.views[1])
        .unwrap_err()
        .message()
        .contains("cannot become Shared"));
}

#[test]
fn exchange_covers_all_dependencies() {
    let repo = repository(
        vec![durable(2, &[1]), durable(3, &[2, 1]), snapshot(4, None), durable(5, &[3, 4])],
        Vec::new(),
    );
    assert!(repo.ensure_exchangeable_change(hash(3)).is_ok());
    assert!(repo
        .ensure_exchangeable_change(hash(5))
        .unwrap_err()
        .message()
        .contains("private snapshot"));
    assert!(matches!(
        repo.ensure_exchangeable_change(hash(9)),
        Err(RepositoryError::ChangeNotFound { hash: ChangeName::Hash(_) })
    ));
}

#[test]
fn relinks_are_checked_before_they_are_handed_out() {
    let repo = repository(vec![durable(2, &[1])], Vec::new());
    let unsigned = |explained: bool, replacement: u64, signer: usize| {
        repo.create_provenance_relink(
            hash(1),
            hash(30),
            hash(replacement),
            explained,
            vec![9; signer],
            42,
        )
    };
    assert!(unsigned(false, 2, 32).unwrap_err().message().contains("does not explain"));
    assert!(matches!(unsigned(true, 8, 32), Err(RepositoryError::ChangeNotFound { hash: ChangeName::Hash(_) })));
    let relink = unsigned(true, 2, 32).unwrap();
    assert_eq!(relink.signature, vec![0; 64]);
    assert!(is_well_sized(&relink));
    let signed =
        sign_provenance_relink(relink, vec![5; 64], &SignatureVerdict::Accepted).unwrap();
    assert_eq!(signed.signature, vec![5; 64]);
    assert_eq!(
        verify_provenance_relink_signature(
            &signed,
            &SignatureVerdict::Rejected("forged".to_string())
        )
        .unwrap_err()
        .message(),
        "Invalid operation: invalid provenance relink signature: forged"
    );
    assert_eq!(
        verify_provenance_relink_signature(
            &signed,
            &SignatureVerdict::InvalidSigner("weak".to_string())
        )
        .unwrap_err()
        .message(),
        "Invalid operation: invalid provenance relink signer: weak"
    );
    let narrow = unsigned(true, 2, 31).unwrap();
    assert_eq!(
        verify_provenance_relink_signature(&narrow, &SignatureVerdict::Accepted)
            .unwrap_err()
            .message(),
        "Invalid operation: provenance relink signer must be 32 bytes, got 31"
    );
    let short = sign_provenance_relink(
        unsigned(true, 2, 32).unwrap(),
        vec![5; 63],
        &SignatureVerdict::Accepted,
    );
    assert_eq!(
        short.unwrap_err().message(),
        "Invalid operation: provenance relink signature must be 64 bytes"
    );
}

#[test]
fn a_private_view_in_order_stays_so() {
    let mut repo = repository(Vec::new(), Vec::new());
    let (first, action) = repo.ensure_snapshot_view(&wc()).unwrap();
    assert_eq!(action, ViewAction::Create { parent: 1 });
    repo.views.push(private(&[]));
    let (second, action) = repo.ensure_snapshot_view(&wc()).unwrap();
    assert_eq!(action, ViewAction::Keep);
    assert_eq!(first.view, second.view);
    assert_eq!(first.baseline_view, second.baseline_view);
    assert_eq!(first.head, second.head);
    assert_eq!(first.remainder, second.remainder);
}

#[test]
fn snapshots_in_a_row_supersede_each_other() {
    let mut repo = repository(Vec::new(), vec![private(&[])]);
    let record = repo.snapshot(&wc(), options()).unwrap();
    assert_eq!(record.lifecycle.removal(), None);
    let (kind, supersedes) = record.lifecycle.classify();
    assert!(matches!(kind, ChangeKind::Snapshot { working_copy } if working_copy.text == "wc-1"));
    assert_eq!(supersedes, None);
    // The first snapshot enters the private view, the second takes its place.
    repo.changes.push(snapshot(2, None));
    repo.views[1].changes = vec![NodeId(2)];
    let record = repo.snapshot(&wc(), options()).unwrap();
    assert_eq!(record.lifecycle.classify().1, Some(hash(2)));
    assert_eq!(record.lifecycle.removal(), Some(("wc/wc-1".to_string(), hash(2))));
    repo.changes.push(snapshot(3, Some(2)));
    repo.views[1].changes = vec![NodeId(3)];
    let status = repo.snapshot_status(&wc()).unwrap();
    assert_eq!(status.snapshot, Some(hash(3)));
    assert_eq!(status.superseded_snapshots, 1);
    // A promotion leaves the private view empty.
    let record = repo.promote_snapshot(&wc(), options()).unwrap();
    assert_eq!(record.lifecycle.removal(), Some(("wc/wc-1".to_string(), hash(3))));
    repo.changes.push(durable(4, &[1]));
    repo.views[0].changes.push(NodeId(4));
    repo.views[1].changes.clear();
    let (state, action) = repo.ensure_snapshot_view(&wc()).unwrap();
    assert_eq!(action, ViewAction::Keep);
    assert_eq!((state.head, state.remainder), (None, None));
}
