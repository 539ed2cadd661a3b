use atomic_repository::disk::{
    create_directory_effect_path, directory_content, filesystem_directory_value,
    is_absent_path_error, observe_path, plain_directory_content, remove_entry_for_recovery,
    remove_filesystem_effect_path,
    DirectoryEntry, EntryError, EntryProbe, RemovalStep,
};
use atomic_repository::effect_paths::{
    backup_entry_path, filesystem_effect_path, resolve_without_symlink_parents,
    validate_relative_path,
};
use atomic_repository::effects::{
    classify_effect_lease, EffectPlan, EffectTarget, EffectValue, FileKind, FileState,
    LeaseClassification, Observation, OperationId, OperationRefusal, WorkingCopyStateRef,
};
use atomic_repository::operation::{
    append_rejected_effect_outcome, append_successful_effect_outcome, completed_ordinals,
    ensure_working_copy_anchor, execute_filesystem_effect,
    finalize_operation_verified, prepare_switch_operation, record_pending_filesystem_effect,
    recover_incomplete_operation, recovery_head, settle_filesystem_effect, AnchorPlan,
    DiskAction, EffectReceiptKind, EffectReceiptPayload, EffectStep, HeadState, Operation,
    OperationKind, OperationPayload, RecoveryPlan, RepoStateRef,
};
use atomic_repository::recovery::inverse_recovery_effects;
use atomic_repository::replay::{
    backup_marker, backup_places, check_replay, plan_backup, replay_step, settle_replay, verify_backup,
    BackupAction, BackupEntry, ReplayStep, RestoreAction,
};
use atomic_repository::types::{ContentHash, WorkingCopyId};

fn hash(n: u64) -> ContentHash {
    ContentHash { hi: 2, lo: n as u128 }
}

fn wc() -> WorkingCopyId {
    WorkingCopyId { text: "wc-1".to_string() }
}

fn file(n: u64) -> EffectValue {
    EffectValue::File(FileState { kind: FileKind::Regular, mode: 0o644, content: hash(n) })
}

fn path(name: &str) -> EffectTarget {
    EffectTarget::FilesystemPath { path: name.to_string() }
}

fn effect(ordinal: u32, name: &str, old: EffectValue, new: EffectValue) -> EffectPlan {
    EffectPlan { ordinal, target: path(name), expected_old: old, expected_new: new }
}

fn seen(name: &str, value: EffectValue) -> Observation {
    Observation { target: path(name), value }
}

fn state() -> RepoStateRef {
    RepoStateRef {
        view: None,
        working_copy: Some(WorkingCopyStateRef {
            id: wc(),
            location_fingerprint: hash(1),
            desired_view: "dev".to_string(),
            desired_state: hash(2),
            materialized_state: hash(2),
            materialized_manifest: hash(2),
        }),
        git: None,
    }
}

fn operation(id: u64, kind: OperationKind, parents: Vec<OperationId>, effects: Vec<EffectPlan>) -> Operation {
    Operation {
        id: OperationId(hash(id)),
        payload: OperationPayload {
            parents,
            kind,
            working_copy: Some(wc()),
            before: state(),
            after: state(),
            effects,
            actor: "test".to_string(),
            timestamp_ms: 77,
        },
    }
}

#[test]
fn leases_are_classified() {
    assert_eq!(classify_effect_lease(&file(1), &file(1), &file(2)), LeaseClassification::Apply);
    assert_eq!(
        classify_effect_lease(&file(2), &file(1), &file(2)),
        LeaseClassification::AlreadyApplied
    );
    assert_eq!(classify_effect_lease(&file(3), &file(1), &file(2)), LeaseClassification::Diverged);
}

#[test]
fn effect_paths_stay_below_their_base() {
    assert_eq!(
        validate_relative_path("a/b", false).unwrap(),
        vec!["a".to_string(), "b".to_string()]
    );
    assert_eq!(validate_relative_path("", false), Err(OperationRefusal::EmptyPath));
    assert_eq!(validate_relative_path("/a", false), Err(OperationRefusal::UnsafePath));
    assert_eq!(validate_relative_path("a/../b", false), Err(OperationRefusal::UnsafePath));
    assert_eq!(validate_relative_path(".git/config", false), Err(OperationRefusal::VcsPath));
    let parts = vec!["link".to_string(), "x".to_string()];
    assert_eq!(
        resolve_without_symlink_parents("/r", &parts, &vec!["/r/link".to_string()]),
        Err(OperationRefusal::SymlinkParent)
    );
    assert_eq!(
        filesystem_effect_path("/r", "/r/.atomic", &wc(), &path("a/b"), &Vec::new()),
        Ok(Some("/r/a/b".to_string()))
    );
    assert!(backup_entry_path("/b", 7).starts_with("/b"));
}

#[test]
fn a_switch_is_prepared_against_its_leases() {
    let parent = OperationId(hash(90));
    let verified = |operation: OperationId| EffectReceiptPayload {
        operation,
        effect_ordinal: None,
        attempt: 0,
        kind: EffectReceiptKind::Verified,
        observed_old: None,
        observed_new: None,
        timestamp_ms: 0,
    };
    let prepare = |heads: Vec<OperationId>, receipts: Vec<EffectReceiptPayload>, observed: EffectValue| {
        prepare_switch_operation(
            &wc(),
            &state(),
            &state(),
            vec![effect(0, "a", file(1), file(2))],
            "test",
            5,
            &heads,
            parent,
            &receipts,
            &vec![seen("a", observed)],
        )
    };
    let payload = prepare(vec![parent], vec![verified(parent)], file(1)).unwrap();
    assert_eq!(payload.kind, OperationKind::SwitchView);
    assert_eq!(payload.parents, vec![parent]);
    assert!(matches!(
        prepare(vec![parent], vec![verified(parent)], file(9)),
        Err(OperationRefusal::LeaseDiverged { ordinal: 0 })
    ));
    assert!(matches!(
        prepare(vec![parent], Vec::new(), file(1)),
        Err(OperationRefusal::IncompleteHead)
    ));
    assert!(matches!(
        prepare(vec![OperationId(hash(91))], vec![verified(parent)], file(1)),
        Err(OperationRefusal::HeadChanged)
    ));
    assert!(matches!(
        prepare(vec![parent, OperationId(hash(91))], vec![verified(parent)], file(1)),
        Err(OperationRefusal::MultipleHeads { count: 2 })
    ));
}

#[test]
fn anchors_are_made_once() {
    let created = ensure_working_copy_anchor(&wc(), &state(), &Vec::new()).unwrap();
    let AnchorPlan::Create(payload) = created else { panic!("an anchor should be created") };
    assert_eq!(payload.kind, OperationKind::Anchor);
    assert!(payload.effects.is_empty());
    let head = OperationId(hash(5));
    assert!(matches!(
        ensure_working_copy_anchor(&wc(), &state(), &vec![head]),
        Ok(AnchorPlan::Existing(found)) if found == head
    ));
}

#[test]
fn effects_are_executed_and_verified() {
    let op = operation(1, OperationKind::SwitchView, vec![], vec![effect(0, "a", file(1), file(2))]);
    let step = execute_filesystem_effect(&op, &wc(), 0, &file(1), Some(hash(2))).unwrap();
    let EffectStep::Perform(DiskAction::Write { mode }) = step else {
        panic!("a file should be written");
    };
    assert_eq!(mode, 0o644);
    assert!(matches!(
        execute_filesystem_effect(&op, &wc(), 0, &file(1), None),
        Err(OperationRefusal::NeedsContent { ordinal: 0 })
    ));
    assert!(matches!(
        execute_filesystem_effect(&op, &wc(), 0, &file(1), Some(hash(3))),
        Err(OperationRefusal::ContentMismatch { ordinal: 0 })
    ));
    assert!(matches!(
        execute_filesystem_effect(&op, &wc(), 0, &file(9), Some(hash(2))),
        Ok(EffectStep::Reject(receipt)) if receipt.kind == EffectReceiptKind::LeaseRejected
    ));
    let pending = settle_filesystem_effect(&op, 0, &file(1), &file(2)).unwrap();
    assert!(pending.mutated());
    let (receipt, mutated) = record_pending_filesystem_effect(&op, &wc(), pending).unwrap();
    assert!(mutated);
    assert_eq!(receipt.kind, EffectReceiptKind::Applied);
    assert_eq!(receipt.timestamp_ms, op.payload.timestamp_ms);
    let receipts = vec![receipt];
    assert_eq!(completed_ordinals(&receipts), vec![0]);
    let done = finalize_operation_verified(&op, &wc(), &receipts, &vec![seen("a", file(2))]).unwrap();
    assert_eq!(done.kind, EffectReceiptKind::Verified);
    assert!(matches!(
        finalize_operation_verified(&op, &wc(), &Vec::new(), &vec![seen("a", file(2))]),
        Err(OperationRefusal::Unfinished { ordinal: 0 })
    ));
    assert!(matches!(
        finalize_operation_verified(&op, &wc(), &receipts, &vec![seen("a", file(1))]),
        Err(OperationRefusal::FinalMismatch { .. })
    ));
}

#[test]
fn recovery_inverts_what_was_reached() {
    let effects = vec![
        effect(0, "a", file(1), file(2)),
        effect(1, "b", EffectValue::Absent, file(3)),
    ];
    let inverse = inverse_recovery_effects(
        &effects,
        &wc(),
        &vec![0],
        &vec![seen("a", file(2)), seen("b", EffectValue::Absent)],
    )
    .unwrap();
    assert_eq!(inverse.len(), 1);
    assert!(inverse[0].expected_old.same(&file(2)));
    assert!(inverse[0].expected_new.same(&file(1)));
    let diverged = inverse_recovery_effects(
        &effects,
        &wc(),
        &Vec::new(),
        &vec![seen("a", file(8)), seen("b", EffectValue::Absent)],
    );
    assert!(matches!(diverged, Err(OperationRefusal::DivergedBeforeRecovery { ordinal: 0 })));
}

#[test]
fn incomplete_heads_are_recovered() {
    assert!(matches!(recovery_head(&Vec::new()), Ok(HeadState::NoOperation)));
    let op = operation(1, OperationKind::SwitchView, vec![], vec![effect(0, "a", file(1), file(2))]);
    let plan =
        recover_incomplete_operation(&op, &wc(), &Vec::new(), &vec![seen("a", file(2))]).unwrap();
    let RecoveryPlan::Start(payload) = plan else { panic!("a recovery should start") };
    assert_eq!(payload.kind, OperationKind::Recover);
    assert_eq!(payload.parents, vec![op.id]);
    let recovery = operation(2, OperationKind::Recover, vec![op.id], Vec::new());
    assert!(matches!(
        recover_incomplete_operation(&recovery, &wc(), &Vec::new(), &Vec::new()),
        Ok(RecoveryPlan::Resume { original }) if original == op.id
    ));
}

#[test]
fn a_recovery_is_replayed_from_its_backup() {
    let op = operation(1, OperationKind::SwitchView, vec![], vec![effect(0, "a", file(1), file(2))]);
    let recovery =
        operation(2, OperationKind::Recover, vec![op.id], vec![effect(0, "a", file(2), file(1))]);
    let step = replay_step(&op, &recovery, 0, &wc(), &Vec::new(), &file(2)).unwrap();
    let ReplayStep::Restore { action, shelf_lock } = step else {
        panic!("the old file should be restored");
    };
    assert!(!shelf_lock);
    assert!(matches!(action, RestoreAction::WriteRegular { ordinal: 0, mode: 0o644 }));
    let kept = replay_step(&op, &recovery, 0, &wc(), &Vec::new(), &file(1)).unwrap();
    assert!(matches!(kept, ReplayStep::Keep { .. }));
    assert!(replay_step(&op, &recovery, 0, &wc(), &Vec::new(), &file(9)).is_err());
    assert!(settle_replay(&recovery, 0, &file(2), &file(1)).is_ok());
    assert!(settle_replay(&recovery, 0, &file(2), &file(5)).is_err());
}

/// Replays a recovery on values in memory, from the given effect on.
fn replay_all(op: &Operation, recovery: &Operation, world: &mut Vec<Observation>) -> usize {
    let mut restored = 0;
    for (i, plan) in recovery.payload.effects.iter().enumerate() {
        let at = world.iter().position(|seen| seen.target.same(&plan.target)).unwrap();
        match replay_step(op, recovery, i, &wc(), &Vec::new(), &world[at].value).unwrap() {
            ReplayStep::Restore { .. } => {
                world[at].value = match &plan.expected_new {
                    EffectValue::Absent => EffectValue::Absent,
                    _ => file(1),
                };
                restored += 1;
            }
            _ => {}
        }
    }
    restored
}

#[test]
fn interrupted_replays_end_like_whole_ones() {
    let op = operation(
        1,
        OperationKind::SwitchView,
        vec![],
        vec![effect(0, "a", file(1), file(2)), effect(1, "b", EffectValue::Absent, file(3))],
    );
    let recovery = operation(
        2,
        OperationKind::Recover,
        vec![op.id],
        vec![effect(0, "b", file(3), EffectValue::Absent), effect(1, "a", file(2), file(1))],
    );
    for interrupted_after in 0..3 {
        let b = if interrupted_after > 0 { EffectValue::Absent } else { file(3) };
        let a = if interrupted_after > 1 { file(1) } else { file(2) };
        let mut world = vec![seen("a", a), seen("b", b)];
        assert!(check_replay(&recovery, &wc(), &world).is_ok());
        assert_eq!(replay_all(&op, &recovery, &mut world), 2 - interrupted_after);
        assert!(world[0].value.same(&file(1)));
        assert!(world[1].value.same(&EffectValue::Absent));
    }
    let astray = vec![seen("a", file(9)), seen("b", file(3))];
    assert!(check_replay(&recovery, &wc(), &astray).is_err());
}

#[test]
fn backups_hold_the_old_values() {
    let effects = vec![
        effect(0, "a", file(1), file(2)),
        effect(1, "b", EffectValue::Absent, file(3)),
    ];
    assert_eq!(backup_places(&effects, &wc()).unwrap(), vec![0, 1]);
    assert!(matches!(plan_backup(&effects[0], &file(1)), Ok(BackupAction::CopyValue)));
    assert!(matches!(
        plan_backup(&effects[1], &EffectValue::Absent),
        Ok(BackupAction::RecordAbsence)
    ));
    assert!(plan_backup(&effects[0], &file(9)).is_err());
    let broken = verify_backup(&effects, &b"torn".to_vec(), &Vec::new());
    assert!(matches!(broken, Err(OperationRefusal::InvalidBackupMarker)));
    let missing = verify_backup(
        &effects,
        &backup_marker(),
        &vec![BackupEntry { ordinal: 0, absent: None, value: Some(file(9)) }],
    );
    assert!(matches!(missing, Err(OperationRefusal::BackupMismatch { ordinal: 0 })));
}

#[test]
fn disk_entries_are_observed() {
    assert!(is_absent_path_error(EntryError::NotADirectory));
    assert!(!is_absent_path_error(EntryError::Other));
    let value = observe_path("a", EntryProbe::Regular, 0o100755, hash(4), "").unwrap();
    let EffectValue::File(found) = value else { panic!() };
    assert_eq!(found.mode, 0o755);
    assert_eq!(found.kind, FileKind::Regular);
    assert!(matches!(
        observe_path("a", EntryProbe::Failed(EntryError::NotFound), 0, hash(0), "gone"),
        Ok(EffectValue::Absent)
    ));
    assert_eq!(
        observe_path("a/b", EntryProbe::Special, 0, hash(0), "").unwrap_err().message(),
        "Invalid operation: operation cannot classify special filesystem entry 'a/b'"
    );
    let failed = EntryProbe::Failed(EntryError::Other);
    assert_eq!(
        observe_path("a", failed, 0, hash(0), "permission denied").unwrap_err().message(),
        "IO error: permission denied"
    );
    let EffectValue::File(found) = filesystem_directory_value(0o755, hash(6)) else { panic!() };
    assert_eq!(found.kind, FileKind::Directory);
}

#[test]
fn disk_entries_are_created_and_removed_with_care() {
    let missing = EntryProbe::Failed(EntryError::NotFound);
    let create = |probe: EntryProbe, parent_is_directory: bool| {
        create_directory_effect_path("a/b", "a", probe, parent_is_directory, "")
    };
    assert!(create(missing, true).is_ok());
    assert_eq!(
        create(missing, false).unwrap_err().message(),
        "Invalid operation: directory effect parent 'a' is not materialized"
    );
    assert_eq!(
        create(EntryProbe::Regular, true).unwrap_err().message(),
        "Invalid operation: refusing to replace existing entry 'a/b' with a directory"
    );
    assert_eq!(
        remove_filesystem_effect_path(EntryProbe::Directory, "").unwrap(),
        RemovalStep::RemoveEmptyDirectory
    );
    assert_eq!(
        remove_filesystem_effect_path(EntryProbe::Symlink, "").unwrap(),
        RemovalStep::RemoveFile
    );
    let recover = |probe: EntryProbe, exists: bool| {
        remove_entry_for_recovery(probe, "aside", exists, "")
    };
    assert_eq!(recover(EntryProbe::Directory, false).unwrap(), RemovalStep::MoveAside);
    assert_eq!(
        recover(EntryProbe::Directory, true).unwrap_err().message(),
        "Invalid operation: recovery tombstone already exists while target is present: aside"
    );
    assert_eq!(recover(missing, false).unwrap(), RemovalStep::Nothing);
}

#[test]
fn directories_are_hashed_in_the_order_of_their_names() {
    let entry = |name: &str, value: EffectValue| DirectoryEntry {
        name: name.as_bytes().to_vec(),
        value,
    };
    let bytes = directory_content(vec![
        entry("b", EffectValue::File(FileState { kind: FileKind::Symlink, mode: 0o777, content: ContentHash { hi: 0, lo: 2 } })),
        entry("a", EffectValue::File(FileState { kind: FileKind::Regular, mode: 0o644, content: ContentHash { hi: 1, lo: 0 } })),
    ])
    .unwrap();
    let mut expected = b"atomic:operation-directory:v1\0".to_vec();
    expected.extend_from_slice(&1u64.to_le_bytes());
    expected.extend_from_slice(b"a");
    expected.push(1);
    expected.extend_from_slice(&0o644u32.to_le_bytes());
    expected.extend_from_slice(&1u128.to_be_bytes());
    expected.extend_from_slice(&0u128.to_be_bytes());
    expected.extend_from_slice(&1u64.to_le_bytes());
    expected.extend_from_slice(b"b");
    expected.push(3);
    expected.extend_from_slice(&0o777u32.to_le_bytes());
    expected.extend_from_slice(&0u128.to_be_bytes());
    expected.extend_from_slice(&2u128.to_be_bytes());
    assert_eq!(bytes, expected);
    assert!(directory_content(vec![entry("gone", EffectValue::Absent)]).is_err());
}

#[test]
fn outcomes_are_appended_by_their_lease() {
    let op = operation(
        1,
        OperationKind::SwitchView,
        Vec::new(),
        vec![effect(0, "a.txt", file(1), file(2))],
    );
    let applied = append_successful_effect_outcome(&op, 0, file(1), file(2)).unwrap();
    assert_eq!(applied.kind, EffectReceiptKind::Applied);
    assert_eq!(applied.effect_ordinal, Some(0));
    let found = append_successful_effect_outcome(&op, 0, file(2), file(2)).unwrap();
    assert_eq!(found.kind, EffectReceiptKind::Recovered);
    assert_eq!(
        append_successful_effect_outcome(&op, 0, file(3), file(2)).unwrap_err(),
        OperationRefusal::LeaseDiverged { ordinal: 0 }
    );
    let rejected = append_rejected_effect_outcome(&op, 0, file(3), None).unwrap();
    assert_eq!(rejected.kind, EffectReceiptKind::LeaseRejected);
    assert_eq!(
        append_rejected_effect_outcome(&op, 1, file(3), None).unwrap_err(),
        OperationRefusal::NoSuchEffect { ordinal: 1 }
    );
}

#[test]
fn plain_directories_share_their_content() {
    assert_eq!(plain_directory_content(), b"atomic:filesystem-directory-entry:v1\0".to_vec());
}
