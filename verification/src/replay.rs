//! Backups of what an operation changes on disk, and the replay of its
//! recovery from them.

use crate::bytes::same_bytes;
use crate::effect_paths;
use crate::effects;
use crate::effects::{
    EffectPlan, EffectTarget, EffectValue, FileKind, LeaseClassification, Observation,
    OperationRefusal, PlanModel, TargetModel, ValueModel, WorkingCopyStateModel,
    WorkingCopyStateRef,
};
use crate::operation;
use crate::operation::{EffectReceiptKind, EffectReceiptPayload, Operation};
use crate::pristine;
use crate::recovery;
use crate::types::WorkingCopyId;
use vstd::prelude::*;

verus! {

/// Content of a backup's completion marker and of its records of absence:
/// `atomic-operation-recovery-v1` and a line feed.
pub open spec fn backup_version() -> Seq<u8> {
    seq![
        97u8, 116u8, 111u8, 109u8, 105u8, 99u8, 45u8, 111u8, 112u8, 101u8, 114u8, 97u8, 116u8,
        105u8, 111u8, 110u8, 45u8, 114u8, 101u8, 99u8, 111u8, 118u8, 101u8, 114u8, 121u8, 45u8,
        118u8, 49u8, 10u8,
    ]
}

/// Content of a backup's completion marker and of its records of absence.
pub fn backup_marker() -> (bytes: Vec<u8>)
    ensures
        bytes@ == backup_version(),
{
    vec![
        97u8, 116u8, 111u8, 109u8, 105u8, 99u8, 45u8, 111u8, 112u8, 101u8, 114u8, 97u8, 116u8,
        105u8, 111u8, 110u8, 45u8, 114u8, 101u8, 99u8, 111u8, 118u8, 101u8, 114u8, 121u8, 45u8,
        118u8, 49u8, 10u8,
    ]
}

/// Whether effect `i` is the first on a path on disk: the one whose old value
/// is backed up.
pub open spec fn backs_up(effects: Seq<PlanModel>, i: int) -> bool {
    effects[i].target.on_disk() && recovery::last_on(effects, effects[i].target, i) is None
}

fn is_backed_up(effects: &Vec<EffectPlan>, i: usize) -> (answer: bool)
    requires
        i < effects@.len(),
    ensures
        answer == backs_up(effects::plan_models(effects@), i as int),
{
    assert(effects::plan_models(effects@)[i as int] == effects@[i as int]@);
    effects::is_filesystem_effect(&effects[i].target) && recovery::find_last_on(
        effects,
        &effects[i].target,
        i,
    ).is_none()
}

/// The places of the effects to back up from `i` on, after `found`.
pub open spec fn backup_from(
    effects: Seq<PlanModel>,
    working_copy: Seq<char>,
    i: int,
    found: Seq<int>,
) -> Result<Seq<int>, OperationRefusal>
    decreases effects.len() - i,
{
    if i < 0 || i >= effects.len() {
        Ok(found)
    } else if !backs_up(effects, i) {
        backup_from(effects, working_copy, i + 1, found)
    } else if effect_paths::target_refusal(effects[i].target, working_copy) is Some {
        Err(effect_paths::target_refusal(effects[i].target, working_copy)->0)
    } else {
        backup_from(effects, working_copy, i + 1, found.push(i))
    }
}

/// The effects whose old values are to be backed up, in order.
pub fn backup_places(effects: &Vec<EffectPlan>, working_copy: &WorkingCopyId) -> (places: Result<
    Vec<usize>,
    OperationRefusal,
>)
    ensures
        match backup_from(effects::plan_models(effects@), working_copy@, 0, Seq::empty()) {
            Err(refusal) => places == Err::<Vec<usize>, OperationRefusal>(refusal),
            Ok(found) => places matches Ok(list) && list@.map_values(|k: usize| k as int) == found,
        },
{
    let ghost models = effects::plan_models(effects@);
    let ghost wide = |k: usize| k as int;
    let mut list: Vec<usize> = Vec::new();
    let mut i: usize = 0;
    proof {
        assert(list@.map_values(wide) =~= Seq::empty());
    }
    while i < effects.len()
        invariant
            i <= effects.len(),
            models == effects::plan_models(effects@),
            wide == (|k: usize| k as int),
            backup_from(models, working_copy@, 0, Seq::empty()) == backup_from(
                models,
                working_copy@,
                i as int,
                list@.map_values(wide),
            ),
        decreases effects.len() - i,
    {
        let ghost before = list@.map_values(wide);
        assert(models[i as int] == effects@[i as int]@);
        if is_backed_up(effects, i) {
            if let Some(refusal) = effect_paths::refuse_target(&effects[i].target, working_copy) {
                return Err(refusal);
            }
            list.push(i);
            assert(list@.map_values(wide) =~= before.push(i as int));
        }
        i = i + 1;
    }
    Ok(list)
}

/// Why an unfinished backup cannot be made again: the first backed-up effect
/// from `i` on whose target moved on.
pub open spec fn rebuild_from(
    effects: Seq<PlanModel>,
    working_copy: Seq<char>,
    observed: Seq<(TargetModel, ValueModel)>,
    i: int,
) -> Option<OperationRefusal>
    decreases effects.len() - i,
{
    if i < 0 || i >= effects.len() {
        None
    } else if !backs_up(effects, i) {
        rebuild_from(effects, working_copy, observed, i + 1)
    } else if effect_paths::target_refusal(effects[i].target, working_copy) is Some {
        effect_paths::target_refusal(effects[i].target, working_copy)
    } else {
        match pristine::first_value(observed, effects[i].target) {
            None => Some(OperationRefusal::NotObserved { ordinal: effects[i].ordinal }),
            Some(value) => if value != effects[i].expected_old {
                Some(OperationRefusal::BackupNotRebuildable { ordinal: effects[i].ordinal })
            } else {
                rebuild_from(effects, working_copy, observed, i + 1)
            },
        }
    }
}

/// Checks that an unfinished backup may be thrown away and made again.
pub fn refuse_rebuild(
    effects: &Vec<EffectPlan>,
    working_copy: &WorkingCopyId,
    observations: &Vec<Observation>,
) -> (refusal: Option<OperationRefusal>)
    ensures
        refusal == rebuild_from(
            effects::plan_models(effects@),
            working_copy@,
            effects::observation_models(observations@),
            0,
        ),
{
    let ghost models = effects::plan_models(effects@);
    let ghost observed = effects::observation_models(observations@);
    let mut i: usize = 0;
    while i < effects.len()
        invariant
            i <= effects.len(),
            models == effects::plan_models(effects@),
            observed == effects::observation_models(observations@),
            rebuild_from(models, working_copy@, observed, 0) == rebuild_from(
                models,
                working_copy@,
                observed,
                i as int,
            ),
        decreases effects.len() - i,
    {
        assert(models[i as int] == effects@[i as int]@);
        if is_backed_up(effects, i) {
            if let Some(refusal) = effect_paths::refuse_target(&effects[i].target, working_copy) {
                return Some(refusal);
            }
            match effects::find_observation(observations, &effects[i].target) {
                None => {
                    return Some(OperationRefusal::NotObserved { ordinal: effects[i].ordinal });
                },
                Some(at) => {
                    if !observations[at].value.same(&effects[i].expected_old) {
                        return Some(
                            OperationRefusal::BackupNotRebuildable { ordinal: effects[i].ordinal },
                        );
                    }
                },
            }
        }
        i = i + 1;
    }
    None
}

/// How an old value is backed up.
#[derive(Clone, Copy, Debug, PartialEq, Eq, Structural)]
pub enum BackupAction {
    /// Write the marker as record of absence.
    RecordAbsence,
    /// Copy the entry.
    CopyValue,
}

/// How an effect's old value is backed up, when that was observed.
pub open spec fn backup_action(effect: PlanModel, observed: ValueModel) -> Result<
    BackupAction,
    OperationRefusal,
> {
    if observed != effect.expected_old {
        Err(OperationRefusal::LeaseDiverged { ordinal: effect.ordinal })
    } else {
        match effect.expected_old {
            ValueModel::Absent => Ok(BackupAction::RecordAbsence),
            ValueModel::File(_) => Ok(BackupAction::CopyValue),
            _ => Err(OperationRefusal::InvalidOldValue { ordinal: effect.ordinal }),
        }
    }
}

/// Decides how an effect's old value is backed up.
pub fn plan_backup(effect: &EffectPlan, observed: &EffectValue) -> (action: Result<
    BackupAction,
    OperationRefusal,
>)
    ensures
        action == backup_action(effect@, observed@),
{
    if !observed.same(&effect.expected_old) {
        return Err(OperationRefusal::LeaseDiverged { ordinal: effect.ordinal });
    }
    match &effect.expected_old {
        EffectValue::Absent => Ok(BackupAction::RecordAbsence),
        EffectValue::File(_) => Ok(BackupAction::CopyValue),
        _ => Err(OperationRefusal::InvalidOldValue { ordinal: effect.ordinal }),
    }
}

/// Settles one backup: the copy, where one was made, and the target after it
/// must both have the old value.
pub fn settle_backup(effect: &EffectPlan, copied: &Option<EffectValue>, observed: &EffectValue) -> (
    checked: Result<(), OperationRefusal>)
    ensures
        checked == if effects::opt_value(*copied) is Some && effects::opt_value(*copied) != Some(
            effect@.expected_old,
        ) {
            Err::<(), OperationRefusal>(
                OperationRefusal::BackupMismatch { ordinal: effect.ordinal },
            )
        } else if observed@ != effect@.expected_old {
            Err(OperationRefusal::LeaseDiverged { ordinal: effect.ordinal })
        } else {
            Ok(())
        },
{
    if let Some(value) = copied {
        if !value.same(&effect.expected_old) {
            return Err(OperationRefusal::BackupMismatch { ordinal: effect.ordinal });
        }
    }
    if !observed.same(&effect.expected_old) {
        return Err(OperationRefusal::LeaseDiverged { ordinal: effect.ordinal });
    }
    Ok(())
}

/// What a backup holds for one effect: the bytes of its record of absence, or
/// the entry that was copied.
#[derive(Debug)]
pub struct BackupEntry {
    pub ordinal: u32,
    pub absent: Option<Vec<u8>>,
    pub value: Option<EffectValue>,
}

/// What a [`BackupEntry`] says.
pub ghost struct BackupModel {
    pub ordinal: u32,
    pub absent: Option<Seq<u8>>,
    pub value: Option<ValueModel>,
}

impl View for BackupEntry {
    type V = BackupModel;

    open spec fn view(&self) -> BackupModel {
        BackupModel {
            ordinal: self.ordinal,
            absent: match self.absent {
                Some(bytes) => Some(bytes@),
                None => None,
            },
            value: effects::opt_value(self.value),
        }
    }
}

/// What a backup's entries say, by ordinal.
pub open spec fn backup_models(entries: Seq<BackupEntry>) -> Seq<(u32, BackupModel)> {
    entries.map_values(|e: BackupEntry| (e.ordinal, e@))
}

fn find_backup(entries: &Vec<BackupEntry>, ordinal: u32) -> (found: Option<usize>)
    ensures
        match found {
            Some(i) => i < entries@.len() && pristine::first_value(
                backup_models(entries@),
                ordinal,
            ) == Some(entries@[i as int]@),
            None => pristine::first_value(backup_models(entries@), ordinal) is None,
        },
{
    let ghost pairs = backup_models(entries@);
    let mut i: usize = 0;
    proof {
        assert(pairs.skip(0) =~= pairs);
    }
    while i < entries.len()
        invariant
            i <= entries.len(),
            pairs == backup_models(entries@),
            pristine::first_value(pairs, ordinal) == pristine::first_value(
                pairs.skip(i as int),
                ordinal,
            ),
        decreases entries.len() - i,
    {
        assert(pairs.skip(i as int).drop_first() =~= pairs.skip(i + 1));
        assert(pairs.skip(i as int)[0] == pairs[i as int]);
        if entries[i].ordinal == ordinal {
            return Some(i);
        }
        i = i + 1;
    }
    None
}

/// Why a backup does not hold an effect's old value.
pub open spec fn backup_refusal(effect: PlanModel, entry: Option<BackupModel>) -> Option<
    OperationRefusal,
> {
    match effect.expected_old {
        ValueModel::Absent => if entry is Some && entry->0.absent == Some(backup_version()) {
            None
        } else {
            Some(OperationRefusal::InvalidAbsentBackup { ordinal: effect.ordinal })
        },
        ValueModel::File(_) => if entry is Some && entry->0.value == Some(effect.expected_old) {
            None
        } else {
            Some(OperationRefusal::BackupMismatch { ordinal: effect.ordinal })
        },
        _ => Some(OperationRefusal::InvalidOldValue { ordinal: effect.ordinal }),
    }
}

/// Why a backup does not hold the old values from effect `i` on.
pub open spec fn backup_refusal_from(
    effects: Seq<PlanModel>,
    entries: Seq<(u32, BackupModel)>,
    i: int,
) -> Option<OperationRefusal>
    decreases effects.len() - i,
{
    if i < 0 || i >= effects.len() {
        None
    } else if !backs_up(effects, i) {
        backup_refusal_from(effects, entries, i + 1)
    } else {
        let refusal = backup_refusal(
            effects[i],
            pristine::first_value(entries, effects[i].ordinal),
        );
        if refusal is Some {
            refusal
        } else {
            backup_refusal_from(effects, entries, i + 1)
        }
    }
}

fn refuse_backup(effect: &EffectPlan, entries: &Vec<BackupEntry>) -> (refusal: Option<
    OperationRefusal,
>)
    ensures
        refusal == backup_refusal(
            effect@,
            pristine::first_value(backup_models(entries@), effect.ordinal),
        ),
{
    let ordinal: u32 = effect.ordinal;
    match &effect.expected_old {
        EffectValue::Absent => {
            if let Some(at) = find_backup(entries, ordinal) {
                if let Some(bytes) = &entries[at].absent {
                    if same_bytes(bytes, &backup_marker()) {
                        return None;
                    }
                }
            }
            Some(OperationRefusal::InvalidAbsentBackup { ordinal })
        },
        EffectValue::File(_) => {
            if let Some(at) = find_backup(entries, ordinal) {
                if let Some(value) = &entries[at].value {
                    if value.same(&effect.expected_old) {
                        return None;
                    }
                }
            }
            Some(OperationRefusal::BackupMismatch { ordinal })
        },
        _ => Some(OperationRefusal::InvalidOldValue { ordinal }),
    }
}

/// Checks a backup: its completion marker, and that it holds the old value of
/// every path that the effects change.
pub fn verify_backup(effects: &Vec<EffectPlan>, marker: &Vec<u8>, entries: &Vec<BackupEntry>) -> (
    checked: Result<(), OperationRefusal>)
    ensures
        checked == if marker@ != backup_version() {
            Err::<(), OperationRefusal>(OperationRefusal::InvalidBackupMarker)
        } else {
            match backup_refusal_from(
                effects::plan_models(effects@),
                backup_models(entries@),
                0,
            ) {
                Some(refusal) => Err(refusal),
                None => Ok(()),
            }
        },
{
    if !same_bytes(marker, &backup_marker()) {
        return Err(OperationRefusal::InvalidBackupMarker);
    }
    let ghost models = effects::plan_models(effects@);
    let ghost pairs = backup_models(entries@);
    let mut i: usize = 0;
    while i < effects.len()
        invariant
            i <= effects.len(),
            marker@ == backup_version(),
            models == effects::plan_models(effects@),
            pairs == backup_models(entries@),
            backup_refusal_from(models, pairs, 0) == backup_refusal_from(models, pairs, i as int),
        decreases effects.len() - i,
    {
        assert(models[i as int] == effects@[i as int]@);
        if is_backed_up(effects, i) {
            if let Some(refusal) = refuse_backup(&effects[i], entries) {
                return Err(refusal);
            }
        }
        i = i + 1;
    }
    Ok(())
}

/// A complete backup holds what every path had before the operation: for each
/// path that it changes, the entry of the first effect on it says the value
/// that the path had, or that it was absent.
pub proof fn verified_backup_holds_old_values(
    effects: Seq<PlanModel>,
    entries: Seq<(u32, BackupModel)>,
    i: int,
    j: int,
)
    requires
        0 <= i <= j < effects.len(),
        backup_refusal_from(effects, entries, i) is None,
        backs_up(effects, j),
    ensures
        ({
            let entry = pristine::first_value(entries, effects[j].ordinal);
            &&& entry is Some
            &&& effects[j].expected_old is Absent ==> entry->0.absent == Some(backup_version())
            &&& effects[j].expected_old !is Absent ==> entry->0.value == Some(
                effects[j].expected_old,
            )
        }),
    decreases j - i,
{
    if i < j {
        verified_backup_holds_old_values(effects, entries, i + 1, j);
    }
}

/// Why replaying a recovery stops, with the receipt to append first.
#[derive(Debug)]
pub struct ReplayFailure {
    pub refusal: OperationRefusal,
    pub receipt: Option<EffectReceiptPayload>,
}

/// What a [`ReplayFailure`] says: the refusal, and the effect and value of its
/// receipt.
pub ghost struct FailureModel {
    pub refusal: OperationRefusal,
    pub rejected: Option<(u32, ValueModel)>,
}

/// Why effect `i` of a recovery cannot be replayed when its turn comes.
pub open spec fn replay_failure(
    effects: Seq<PlanModel>,
    working_copy: Seq<char>,
    observed: Seq<(TargetModel, ValueModel)>,
    i: int,
) -> Option<FailureModel> {
    let effect = effects[i];
    if effect_paths::target_refusal(effect.target, working_copy) is Some {
        Some(
            FailureModel {
                refusal: effect_paths::target_refusal(effect.target, working_copy)->0,
                rejected: None,
            },
        )
    } else {
        match operation::met_value(effects, observed, i) {
            None => Some(
                FailureModel {
                    refusal: OperationRefusal::NotObserved { ordinal: effect.ordinal },
                    rejected: None,
                },
            ),
            Some(value) => if effects::lease(value, effect.expected_old, effect.expected_new)
                is Diverged {
                Some(
                    FailureModel {
                        refusal: OperationRefusal::LeaseDiverged { ordinal: effect.ordinal },
                        rejected: Some((effect.ordinal, value)),
                    },
                )
            } else {
                None
            },
        }
    }
}

/// Why a recovery cannot be replayed from effect `i` on: the first failure.
pub open spec fn replay_failure_from(
    effects: Seq<PlanModel>,
    working_copy: Seq<char>,
    observed: Seq<(TargetModel, ValueModel)>,
    i: int,
) -> Option<FailureModel>
    decreases effects.len() - i,
{
    if i < 0 || i >= effects.len() {
        None
    } else if replay_failure(effects, working_copy, observed, i) is Some {
        replay_failure(effects, working_copy, observed, i)
    } else {
        replay_failure_from(effects, working_copy, observed, i + 1)
    }
}

/// Whether a failure is the one that was found, with the receipt for it.
pub open spec fn reports_failure(
    failure: ReplayFailure,
    model: FailureModel,
    recovery: Operation,
) -> bool {
    &&& failure.refusal == model.refusal
    &&& match model.rejected {
        None => failure.receipt is None,
        Some((ordinal, value)) => failure.receipt matches Some(receipt) && receipt@
            == operation::receipt_of(
            recovery.id,
            recovery.payload@,
            Some(ordinal),
            EffectReceiptKind::LeaseRejected,
            Some(value),
            None,
        ),
    }
}

fn rejection(recovery: &Operation, ordinal: u32, observed: &EffectValue) -> (failure: ReplayFailure)
    ensures
        reports_failure(
            failure,
            FailureModel {
                refusal: OperationRefusal::LeaseDiverged { ordinal },
                rejected: Some((ordinal, observed@)),
            },
            *recovery,
        ),
{
    ReplayFailure {
        refusal: OperationRefusal::LeaseDiverged { ordinal },
        receipt: Some(
            operation::deterministic_effect_receipt(
                recovery,
                Some(ordinal),
                EffectReceiptKind::LeaseRejected,
                Some(observed.dup()),
                None,
            ),
        ),
    }
}

/// Checks, without changing anything, that a recovery can be replayed: every
/// target has the old or the new value of each effect when its turn comes.
pub fn check_replay(
    recovery: &Operation,
    working_copy: &WorkingCopyId,
    observations: &Vec<Observation>,
) -> (checked: Result<(), ReplayFailure>)
    ensures
        ({
            let payload = recovery.payload@;
            if operation::lock_refusal(payload, working_copy@) is Some {
                checked matches Err(failure) && Some(failure.refusal) == operation::lock_refusal(
                    payload,
                    working_copy@,
                ) && failure.receipt is None
            } else {
                match replay_failure_from(
                    payload.effects,
                    working_copy@,
                    effects::observation_models(observations@),
                    0,
                ) {
                    None => checked is Ok,
                    Some(model) => checked matches Err(failure) && reports_failure(
                        failure,
                        model,
                        *recovery,
                    ),
                }
            }
        }),
{
    if let Err(refusal) = operation::validate_operation_lock(&recovery.payload, working_copy) {
        return Err(ReplayFailure { refusal, receipt: None });
    }
    let effects: &Vec<EffectPlan> = &recovery.payload.effects;
    let ghost models = effects::plan_models(effects@);
    let ghost observed = effects::observation_models(observations@);
    let mut i: usize = 0;
    while i < effects.len()
        invariant
            i <= effects.len(),
            models == effects::plan_models(effects@),
            models == recovery.payload@.effects,
            observed == effects::observation_models(observations@),
            operation::lock_refusal(recovery.payload@, working_copy@) is None,
            replay_failure_from(models, working_copy@, observed, 0) == replay_failure_from(
                models,
                working_copy@,
                observed,
                i as int,
            ),
        decreases effects.len() - i,
    {
        let effect: &EffectPlan = &effects[i];
        assert(models[i as int] == effect@);
        if let Some(refusal) = effect_paths::refuse_target(&effect.target, working_copy) {
            return Err(ReplayFailure { refusal, receipt: None });
        }
        let value: &EffectValue = match recovery::find_last_on(effects, &effect.target, i) {
            Some(j) => {
                assert(models[j as int] == effects@[j as int]@);
                &effects[j].expected_new
            },
            None => match effects::find_observation(observations, &effect.target) {
                None => {
                    return Err(
                        ReplayFailure {
                            refusal: OperationRefusal::NotObserved { ordinal: effect.ordinal },
                            receipt: None,
                        },
                    );
                },
                Some(at) => &observations[at].value,
            },
        };
        let classification: LeaseClassification = effects::classify_effect_lease(
            value,
            &effect.expected_old,
            &effect.expected_new,
        );
        if classification == LeaseClassification::Diverged {
            return Err(rejection(recovery, effect.ordinal, value));
        }
        i = i + 1;
    }
    Ok(())
}

/// The places of the first `n` original effects that a recovery effect takes
/// back.
pub open spec fn transitions(originals: Seq<PlanModel>, effect: PlanModel, n: int) -> Seq<int>
    decreases n,
{
    if n <= 0 {
        Seq::empty()
    } else {
        let rest = transitions(originals, effect, n - 1);
        let original = originals[n - 1];
        if effect.target == original.target && effect.expected_new == original.expected_old
            && effect.expected_old == original.expected_new {
            rest.push(n - 1)
        } else {
            rest
        }
    }
}

/// How a value is restored.
#[derive(Debug)]
pub enum RestoreAction {
    /// Remove the entry; a directory is moved to the tombstone of that
    /// ordinal, which for shelves lies with the backup.
    RemoveEntry { ordinal: u32, shelved: bool },
    /// Replace the file by the backup of that ordinal.
    WriteRegular { ordinal: u32, mode: u32 },
    /// Put the backed-up directory in place.
    ReplaceDirectory { ordinal: u32, mode: u32 },
    /// Put the backed-up link in place.
    ReplaceSymlink { ordinal: u32 },
    /// Write the working copy's record.
    ApplyState(WorkingCopyStateRef),
}

/// What a [`RestoreAction`] says.
pub ghost enum RestoreModel {
    RemoveEntry { ordinal: u32, shelved: bool },
    WriteRegular { ordinal: u32, mode: u32 },
    ReplaceDirectory { ordinal: u32, mode: u32 },
    ReplaceSymlink { ordinal: u32 },
    ApplyState(WorkingCopyStateModel),
}

impl View for RestoreAction {
    type V = RestoreModel;

    open spec fn view(&self) -> RestoreModel {
        match self {
            RestoreAction::RemoveEntry { ordinal, shelved } => RestoreModel::RemoveEntry {
                ordinal: *ordinal,
                shelved: *shelved,
            },
            RestoreAction::WriteRegular { ordinal, mode } => RestoreModel::WriteRegular {
                ordinal: *ordinal,
                mode: *mode,
            },
            RestoreAction::ReplaceDirectory { ordinal, mode } => RestoreModel::ReplaceDirectory {
                ordinal: *ordinal,
                mode: *mode,
            },
            RestoreAction::ReplaceSymlink { ordinal } => RestoreModel::ReplaceSymlink {
                ordinal: *ordinal,
            },
            RestoreAction::ApplyState(state) => RestoreModel::ApplyState(state@),
        }
    }
}

/// How a recovery effect restores the value that the original effect found.
pub open spec fn restore_of(
    originals: Seq<PlanModel>,
    effect: PlanModel,
    working_copy: Seq<char>,
) -> Result<RestoreModel, OperationRefusal> {
    let places = transitions(originals, effect, originals.len() as int);
    if places.len() != 1 {
        Err(OperationRefusal::NoOriginalTransition { ordinal: effect.ordinal })
    } else {
        let original = originals[places[0]];
        let ordinal = original.ordinal;
        match original.expected_old {
            ValueModel::Absent if effect.target.on_disk() => Ok(
                RestoreModel::RemoveEntry { ordinal, shelved: effect.target is ShelfPath },
            ),
            ValueModel::File(state) if effect.target.on_disk() => match state.kind {
                FileKind::Regular => Ok(RestoreModel::WriteRegular { ordinal, mode: state.mode }),
                FileKind::Directory => Ok(
                    RestoreModel::ReplaceDirectory { ordinal, mode: state.mode },
                ),
                FileKind::Symlink => Ok(RestoreModel::ReplaceSymlink { ordinal }),
                FileKind::Gitlink => Err(
                    OperationRefusal::GitlinkRecovery { ordinal: effect.ordinal },
                ),
            },
            ValueModel::WorkingCopy(state) if effect.target is WorkingCopy && state.id
                == working_copy => Ok(RestoreModel::ApplyState(state)),
            _ => Err(OperationRefusal::CannotRestore { ordinal: effect.ordinal }),
        }
    }
}

fn find_transitions(originals: &Vec<EffectPlan>, effect: &EffectPlan) -> (places: Vec<usize>)
    ensures
        places@.map_values(|k: usize| k as int) == transitions(
            effects::plan_models(originals@),
            effect@,
            originals@.len() as int,
        ),
        forall|k: int| 0 <= k < places@.len() ==> (#[trigger] places@[k]) < originals@.len(),
{
    let ghost models = effects::plan_models(originals@);
    let ghost wide = |k: usize| k as int;
    let mut places: Vec<usize> = Vec::new();
    let mut n: usize = 0;
    proof {
        assert(places@.map_values(wide) =~= transitions(models, effect@, 0));
    }
    while n < originals.len()
        invariant
            n <= originals.len(),
            models == effects::plan_models(originals@),
            wide == (|k: usize| k as int),
            places@.map_values(wide) == transitions(models, effect@, n as int),
            forall|k: int| 0 <= k < places@.len() ==> (#[trigger] places@[k]) < originals@.len(),
        decreases originals.len() - n,
    {
        let ghost before = places@.map_values(wide);
        assert(models[n as int] == originals@[n as int]@);
        if effect.target.same(&originals[n].target) && effect.expected_new.same(
            &originals[n].expected_old,
        ) && effect.expected_old.same(&originals[n].expected_new) {
            places.push(n);
            assert(places@.map_values(wide) =~= before.push(n as int));
        }
        n = n + 1;
    }
    places
}

/// Decides how a recovery effect restores the value that the original effect
/// found.
pub fn restore_original_effect(
    originals: &Vec<EffectPlan>,
    effect: &EffectPlan,
    working_copy: &WorkingCopyId,
) -> (action: Result<RestoreAction, OperationRefusal>)
    ensures
        match restore_of(effects::plan_models(originals@), effect@, working_copy@) {
            Err(refusal) => action == Err::<RestoreAction, OperationRefusal>(refusal),
            Ok(model) => action matches Ok(action) && action@ == model,
        },
{
    let places: Vec<usize> = find_transitions(originals, effect);
    let ghost models = effects::plan_models(originals@);
    assert(places@.map_values(|k: usize| k as int).len() == places@.len());
    if places.len() != 1 {
        return Err(OperationRefusal::NoOriginalTransition { ordinal: effect.ordinal });
    }
    let at: usize = places[0];
    assert(transitions(models, effect@, models.len() as int)[0] == at);
    let original: &EffectPlan = &originals[at];
    assert(models[at as int] == original@);
    let ordinal: u32 = original.ordinal;
    let on_disk: bool = effects::is_filesystem_effect(&effect.target);
    match &original.expected_old {
        EffectValue::Absent => {
            if on_disk {
                let shelved: bool = match &effect.target {
                    EffectTarget::ShelfPath { .. } => true,
                    _ => false,
                };
                return Ok(RestoreAction::RemoveEntry { ordinal, shelved });
            }
        },
        EffectValue::File(state) => {
            if on_disk {
                return match state.kind {
                    FileKind::Regular => Ok(
                        RestoreAction::WriteRegular { ordinal, mode: state.mode },
                    ),
                    FileKind::Directory => Ok(
                        RestoreAction::ReplaceDirectory { ordinal, mode: state.mode },
                    ),
                    FileKind::Symlink => Ok(RestoreAction::ReplaceSymlink { ordinal }),
                    FileKind::Gitlink => Err(
                        OperationRefusal::GitlinkRecovery { ordinal: effect.ordinal },
                    ),
                };
            }
        },
        EffectValue::WorkingCopy(state) => {
            let recorded: bool = match &effect.target {
                EffectTarget::WorkingCopy { .. } => true,
                _ => false,
            };
            if recorded && state.id.same(working_copy) {
                return Ok(RestoreAction::ApplyState(state.dup()));
            }
        },
        EffectValue::Other { .. } => {},
    }
    Err(OperationRefusal::CannotRestore { ordinal: effect.ordinal })
}

/// The next step of one recovery effect whose target was observed.
#[derive(Debug)]
pub enum ReplayStep {
    /// Restore the value; shelves and workspaces under the shelf lock.
    Restore { action: RestoreAction, shelf_lock: bool },
    /// The value already holds: write the record again, where it is one, and
    /// append the receipt, where none was written yet.
    Keep { state: Option<WorkingCopyStateRef>, receipt: Option<EffectReceiptPayload> },
}

/// Whether a kept value is that of another working copy.
pub open spec fn kept_state_foreign(effect: PlanModel, working_copy: Seq<char>) -> bool {
    effect.target is WorkingCopy && (effect.expected_new matches ValueModel::WorkingCopy(state)
        && state.id != working_copy)
}

/// Decides one step of a replay. `done` are the ordinals of the recovery's
/// successful receipts.
pub fn replay_step(
    original: &Operation,
    recovery: &Operation,
    i: usize,
    working_copy: &WorkingCopyId,
    done: &Vec<u32>,
    observed: &EffectValue,
) -> (step: Result<ReplayStep, ReplayFailure>)
    requires
        i < recovery.payload.effects@.len(),
    ensures
        ({
            let effect = recovery.payload@.effects[i as int];
            match effects::lease(observed@, effect.expected_old, effect.expected_new) {
                LeaseClassification::Apply => match restore_of(
                    original.payload@.effects,
                    effect,
                    working_copy@,
                ) {
                    Err(refusal) => step == Err::<ReplayStep, ReplayFailure>(
                        ReplayFailure { refusal, receipt: None },
                    ),
                    Ok(model) => step matches Ok(ReplayStep::Restore { action, shelf_lock })
                        && action@ == model && shelf_lock == effect.target.recursive(),
                },
                LeaseClassification::AlreadyApplied => if kept_state_foreign(
                    effect,
                    working_copy@,
                ) {
                    step == Err::<ReplayStep, ReplayFailure>(
                        ReplayFailure {
                            refusal: OperationRefusal::StateOfAnother,
                            receipt: None,
                        },
                    )
                } else {
                    step matches Ok(ReplayStep::Keep { state, receipt }) && (match state {
                        Some(state) => effect.target is WorkingCopy && effect.expected_new
                            == ValueModel::WorkingCopy(state@),
                        None => effect.target !is WorkingCopy || effect.expected_new
                            !is WorkingCopy,
                    }) && (match receipt {
                        Some(receipt) => !done@.contains(effect.ordinal) && receipt@
                            == operation::receipt_of(
                            recovery.id,
                            recovery.payload@,
                            Some(effect.ordinal),
                            EffectReceiptKind::Recovered,
                            Some(observed@),
                            Some(observed@),
                        ),
                        None => done@.contains(effect.ordinal),
                    })
                },
                LeaseClassification::Diverged => step matches Err(failure) && reports_failure(
                    failure,
                    FailureModel {
                        refusal: OperationRefusal::LeaseDiverged { ordinal: effect.ordinal },
                        rejected: Some((effect.ordinal, observed@)),
                    },
                    *recovery,
                ),
            }
        }),
{
    let effect: &EffectPlan = &recovery.payload.effects[i];
    assert(effects::plan_models(recovery.payload.effects@)[i as int] == effect@);
    match effects::classify_effect_lease(observed, &effect.expected_old, &effect.expected_new) {
        LeaseClassification::Apply => {
            match restore_original_effect(&original.payload.effects, effect, working_copy) {
                Err(refusal) => Err(ReplayFailure { refusal, receipt: None }),
                Ok(action) => Ok(
                    ReplayStep::Restore {
                        action,
                        shelf_lock: effects::is_recursive_filesystem_target(&effect.target),
                    },
                ),
            }
        },
        LeaseClassification::AlreadyApplied => {
            let recorded: bool = match &effect.target {
                EffectTarget::WorkingCopy { .. } => true,
                _ => false,
            };
            let state: Option<WorkingCopyStateRef> = match &effect.expected_new {
                EffectValue::WorkingCopy(state) => if recorded {
                    if !state.id.same(working_copy) {
                        return Err(
                            ReplayFailure {
                                refusal: OperationRefusal::StateOfAnother,
                                receipt: None,
                            },
                        );
                    }
                    Some(state.dup())
                } else {
                    None
                },
                _ => None,
            };
            let receipt: Option<EffectReceiptPayload> = if crate::pristine::holds_ordinal(
                done,
                effect.ordinal,
            ) {
                None
            } else {
                Some(
                    operation::deterministic_effect_receipt(
                        recovery,
                        Some(effect.ordinal),
                        EffectReceiptKind::Recovered,
                        Some(observed.dup()),
                        Some(observed.dup()),
                    ),
                )
            };
            Ok(ReplayStep::Keep { state, receipt })
        },
        LeaseClassification::Diverged => Err(rejection(recovery, effect.ordinal, observed)),
    }
}

/// Settles a restored value by what was observed after it: the receipt of the
/// rollback, or that of its rejection, with which the replay stops.
pub fn settle_replay(
    recovery: &Operation,
    i: usize,
    observed: &EffectValue,
    restored: &EffectValue,
) -> (receipt: Result<EffectReceiptPayload, EffectReceiptPayload>)
    requires
        i < recovery.payload.effects@.len(),
    ensures
        ({
            let effect = recovery.payload@.effects[i as int];
            let landed = restored@ == effect.expected_new;
            let found = if receipt is Ok {
                receipt->Ok_0
            } else {
                receipt->Err_0
            };
            &&& receipt is Ok <==> landed
            &&& found@ == operation::receipt_of(
                recovery.id,
                recovery.payload@,
                Some(effect.ordinal),
                if landed {
                    EffectReceiptKind::RolledBack
                } else {
                    EffectReceiptKind::LeaseRejected
                },
                Some(observed@),
                Some(restored@),
            )
        }),
{
    let effect: &EffectPlan = &recovery.payload.effects[i];
    assert(effects::plan_models(recovery.payload.effects@)[i as int] == effect@);
    let landed: bool = restored.same(&effect.expected_new);
    let kind: EffectReceiptKind = if landed {
        EffectReceiptKind::RolledBack
    } else {
        EffectReceiptKind::LeaseRejected
    };
    let receipt: EffectReceiptPayload = operation::deterministic_effect_receipt(
        recovery,
        Some(effect.ordinal),
        kind,
        Some(observed.dup()),
        Some(restored.dup()),
    );
    if landed {
        Ok(receipt)
    } else {
        Err(receipt)
    }
}

proof fn prefix_runs(
    plans: Seq<PlanModel>,
    world: Map<TargetModel, ValueModel>,
    n: int,
    m: int,
)
    requires
        0 <= n <= m <= plans.len(),
        recovery::after(plans.take(m), world) is Some,
    ensures
        recovery::after(plans.take(n), world) is Some,
    decreases m - n,
{
    if n < m {
        assert(plans.take(m).drop_last() =~= plans.take(m - 1));
        prefix_runs(plans, world, n, m - 1);
    }
}

proof fn prefix_values(plans: Seq<PlanModel>, world: Map<TargetModel, ValueModel>, n: int)
    requires
        0 <= n <= plans.len(),
        recovery::after(plans.take(n), world) is Some,
    ensures
        forall|t: TargetModel|
            #[trigger] (recovery::after(plans.take(n), world)->0)[t] == match recovery::last_on(
                plans,
                t,
                n,
            ) {
                Some(j) => plans[j].expected_new,
                None => world[t],
            },
    decreases n,
{
    if n == 0 {
        assert(plans.take(0) =~= Seq::empty());
    } else {
        assert(plans.take(n).drop_last() =~= plans.take(n - 1));
        assert(plans.take(n).last() == plans[n - 1]);
        prefix_values(plans, world, n - 1);
    }
}

proof fn turn_finds_old(plans: Seq<PlanModel>, world: Map<TargetModel, ValueModel>, i: int)
    requires
        0 <= i < plans.len(),
        recovery::after(plans, world) is Some,
    ensures
        plans[i].expected_old == match recovery::last_on(plans, plans[i].target, i) {
            Some(j) => plans[j].expected_new,
            None => world[plans[i].target],
        },
{
    assert(plans.take(plans.len() as int) =~= plans);
    prefix_runs(plans, world, i + 1, plans.len() as int);
    prefix_runs(plans, world, i, plans.len() as int);
    prefix_values(plans, world, i);
    assert(plans.take(i + 1).drop_last() =~= plans.take(i));
    assert(plans.take(i + 1).last() == plans[i]);
    let before = recovery::after(plans.take(i), world)->0;
    assert(before[plans[i].target] == plans[i].expected_old);
}

proof fn no_failure_from(
    plans: Seq<PlanModel>,
    working_copy: Seq<char>,
    observed: Seq<(TargetModel, ValueModel)>,
    i: int,
)
    requires
        0 <= i <= plans.len(),
        forall|j: int|
            0 <= j < plans.len() ==> (#[trigger] replay_failure(plans, working_copy, observed, j))
                is None,
    ensures
        replay_failure_from(plans, working_copy, observed, i) is None,
    decreases plans.len() - i,
{
    if i < plans.len() {
        assert(replay_failure(plans, working_copy, observed, i) is None);
        no_failure_from(plans, working_copy, observed, i + 1);
    }
}

/// A recovery whose effects run through on the observed world is replayed
/// without a failure.
pub proof fn runnable_recovery_replays(
    plans: Seq<PlanModel>,
    working_copy: Seq<char>,
    observed: Seq<(TargetModel, ValueModel)>,
    world: Map<TargetModel, ValueModel>,
)
    requires
        recovery::after(plans, world) is Some,
        forall|i: int|
            0 <= i < plans.len() ==> {
                &&& pristine::first_value(observed, (#[trigger] plans[i]).target) == Some(
                    world[plans[i].target],
                )
                &&& effect_paths::target_refusal(plans[i].target, working_copy) is None
            },
    ensures
        replay_failure_from(plans, working_copy, observed, 0) is None,
{
    assert forall|i: int| 0 <= i < plans.len() implies (#[trigger] replay_failure(
        plans,
        working_copy,
        observed,
        i,
    )) is None by {
        turn_finds_old(plans, world, i);
        assert(pristine::first_value(observed, plans[i].target) is Some);
    }
    no_failure_from(plans, working_copy, observed, 0);
}

/// A recovery that was interrupted after any of its effects is resumed
/// without a failure, provided that no two of its effects share a target:
/// what has been taken back is found at its new value, the rest at its old.
pub proof fn interrupted_recovery_resumes(
    plans: Seq<PlanModel>,
    working_copy: Seq<char>,
    observed: Seq<(TargetModel, ValueModel)>,
    world: Map<TargetModel, ValueModel>,
    m: int,
)
    requires
        0 <= m <= plans.len(),
        recovery::after(plans, world) is Some,
        forall|i: int, j: int|
            0 <= i < j < plans.len() ==> (#[trigger] plans[i]).target != (
            #[trigger] plans[j]).target,
        recovery::after(plans.take(m), world) matches Some(reached) ==> forall|i: int|
            0 <= i < plans.len() ==> {
                &&& pristine::first_value(observed, (#[trigger] plans[i]).target) == Some(
                    reached[plans[i].target],
                )
                &&& effect_paths::target_refusal(plans[i].target, working_copy) is None
            },
    ensures
        recovery::after(plans.take(m), world) is Some,
        replay_failure_from(plans, working_copy, observed, 0) is None,
{
    assert(plans.take(plans.len() as int) =~= plans);
    prefix_runs(plans, world, m, plans.len() as int);
    prefix_values(plans, world, m);
    let reached = recovery::after(plans.take(m), world)->0;
    assert forall|i: int| 0 <= i < plans.len() implies (#[trigger] replay_failure(
        plans,
        working_copy,
        observed,
        i,
    )) is None by {
        turn_finds_old(plans, world, i);
        sole_effect(plans, i, i);
        sole_effect(plans, i, m);
        assert(pristine::first_value(observed, plans[i].target) == Some(reached[plans[i].target]));
    }
    no_failure_from(plans, working_copy, observed, 0);
}

proof fn sole_effect(plans: Seq<PlanModel>, i: int, n: int)
    requires
        0 <= i < plans.len(),
        0 <= n <= plans.len(),
        forall|i: int, j: int|
            0 <= i < j < plans.len() ==> (#[trigger] plans[i]).target != (
            #[trigger] plans[j]).target,
    ensures
        recovery::last_on(plans, plans[i].target, n) == if i < n {
            Some(i)
        } else {
            None::<int>
        },
    decreases n,
{
    if n > 0 && n - 1 != i {
        sole_effect(plans, i, n - 1);
        assert(plans[n - 1].target != plans[i].target);
    }
}

/// The world after the first `n` effects of a recovery were settled: an effect
/// whose target has its old value restores the new one, one whose target has
/// the new value keeps it, and any other stops the replay.
pub open spec fn replayed(
    plans: Seq<PlanModel>,
    world: Map<TargetModel, ValueModel>,
    n: int,
) -> Option<Map<TargetModel, ValueModel>>
    decreases n,
{
    if n <= 0 {
        Some(world)
    } else {
        match replayed(plans, world, n - 1) {
            None => None,
            Some(reached) => {
                let plan = plans[n - 1];
                if effects::lease(reached[plan.target], plan.expected_old, plan.expected_new)
                    is Diverged {
                    None
                } else {
                    Some(reached.insert(plan.target, plan.expected_new))
                }
            },
        }
    }
}

/// The ordinals with a success receipt after the first `n` effects were
/// settled: a restored effect leaves one, and so does a kept one, unless it had
/// one already.
pub open spec fn receipted(plans: Seq<PlanModel>, done: Set<u32>, n: int) -> Set<u32>
    decreases n,
{
    if n <= 0 {
        done
    } else {
        receipted(plans, done, n - 1).insert(plans[n - 1].ordinal)
    }
}

proof fn replayed_values(plans: Seq<PlanModel>, world: Map<TargetModel, ValueModel>, n: int)
    requires
        0 <= n <= plans.len(),
        replayed(plans, world, n) is Some,
    ensures
        forall|t: TargetModel| #[trigger]
            (replayed(plans, world, n)->0)[t] == match recovery::last_on(plans, t, n) {
                Some(j) => plans[j].expected_new,
                None => world[t],
            },
    decreases n,
{
    if n > 0 {
        replayed_values(plans, world, n - 1);
        let before = replayed(plans, world, n - 1)->0;
        let after = replayed(plans, world, n)->0;
        assert forall|t: TargetModel| #[trigger] after[t] == (match recovery::last_on(plans, t, n) {
            Some(j) => plans[j].expected_new,
            None => world[t],
        }) by {
            assert(before[t] == match recovery::last_on(plans, t, n - 1) {
                Some(j) => plans[j].expected_new,
                None => world[t],
            });
        }
    }
}

proof fn no_failure_at(
    plans: Seq<PlanModel>,
    working_copy: Seq<char>,
    observed: Seq<(TargetModel, ValueModel)>,
    i: int,
    k: int,
)
    requires
        0 <= i <= k < plans.len(),
        replay_failure_from(plans, working_copy, observed, i) is None,
    ensures
        replay_failure(plans, working_copy, observed, k) is None,
    decreases k - i,
{
    if i < k {
        no_failure_at(plans, working_copy, observed, i + 1, k);
    }
}

proof fn receipts_stay(plans: Seq<PlanModel>, done: Set<u32>, n: int, k: int)
    requires
        0 <= k < n <= plans.len(),
    ensures
        receipted(plans, done, n).contains(plans[k].ordinal),
    decreases n,
{
    if k < n - 1 {
        receipts_stay(plans, done, n - 1, k);
    }
}

proof fn checked_steps_settle(
    plans: Seq<PlanModel>,
    working_copy: Seq<char>,
    observed: Seq<(TargetModel, ValueModel)>,
    world: Map<TargetModel, ValueModel>,
    n: int,
)
    requires
        0 <= n <= plans.len(),
        replay_failure_from(plans, working_copy, observed, 0) is None,
        forall|i: int|
            0 <= i < plans.len() ==> (pristine::first_value(
                observed,
                (#[trigger] plans[i]).target,
            ) matches Some(value) ==> world[plans[i].target] == value),
    ensures
        replayed(plans, world, n) is Some,
    decreases n,
{
    if n > 0 {
        checked_steps_settle(plans, working_copy, observed, world, n - 1);
        no_failure_at(plans, working_copy, observed, 0, n - 1);
        replayed_values(plans, world, n - 1);
        let reached = replayed(plans, world, n - 1)->0;
        assert(reached[plans[n - 1].target] == match recovery::last_on(
            plans,
            plans[n - 1].target,
            n - 1,
        ) {
            Some(j) => plans[j].expected_new,
            None => world[plans[n - 1].target],
        });
    }
}

/// A replay that passed its check runs to its end: no effect diverges when its
/// turn comes, every target then has the last value that was planned for it,
/// everything else is as it was, and every effect has a success receipt.
pub proof fn checked_replay_finishes(
    plans: Seq<PlanModel>,
    working_copy: Seq<char>,
    observed: Seq<(TargetModel, ValueModel)>,
    world: Map<TargetModel, ValueModel>,
    done: Set<u32>,
)
    requires
        replay_failure_from(plans, working_copy, observed, 0) is None,
        forall|i: int|
            0 <= i < plans.len() ==> (pristine::first_value(
                observed,
                (#[trigger] plans[i]).target,
            ) matches Some(value) ==> world[plans[i].target] == value),
    ensures
        replayed(plans, world, plans.len() as int) matches Some(last) && forall|t: TargetModel|
            #[trigger] last[t] == match recovery::last_on(plans, t, plans.len() as int) {
                Some(j) => plans[j].expected_new,
                None => world[t],
            },
        forall|k: int|
            0 <= k < plans.len() ==> receipted(plans, done, plans.len() as int).contains(
                (#[trigger] plans[k]).ordinal,
            ),
{
    let n = plans.len() as int;
    checked_steps_settle(plans, working_copy, observed, world, n);
    replayed_values(plans, world, n);
    assert forall|k: int| 0 <= k < plans.len() implies receipted(plans, done, n).contains(
        (#[trigger] plans[k]).ordinal,
    ) by {
        receipts_stay(plans, done, n, k);
    }
}

/// Wherever a recovery was interrupted, a resumed replay that passes its check
/// ends where the uninterrupted recovery ends.
pub proof fn resumed_replay_ends_alike(
    plans: Seq<PlanModel>,
    working_copy: Seq<char>,
    observed: Seq<(TargetModel, ValueModel)>,
    world: Map<TargetModel, ValueModel>,
    m: int,
)
    requires
        0 <= m <= plans.len(),
        recovery::after(plans, world) is Some,
        replay_failure_from(plans, working_copy, observed, 0) is None,
        recovery::after(plans.take(m), world) matches Some(reached) ==> forall|i: int|
            0 <= i < plans.len() ==> (pristine::first_value(
                observed,
                (#[trigger] plans[i]).target,
            ) matches Some(value) ==> reached[plans[i].target] == value),
    ensures
        recovery::after(plans.take(m), world) matches Some(reached) && (replayed(
            plans,
            reached,
            plans.len() as int,
        ) matches Some(last) && forall|t: TargetModel| #[trigger]
            last[t] == (recovery::after(plans, world)->0)[t]),
{
    let n = plans.len() as int;
    assert(plans.take(n) =~= plans);
    prefix_runs(plans, world, m, n);
    prefix_values(plans, world, m);
    prefix_values(plans, world, n);
    let reached = recovery::after(plans.take(m), world)->0;
    let whole = recovery::after(plans, world)->0;
    checked_replay_finishes(plans, working_copy, observed, reached, Set::empty());
    let last = replayed(plans, reached, n)->0;
    assert forall|t: TargetModel| #[trigger] last[t] == whole[t] by {
        assert(whole[t] == match recovery::last_on(plans, t, n) {
            Some(j) => plans[j].expected_new,
            None => world[t],
        });
        if recovery::last_on(plans, t, n) is None {
            none_before(plans, t, m, n);
            assert(reached[t] == match recovery::last_on(plans, t, m) {
                Some(j) => plans[j].expected_new,
                None => world[t],
            });
        }
    }
}

proof fn none_before(plans: Seq<PlanModel>, t: TargetModel, m: int, n: int)
    requires
        0 <= m <= n <= plans.len(),
        recovery::last_on(plans, t, n) is None,
    ensures
        recovery::last_on(plans, t, m) is None,
    decreases n - m,
{
    if m < n {
        none_before(plans, t, m, n - 1);
    }
}

} // verus!
