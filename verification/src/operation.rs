//! Operations on a working copy: their payloads, their receipts, and the
//! decisions from preparation to verification.

use crate::effect_paths;
use crate::effects;
use crate::effects::{
    EffectPlan, EffectTarget, EffectValue, FileKind, LeaseClassification, Observation, OperationId,
    OperationRefusal, PlanModel, TargetModel, ValueModel, WorkingCopyStateModel,
    WorkingCopyStateRef,
};
use crate::pristine;
use crate::recovery;
use crate::types::{ContentHash, WorkingCopyId};
use vstd::prelude::*;

verus! {

#[derive(Clone, Copy, Debug, PartialEq, Eq, Structural)]
pub enum EffectReceiptKind {
    Applied,
    Recovered,
    RolledBack,
    Verified,
    LeaseRejected,
}

impl EffectReceiptKind {
    /// Says that the effect landed.
    pub open spec fn spec_succeeds(self) -> bool {
        self is Applied || self is Recovered || self is RolledBack
    }

    /// Says that the effect landed.
    #[verifier::when_used_as_spec(spec_succeeds)]
    pub fn succeeds(self) -> (answer: bool)
        ensures
            answer == self.spec_succeeds(),
    {
        match self {
            EffectReceiptKind::Applied => true,
            EffectReceiptKind::Recovered => true,
            EffectReceiptKind::RolledBack => true,
            EffectReceiptKind::Verified => false,
            EffectReceiptKind::LeaseRejected => false,
        }
    }
}

/// What a receipt says. A receipt's identity is the hash of its payload, so
/// equal payloads are one receipt.
#[derive(Debug)]
pub struct EffectReceiptPayload {
    pub operation: OperationId,
    pub effect_ordinal: Option<u32>,
    pub attempt: u32,
    pub kind: EffectReceiptKind,
    pub observed_old: Option<EffectValue>,
    pub observed_new: Option<EffectValue>,
    pub timestamp_ms: i64,
}

/// What an [`EffectReceiptPayload`] says.
pub ghost struct ReceiptModel {
    pub operation: OperationId,
    pub effect_ordinal: Option<u32>,
    pub attempt: u32,
    pub kind: EffectReceiptKind,
    pub observed_old: Option<ValueModel>,
    pub observed_new: Option<ValueModel>,
    pub timestamp_ms: i64,
}

impl View for EffectReceiptPayload {
    type V = ReceiptModel;

    open spec fn view(&self) -> ReceiptModel {
        ReceiptModel {
            operation: self.operation,
            effect_ordinal: self.effect_ordinal,
            attempt: self.attempt,
            kind: self.kind,
            observed_old: effects::opt_value(self.observed_old),
            observed_new: effects::opt_value(self.observed_new),
            timestamp_ms: self.timestamp_ms,
        }
    }
}

/// What receipts say.
pub open spec fn receipt_models(receipts: Seq<EffectReceiptPayload>) -> Seq<ReceiptModel> {
    receipts.map_values(|r: EffectReceiptPayload| r@)
}

#[derive(Clone, Copy, Debug, PartialEq, Eq, Structural)]
pub enum OperationKind {
    Anchor,
    SwitchView,
    Record,
    Recover,
}

/// State of the repository at one end of an operation. The view and the git
/// state are carried under numbers of their own.
#[derive(Debug)]
pub struct RepoStateRef {
    pub view: Option<u64>,
    pub working_copy: Option<WorkingCopyStateRef>,
    pub git: Option<u64>,
}

/// What a [`RepoStateRef`] says.
pub ghost struct RepoStateModel {
    pub view: Option<u64>,
    pub working_copy: Option<WorkingCopyStateModel>,
    pub git: Option<u64>,
}

impl View for RepoStateRef {
    type V = RepoStateModel;

    open spec fn view(&self) -> RepoStateModel {
        RepoStateModel {
            view: self.view,
            working_copy: match self.working_copy {
                Some(state) => Some(state@),
                None => None,
            },
            git: self.git,
        }
    }
}

impl RepoStateRef {
    pub fn dup(&self) -> (copy: RepoStateRef)
        ensures
            copy@ == self@,
    {
        RepoStateRef {
            view: self.view,
            working_copy: match &self.working_copy {
                Some(state) => Some(state.dup()),
                None => None,
            },
            git: self.git,
        }
    }
}

/// What an operation says; its identity is the hash of it.
#[derive(Debug)]
pub struct OperationPayload {
    pub parents: Vec<OperationId>,
    pub kind: OperationKind,
    pub working_copy: Option<WorkingCopyId>,
    pub before: RepoStateRef,
    pub after: RepoStateRef,
    pub effects: Vec<EffectPlan>,
    pub actor: String,
    pub timestamp_ms: i64,
}

/// What an [`OperationPayload`] says.
pub ghost struct PayloadModel {
    pub parents: Seq<OperationId>,
    pub kind: OperationKind,
    pub working_copy: Option<Seq<char>>,
    pub before: RepoStateModel,
    pub after: RepoStateModel,
    pub effects: Seq<PlanModel>,
    pub actor: Seq<char>,
    pub timestamp_ms: i64,
}

impl View for OperationPayload {
    type V = PayloadModel;

    open spec fn view(&self) -> PayloadModel {
        PayloadModel {
            parents: self.parents@,
            kind: self.kind,
            working_copy: match self.working_copy {
                Some(id) => Some(id@),
                None => None,
            },
            before: self.before@,
            after: self.after@,
            effects: effects::plan_models(self.effects@),
            actor: self.actor@,
            timestamp_ms: self.timestamp_ms,
        }
    }
}

/// A published operation.
#[derive(Debug)]
pub struct Operation {
    pub id: OperationId,
    pub payload: OperationPayload,
}

/// The receipt that every replay of the same decision writes: attempt and
/// time come from the operation.
pub open spec fn receipt_of(
    id: OperationId,
    payload: PayloadModel,
    effect_ordinal: Option<u32>,
    kind: EffectReceiptKind,
    observed_old: Option<ValueModel>,
    observed_new: Option<ValueModel>,
) -> ReceiptModel {
    ReceiptModel {
        operation: id,
        effect_ordinal,
        attempt: 0,
        kind,
        observed_old,
        observed_new,
        timestamp_ms: payload.timestamp_ms,
    }
}

/// The receipt for one decision on an operation.
pub fn deterministic_effect_receipt(
    operation: &Operation,
    effect_ordinal: Option<u32>,
    kind: EffectReceiptKind,
    observed_old: Option<EffectValue>,
    observed_new: Option<EffectValue>,
) -> (receipt: EffectReceiptPayload)
    ensures
        receipt@ == receipt_of(
            operation.id,
            operation.payload@,
            effect_ordinal,
            kind,
            effects::opt_value(observed_old),
            effects::opt_value(observed_new),
        ),
{
    EffectReceiptPayload {
        operation: operation.id,
        effect_ordinal,
        attempt: 0,
        kind,
        observed_old,
        observed_new,
        timestamp_ms: operation.payload.timestamp_ms,
    }
}

/// Whether a receipt says that the whole operation was verified.
pub open spec fn verifies(receipt: ReceiptModel) -> bool {
    receipt.kind is Verified && receipt.effect_ordinal is None
}

/// Whether the operation as a whole has been verified.
pub open spec fn verified(receipts: Seq<ReceiptModel>) -> bool {
    exists|i: int| 0 <= i < receipts.len() && verifies(#[trigger] receipts[i])
}

/// Whether the operation as a whole has been verified.
pub fn has_operation_verified_receipt(receipts: &Vec<EffectReceiptPayload>) -> (answer: bool)
    ensures
        answer == verified(receipt_models(receipts@)),
{
    let ghost models = receipt_models(receipts@);
    let mut i: usize = 0;
    while i < receipts.len()
        invariant
            i <= receipts.len(),
            models == receipt_models(receipts@),
            forall|j: int| 0 <= j < i ==> !verifies(#[trigger] models[j]),
        decreases receipts.len() - i,
    {
        assert(models[i as int] == receipts@[i as int]@);
        if receipts[i].kind == EffectReceiptKind::Verified && receipts[i].effect_ordinal.is_none() {
            assert(verifies(models[i as int]));
            return true;
        }
        i = i + 1;
    }
    false
}

/// The effects that receipts say have landed, in the receipts' order.
pub open spec fn completed(receipts: Seq<ReceiptModel>) -> Seq<u32>
    decreases receipts.len(),
{
    if receipts.len() == 0 {
        Seq::empty()
    } else {
        let rest = completed(receipts.drop_last());
        let receipt = receipts.last();
        if receipt.kind.spec_succeeds() && receipt.effect_ordinal is Some {
            rest.push(receipt.effect_ordinal->0)
        } else {
            rest
        }
    }
}

/// The effects that receipts say have landed.
pub fn completed_ordinals(receipts: &Vec<EffectReceiptPayload>) -> (ordinals: Vec<u32>)
    ensures
        ordinals@ == completed(receipt_models(receipts@)),
{
    let ghost models = receipt_models(receipts@);
    let mut ordinals: Vec<u32> = Vec::new();
    let mut i: usize = 0;
    proof {
        assert(models.take(0) =~= Seq::empty());
    }
    while i < receipts.len()
        invariant
            i <= receipts.len(),
            models == receipt_models(receipts@),
            ordinals@ == completed(models.take(i as int)),
        decreases receipts.len() - i,
    {
        assert(models.take(i + 1).drop_last() =~= models.take(i as int));
        assert(models.take(i + 1).last() == receipts@[i as int]@);
        if receipts[i].kind.succeeds() {
            if let Some(ordinal) = receipts[i].effect_ordinal {
                ordinals.push(ordinal);
            }
        }
        i = i + 1;
    }
    proof {
        assert(models.take(models.len() as int) =~= models);
    }
    ordinals
}

/// Whether an operation has an effect of that ordinal.
pub open spec fn has_effect(effects: Seq<PlanModel>, ordinal: u32) -> bool {
    ordinal < effects.len() && effects[ordinal as int].ordinal == ordinal
}

/// The place of the effect of that ordinal.
pub fn effect_at(effects: &Vec<EffectPlan>, ordinal: u32) -> (place: Result<
    usize,
    OperationRefusal,
>)
    ensures
        match place {
            Ok(i) => i == ordinal && has_effect(effects::plan_models(effects@), ordinal),
            Err(refusal) => refusal == (OperationRefusal::NoSuchEffect { ordinal }) && !has_effect(
                effects::plan_models(effects@),
                ordinal,
            ),
        },
{
    let i: usize = ordinal as usize;
    if i < effects.len() {
        assert(effects::plan_models(effects@)[i as int] == effects@[i as int]@);
        if effects[i].ordinal == ordinal {
            return Ok(i);
        }
    }
    Err(OperationRefusal::NoSuchEffect { ordinal })
}

/// Why a state cannot stand in an operation of a working copy.
pub open spec fn state_refusal(state: RepoStateModel, working_copy: Seq<char>) -> Option<
    OperationRefusal,
> {
    match state.working_copy {
        Some(value) => if value.id == working_copy {
            None
        } else {
            Some(OperationRefusal::StateOfAnother)
        },
        None => Some(OperationRefusal::StateMissing),
    }
}

/// Checks that a state is that of the locked working copy.
pub fn validate_state_working_copy(state: &RepoStateRef, working_copy: &WorkingCopyId) -> (checked:
    Result<(), OperationRefusal>)
    ensures
        checked == match state_refusal(state@, working_copy@) {
            Some(refusal) => Err::<(), OperationRefusal>(refusal),
            None => Ok::<(), OperationRefusal>(()),
        },
{
    match &state.working_copy {
        Some(value) => if value.id.same(working_copy) {
            Ok(())
        } else {
            Err(OperationRefusal::StateOfAnother)
        },
        None => Err(OperationRefusal::StateMissing),
    }
}

/// Why an operation cannot be worked on under a working copy's lock.
pub open spec fn lock_refusal(payload: PayloadModel, locked: Seq<char>) -> Option<OperationRefusal> {
    match payload.working_copy {
        Some(owner) => if owner == locked {
            None
        } else {
            Some(OperationRefusal::OperationOfAnother)
        },
        None => Some(OperationRefusal::RepositoryScoped),
    }
}

/// Checks that an operation belongs to the locked working copy.
pub fn validate_operation_lock(payload: &OperationPayload, locked: &WorkingCopyId) -> (checked:
    Result<(), OperationRefusal>)
    ensures
        checked == match lock_refusal(payload@, locked@) {
            Some(refusal) => Err::<(), OperationRefusal>(refusal),
            None => Ok::<(), OperationRefusal>(()),
        },
{
    match &payload.working_copy {
        Some(owner) => if owner.same(locked) {
            Ok(())
        } else {
            Err(OperationRefusal::OperationOfAnother)
        },
        None => Err(OperationRefusal::RepositoryScoped),
    }
}

/// The sole head of a working copy, or the anchor to publish with its
/// verification receipt.
#[derive(Debug)]
pub enum AnchorPlan {
    Existing(OperationId),
    Create(OperationPayload),
}

/// The operation that anchors a working copy at a state.
pub open spec fn anchor_of(working_copy: Seq<char>, state: RepoStateModel) -> PayloadModel {
    PayloadModel {
        parents: Seq::empty(),
        kind: OperationKind::Anchor,
        working_copy: Some(working_copy),
        before: state,
        after: state,
        effects: Seq::empty(),
        actor: "cb-1b-anchor"@,
        timestamp_ms: 0,
    }
}

/// Finds the sole operation head of a working copy, or plans its anchor.
/// Several heads are refused.
pub fn ensure_working_copy_anchor(
    working_copy: &WorkingCopyId,
    state: &RepoStateRef,
    heads: &Vec<OperationId>,
) -> (plan: Result<AnchorPlan, OperationRefusal>)
    ensures
        match plan {
            Err(refusal) => if state_refusal(state@, working_copy@) is Some {
                Some(refusal) == state_refusal(state@, working_copy@)
            } else {
                heads@.len() > 1 && refusal == (OperationRefusal::MultipleHeads {
                    count: heads.len(),
                })
            },
            Ok(AnchorPlan::Existing(head)) => state_refusal(state@, working_copy@) is None
                && heads@ == seq![head],
            Ok(AnchorPlan::Create(payload)) => state_refusal(state@, working_copy@) is None
                && heads@.len() == 0 && payload@ == anchor_of(working_copy@, state@),
        },
{
    if let Err(refusal) = validate_state_working_copy(state, working_copy) {
        return Err(refusal);
    }
    if heads.len() == 1 {
        assert(heads@ =~= seq![heads@[0]]);
        Ok(AnchorPlan::Existing(heads[0]))
    } else if heads.len() == 0 {
        let payload = OperationPayload {
            parents: Vec::new(),
            kind: OperationKind::Anchor,
            working_copy: Some(working_copy.dup()),
            before: state.dup(),
            after: state.dup(),
            effects: Vec::new(),
            actor: "cb-1b-anchor".to_owned(),
            timestamp_ms: 0,
        };
        assert(payload@.effects =~= Seq::empty());
        assert(payload@.parents =~= Seq::empty());
        Ok(AnchorPlan::Create(payload))
    } else {
        Err(OperationRefusal::MultipleHeads { count: heads.len() })
    }
}

/// Why no operation can follow `expected` among the heads.
pub open spec fn head_refusal(
    heads: Seq<OperationId>,
    expected: OperationId,
    receipts: Seq<ReceiptModel>,
) -> Option<OperationRefusal> {
    if heads.len() != 1 {
        Some(OperationRefusal::MultipleHeads { count: heads.len() as usize })
    } else if heads[0] != expected {
        Some(OperationRefusal::HeadChanged)
    } else if !verified(receipts) {
        Some(OperationRefusal::IncompleteHead)
    } else {
        None
    }
}

/// Checks that `expected` is the sole head and has been verified. `receipts`
/// are its receipts.
pub fn require_complete_single_head(
    heads: &Vec<OperationId>,
    expected: OperationId,
    receipts: &Vec<EffectReceiptPayload>,
) -> (checked: Result<(), OperationRefusal>)
    ensures
        checked == match head_refusal(heads@, expected, receipt_models(receipts@)) {
            Some(refusal) => Err::<(), OperationRefusal>(refusal),
            None => Ok::<(), OperationRefusal>(()),
        },
{
    if heads.len() != 1 {
        Err(OperationRefusal::MultipleHeads { count: heads.len() })
    } else if heads[0] != expected {
        Err(OperationRefusal::HeadChanged)
    } else if !has_operation_verified_receipt(receipts) {
        Err(OperationRefusal::IncompleteHead)
    } else {
        Ok(())
    }
}

/// The value that effect `i` will find: what the effect before it on the same
/// target leaves, or what was observed.
pub open spec fn met_value(
    effects: Seq<PlanModel>,
    observed: Seq<(TargetModel, ValueModel)>,
    i: int,
) -> Option<ValueModel> {
    match recovery::last_on(effects, effects[i].target, i) {
        Some(j) => Some(effects[j].expected_new),
        None => pristine::first_value(observed, effects[i].target),
    }
}

/// Why effect `i` cannot be run when its turn comes. Targets without an
/// executor are not looked at.
pub open spec fn preflight_refusal(
    effects: Seq<PlanModel>,
    working_copy: Seq<char>,
    observed: Seq<(TargetModel, ValueModel)>,
    i: int,
) -> Option<OperationRefusal> {
    let effect = effects[i];
    if effect.target is Other {
        None
    } else if effect_paths::target_refusal(effect.target, working_copy) is Some {
        effect_paths::target_refusal(effect.target, working_copy)
    } else {
        match met_value(effects, observed, i) {
            None => Some(OperationRefusal::NotObserved { ordinal: effect.ordinal }),
            Some(value) => if value != effect.expected_old {
                Some(OperationRefusal::LeaseDiverged { ordinal: effect.ordinal })
            } else {
                None
            },
        }
    }
}

/// Why the effects from `i` on cannot be run: the first refusal.
pub open spec fn preflight_from(
    effects: Seq<PlanModel>,
    working_copy: Seq<char>,
    observed: Seq<(TargetModel, ValueModel)>,
    i: int,
) -> Option<OperationRefusal>
    decreases effects.len() - i,
{
    if i < 0 || i >= effects.len() {
        None
    } else if preflight_refusal(effects, working_copy, observed, i) is Some {
        preflight_refusal(effects, working_copy, observed, i)
    } else {
        preflight_from(effects, working_copy, observed, i + 1)
    }
}

/// Checks, without changing anything, that every effect will find its old
/// value when its turn comes.
pub fn preflight_filesystem_leases(
    effects: &Vec<EffectPlan>,
    working_copy: &WorkingCopyId,
    observations: &Vec<Observation>,
) -> (checked: Result<(), OperationRefusal>)
    ensures
        checked == match preflight_from(
            effects::plan_models(effects@),
            working_copy@,
            effects::observation_models(observations@),
            0,
        ) {
            Some(refusal) => Err::<(), OperationRefusal>(refusal),
            None => Ok::<(), OperationRefusal>(()),
        },
{
    let ghost models = effects::plan_models(effects@);
    let ghost observed = effects::observation_models(observations@);
    let mut i: usize = 0;
    while i < effects.len()
        invariant
            i <= effects.len(),
            models == effects::plan_models(effects@),
            observed == effects::observation_models(observations@),
            preflight_from(models, working_copy@, observed, 0) == preflight_from(
                models,
                working_copy@,
                observed,
                i as int,
            ),
        decreases effects.len() - i,
    {
        let effect: &EffectPlan = &effects[i];
        assert(models[i as int] == effect@);
        let skipped: bool = match &effect.target {
            EffectTarget::Other { .. } => true,
            _ => false,
        };
        if !skipped {
            if let Some(refusal) = effect_paths::refuse_target(&effect.target, working_copy) {
                return Err(refusal);
            }
            let met: bool = match recovery::find_last_on(effects, &effect.target, i) {
                Some(j) => {
                    assert(models[j as int] == effects@[j as int]@);
                    effects[j].expected_new.same(&effect.expected_old)
                },
                None => match effects::find_observation(observations, &effect.target) {
                    None => {
                        return Err(OperationRefusal::NotObserved { ordinal: effect.ordinal });
                    },
                    Some(at) => observations[at].value.same(&effect.expected_old),
                },
            };
            if !met {
                return Err(OperationRefusal::LeaseDiverged { ordinal: effect.ordinal });
            }
        }
        i = i + 1;
    }
    Ok(())
}

proof fn preflight_covers(
    effects: Seq<PlanModel>,
    working_copy: Seq<char>,
    observed: Seq<(TargetModel, ValueModel)>,
    i: int,
    j: int,
)
    requires
        0 <= i <= j < effects.len(),
        preflight_from(effects, working_copy, observed, i) is None,
    ensures
        preflight_refusal(effects, working_copy, observed, j) is None,
    decreases j - i,
{
    if i < j {
        preflight_covers(effects, working_copy, observed, i + 1, j);
    }
}

proof fn run_prefix(
    effects: Seq<PlanModel>,
    working_copy: Seq<char>,
    observed: Seq<(TargetModel, ValueModel)>,
    world: Map<TargetModel, ValueModel>,
    n: int,
)
    requires
        0 <= n <= effects.len(),
        recovery::chained(effects),
        preflight_from(effects, working_copy, observed, 0) is None,
        forall|t: TargetModel|
            pristine::first_value(observed, t) is Some ==> #[trigger] world[t]
                == pristine::first_value(observed, t)->0,
        forall|i: int|
            0 <= i < effects.len() && (#[trigger] effects[i]).target is Other
                && recovery::last_on(effects, effects[i].target, i) is None
                ==> world[effects[i].target] == effects[i].expected_old,
    ensures
        recovery::after(effects.take(n), world) is Some,
        forall|t: TargetModel|
            #[trigger] (recovery::after(effects.take(n), world)->0)[t] == match recovery::last_on(
                effects,
                t,
                n,
            ) {
                Some(j) => effects[j].expected_new,
                None => world[t],
            },
    decreases n,
{
    if n == 0 {
        assert(effects.take(0) =~= Seq::empty());
    } else {
        run_prefix(effects, working_copy, observed, world, n - 1);
        assert(effects.take(n).drop_last() =~= effects.take(n - 1));
        assert(effects.take(n).last() == effects[n - 1]);
        let before = recovery::after(effects.take(n - 1), world)->0;
        let effect = effects[n - 1];
        preflight_covers(effects, working_copy, observed, 0, n - 1);
        assert(recovery::follows(effects, n - 1));
        assert(before[effect.target] == effect.expected_old) by {
            if recovery::last_on(effects, effect.target, n - 1) is None && effect.target !is Other {
                assert(world[effect.target] == pristine::first_value(observed, effect.target)->0);
            }
        }
        assert(recovery::after(effects.take(n), world) == Some(
            before.insert(effect.target, effect.expected_new),
        ));
    }
}

/// Effects that pass the preflight run through: on the observed world each of
/// them finds its old value when its turn comes. Targets without an executor
/// count as having the value that their first effect starts from.
pub proof fn preflight_admits_execution(
    effects: Seq<PlanModel>,
    working_copy: Seq<char>,
    observed: Seq<(TargetModel, ValueModel)>,
    world: Map<TargetModel, ValueModel>,
)
    requires
        recovery::chained(effects),
        preflight_from(effects, working_copy, observed, 0) is None,
        forall|t: TargetModel|
            pristine::first_value(observed, t) is Some ==> #[trigger] world[t]
                == pristine::first_value(observed, t)->0,
        forall|i: int|
            0 <= i < effects.len() && (#[trigger] effects[i]).target is Other
                && recovery::last_on(effects, effects[i].target, i) is None
                ==> world[effects[i].target] == effects[i].expected_old,
    ensures
        recovery::after(effects, world) is Some,
{
    run_prefix(effects, working_copy, observed, world, effects.len() as int);
    assert(effects.take(effects.len() as int) =~= effects);
}

/// Why a switch cannot be prepared: a state of another working copy, a head
/// that is not the sole verified one, effects that do not chain, or a lease
/// that does not hold.
pub open spec fn switch_refusal(
    working_copy: Seq<char>,
    before: RepoStateModel,
    after: RepoStateModel,
    effects: Seq<PlanModel>,
    heads: Seq<OperationId>,
    parent: OperationId,
    receipts: Seq<ReceiptModel>,
    observed: Seq<(TargetModel, ValueModel)>,
) -> Option<OperationRefusal> {
    if state_refusal(before, working_copy) is Some {
        state_refusal(before, working_copy)
    } else if state_refusal(after, working_copy) is Some {
        state_refusal(after, working_copy)
    } else if head_refusal(heads, parent, receipts) is Some {
        head_refusal(heads, parent, receipts)
    } else if recovery::first_break(effects, 0) is Some {
        Some(
            OperationRefusal::BrokenChain {
                ordinal: effects[recovery::first_break(effects, 0)->0].ordinal,
            },
        )
    } else {
        preflight_from(effects, working_copy, observed, 0)
    }
}

/// Prepares the operation to publish before a switch touches anything.
/// `receipts` are those of `parent`, the expected head.
pub fn prepare_switch_operation(
    working_copy: &WorkingCopyId,
    before: &RepoStateRef,
    after: &RepoStateRef,
    effects: Vec<EffectPlan>,
    actor: &str,
    timestamp_ms: i64,
    heads: &Vec<OperationId>,
    parent: OperationId,
    receipts: &Vec<EffectReceiptPayload>,
    observations: &Vec<Observation>,
) -> (prepared: Result<OperationPayload, OperationRefusal>)
    ensures
        match switch_refusal(
            working_copy@,
            before@,
            after@,
            effects::plan_models(effects@),
            heads@,
            parent,
            receipt_models(receipts@),
            effects::observation_models(observations@),
        ) {
            Some(refusal) => prepared == Err::<OperationPayload, OperationRefusal>(refusal),
            None => prepared matches Ok(payload) && payload@ == (PayloadModel {
                parents: seq![parent],
                kind: OperationKind::SwitchView,
                working_copy: Some(working_copy@),
                before: before@,
                after: after@,
                effects: effects::plan_models(effects@),
                actor: actor@,
                timestamp_ms,
            }),
        },
{
    if let Err(refusal) = validate_state_working_copy(before, working_copy) {
        return Err(refusal);
    }
    if let Err(refusal) = validate_state_working_copy(after, working_copy) {
        return Err(refusal);
    }
    if let Err(refusal) = require_complete_single_head(heads, parent, receipts) {
        return Err(refusal);
    }
    if let Err(refusal) = recovery::validate_effect_target_chains(&effects) {
        return Err(refusal);
    }
    if let Err(refusal) = preflight_filesystem_leases(&effects, working_copy, observations) {
        return Err(refusal);
    }
    let mut parents: Vec<OperationId> = Vec::new();
    parents.push(parent);
    assert(parents@ =~= seq![parent]);
    Ok(
        OperationPayload {
            parents,
            kind: OperationKind::SwitchView,
            working_copy: Some(working_copy.dup()),
            before: before.dup(),
            after: after.dup(),
            effects,
            actor: actor.to_owned(),
            timestamp_ms,
        },
    )
}

/// A landed disk effect that awaits its receipt.
#[derive(Debug)]
pub struct PendingFilesystemEffect {
    pub ordinal: u32,
    pub observed_before: EffectValue,
    pub observed_after: EffectValue,
    pub mutated: bool,
}

impl PendingFilesystemEffect {
    /// Whether the disk was touched.
    pub fn mutated(&self) -> (answer: bool)
        ensures
            answer == self.mutated,
    {
        self.mutated
    }
}

/// What to do to a path on disk.
#[derive(Clone, Copy, Debug, PartialEq, Eq, Structural)]
pub enum DiskAction {
    /// Remove the entry; a directory only when it is empty.
    Remove,
    /// Replace the file at once by the prepared bytes.
    Write { mode: u32 },
    /// Create the directory under an existing parent.
    CreateDirectory { mode: u32 },
}

/// The next step of a disk effect whose target was observed.
#[derive(Debug)]
pub enum EffectStep {
    /// The new value already holds.
    Done(PendingFilesystemEffect),
    /// Neither value holds: this receipt is appended and the effect fails.
    Reject(EffectReceiptPayload),
    /// The effect is to be performed.
    Perform(DiskAction),
}

/// What putting a value on disk takes; `content` is the hash of the bytes
/// prepared for it.
pub open spec fn disk_action(
    value: ValueModel,
    content: Option<ContentHash>,
    ordinal: u32,
) -> Result<DiskAction, OperationRefusal> {
    match value {
        ValueModel::Absent => Ok(DiskAction::Remove),
        ValueModel::File(state) => match state.kind {
            FileKind::Regular => match content {
                None => Err(OperationRefusal::NeedsContent { ordinal }),
                Some(hash) => if hash != state.content {
                    Err(OperationRefusal::ContentMismatch { ordinal })
                } else {
                    Ok(DiskAction::Write { mode: state.mode })
                },
            },
            FileKind::Directory => Ok(DiskAction::CreateDirectory { mode: state.mode }),
            _ => Err(OperationRefusal::CannotMaterialize { ordinal }),
        },
        _ => Err(OperationRefusal::CannotMaterialize { ordinal }),
    }
}

/// Why effect `ordinal` of an operation cannot be executed on disk.
pub open spec fn execution_refusal(
    payload: PayloadModel,
    working_copy: Seq<char>,
    ordinal: u32,
) -> Option<OperationRefusal> {
    if lock_refusal(payload, working_copy) is Some {
        lock_refusal(payload, working_copy)
    } else if !has_effect(payload.effects, ordinal) {
        Some(OperationRefusal::NoSuchEffect { ordinal })
    } else if payload.effects[ordinal as int].target !is FilesystemPath {
        Some(OperationRefusal::UnsupportedTarget)
    } else {
        effect_paths::target_refusal(payload.effects[ordinal as int].target, working_copy)
    }
}

/// Checks that an effect can be executed on disk, before its target is
/// observed.
pub fn refuse_execution(payload: &OperationPayload, working_copy: &WorkingCopyId, ordinal: u32) -> (
    refusal: Option<OperationRefusal>)
    ensures
        refusal == execution_refusal(payload@, working_copy@, ordinal),
{
    if let Err(refusal) = validate_operation_lock(payload, working_copy) {
        return Some(refusal);
    }
    match effect_at(&payload.effects, ordinal) {
        Err(refusal) => Some(refusal),
        Ok(i) => {
            assert(effects::plan_models(payload.effects@)[i as int] == payload.effects@[i as int]@);
            match &payload.effects[i].target {
                EffectTarget::FilesystemPath { .. } => effect_paths::refuse_target(
                    &payload.effects[i].target,
                    working_copy,
                ),
                _ => Some(OperationRefusal::UnsupportedTarget),
            }
        },
    }
}

/// Decides how to execute a disk effect whose target was observed.
pub fn execute_filesystem_effect(
    operation: &Operation,
    working_copy: &WorkingCopyId,
    ordinal: u32,
    observed: &EffectValue,
    content: Option<ContentHash>,
) -> (step: Result<EffectStep, OperationRefusal>)
    ensures
        ({
            let payload = operation.payload@;
            let effect = payload.effects[ordinal as int];
            match execution_refusal(payload, working_copy@, ordinal) {
                Some(refusal) => step == Err::<EffectStep, OperationRefusal>(refusal),
                None => match effects::lease(observed@, effect.expected_old, effect.expected_new) {
                    LeaseClassification::AlreadyApplied => step matches Ok(EffectStep::Done(done))
                        && done.ordinal == ordinal && done.observed_before@ == observed@
                        && done.observed_after@ == observed@ && !done.mutated,
                    LeaseClassification::Diverged => step matches Ok(EffectStep::Reject(receipt))
                        && receipt@ == receipt_of(
                        operation.id,
                        payload,
                        Some(ordinal),
                        EffectReceiptKind::LeaseRejected,
                        Some(observed@),
                        Some(observed@),
                    ),
                    LeaseClassification::Apply => match disk_action(
                        effect.expected_new,
                        content,
                        ordinal,
                    ) {
                        Err(refusal) => step == Err::<EffectStep, OperationRefusal>(refusal),
                        Ok(action) => step == Ok::<EffectStep, OperationRefusal>(
                            EffectStep::Perform(action),
                        ),
                    },
                },
            }
        }),
{
    if let Some(refusal) = refuse_execution(&operation.payload, working_copy, ordinal) {
        return Err(refusal);
    }
    let i: usize = match effect_at(&operation.payload.effects, ordinal) {
        Err(refusal) => {
            return Err(refusal);
        },
        Ok(i) => i,
    };
    let effect: &EffectPlan = &operation.payload.effects[i];
    assert(effects::plan_models(operation.payload.effects@)[i as int] == effect@);
    match effects::classify_effect_lease(observed, &effect.expected_old, &effect.expected_new) {
        LeaseClassification::AlreadyApplied => {
            Ok(
                EffectStep::Done(
                    PendingFilesystemEffect {
                        ordinal: effect.ordinal,
                        observed_before: observed.dup(),
                        observed_after: observed.dup(),
                        mutated: false,
                    },
                ),
            )
        },
        LeaseClassification::Diverged => {
            let receipt = deterministic_effect_receipt(
                operation,
                Some(effect.ordinal),
                EffectReceiptKind::LeaseRejected,
                Some(observed.dup()),
                Some(observed.dup()),
            );
            Ok(EffectStep::Reject(receipt))
        },
        LeaseClassification::Apply => match &effect.expected_new {
            EffectValue::Absent => Ok(EffectStep::Perform(DiskAction::Remove)),
            EffectValue::File(state) => match state.kind {
                FileKind::Regular => match content {
                    None => Err(OperationRefusal::NeedsContent { ordinal }),
                    Some(hash) => if hash != state.content {
                        Err(OperationRefusal::ContentMismatch { ordinal })
                    } else {
                        Ok(EffectStep::Perform(DiskAction::Write { mode: state.mode }))
                    },
                },
                FileKind::Directory => Ok(
                    EffectStep::Perform(DiskAction::CreateDirectory { mode: state.mode }),
                ),
                _ => Err(OperationRefusal::CannotMaterialize { ordinal }),
            },
            _ => Err(OperationRefusal::CannotMaterialize { ordinal }),
        },
    }
}

/// What the receipt on an effect says, from what was observed before and
/// after it.
pub open spec fn outcome_kind(
    effect: PlanModel,
    before: ValueModel,
    after: ValueModel,
) -> EffectReceiptKind {
    if after != effect.expected_new {
        EffectReceiptKind::LeaseRejected
    } else {
        match effects::lease(before, effect.expected_old, effect.expected_new) {
            LeaseClassification::Apply => EffectReceiptKind::Applied,
            LeaseClassification::AlreadyApplied => EffectReceiptKind::Recovered,
            LeaseClassification::Diverged => EffectReceiptKind::LeaseRejected,
        }
    }
}

fn kind_of_outcome(effect: &EffectPlan, before: &EffectValue, after: &EffectValue) -> (kind:
    EffectReceiptKind)
    ensures
        kind == outcome_kind(effect@, before@, after@),
{
    if !after.same(&effect.expected_new) {
        return EffectReceiptKind::LeaseRejected;
    }
    match effects::classify_effect_lease(before, &effect.expected_old, &effect.expected_new) {
        LeaseClassification::Apply => EffectReceiptKind::Applied,
        LeaseClassification::AlreadyApplied => EffectReceiptKind::Recovered,
        LeaseClassification::Diverged => EffectReceiptKind::LeaseRejected,
    }
}

/// Settles a performed disk effect by what was observed after it: the landed
/// effect, or the receipt of its rejection.
pub fn settle_filesystem_effect(
    operation: &Operation,
    ordinal: u32,
    before: &EffectValue,
    after: &EffectValue,
) -> (settled: Result<PendingFilesystemEffect, EffectReceiptPayload>)
    requires
        has_effect(operation.payload@.effects, ordinal),
    ensures
        if after@ == operation.payload@.effects[ordinal as int].expected_new {
            settled matches Ok(done) && done.ordinal == ordinal && done.observed_before@ == before@
                && done.observed_after@ == after@ && done.mutated
        } else {
            settled matches Err(receipt) && receipt@ == receipt_of(
                operation.id,
                operation.payload@,
                Some(ordinal),
                EffectReceiptKind::LeaseRejected,
                Some(before@),
                Some(after@),
            )
        },
{
    let effect: &EffectPlan = &operation.payload.effects[ordinal as usize];
    assert(effects::plan_models(operation.payload.effects@)[ordinal as int] == effect@);
    if after.same(&effect.expected_new) {
        Ok(
            PendingFilesystemEffect {
                ordinal,
                observed_before: before.dup(),
                observed_after: after.dup(),
                mutated: true,
            },
        )
    } else {
        Err(
            deterministic_effect_receipt(
                operation,
                Some(ordinal),
                EffectReceiptKind::LeaseRejected,
                Some(before.dup()),
                Some(after.dup()),
            ),
        )
    }
}

/// The receipt to append on an effect. One that says that the lease was
/// rejected is appended too, and the effect then fails.
pub fn record_effect_outcome(
    operation: &Operation,
    working_copy: &WorkingCopyId,
    ordinal: u32,
    before: EffectValue,
    after: EffectValue,
) -> (receipt: Result<EffectReceiptPayload, OperationRefusal>)
    ensures
        ({
            let payload = operation.payload@;
            if lock_refusal(payload, working_copy@) is Some {
                receipt == Err::<EffectReceiptPayload, OperationRefusal>(
                    lock_refusal(payload, working_copy@)->0,
                )
            } else if !has_effect(payload.effects, ordinal) {
                receipt == Err::<EffectReceiptPayload, OperationRefusal>(
                    OperationRefusal::NoSuchEffect { ordinal },
                )
            } else {
                receipt matches Ok(receipt) && receipt@ == receipt_of(
                    operation.id,
                    payload,
                    Some(ordinal),
                    outcome_kind(payload.effects[ordinal as int], before@, after@),
                    Some(before@),
                    Some(after@),
                )
            }
        }),
{
    if let Err(refusal) = validate_operation_lock(&operation.payload, working_copy) {
        return Err(refusal);
    }
    match effect_at(&operation.payload.effects, ordinal) {
        Err(refusal) => Err(refusal),
        Ok(i) => {
            let effect: &EffectPlan = &operation.payload.effects[i];
            assert(effects::plan_models(operation.payload.effects@)[i as int] == effect@);
            let kind: EffectReceiptKind = kind_of_outcome(effect, &before, &after);
            Ok(
                deterministic_effect_receipt(
                    operation,
                    Some(ordinal),
                    kind,
                    Some(before),
                    Some(after),
                ),
            )
        },
    }
}

/// The receipt of a landed disk effect, and whether the disk was touched.
pub fn record_pending_filesystem_effect(
    operation: &Operation,
    working_copy: &WorkingCopyId,
    pending: PendingFilesystemEffect,
) -> (recorded: Result<(EffectReceiptPayload, bool), OperationRefusal>)
    ensures
        ({
            let payload = operation.payload@;
            if lock_refusal(payload, working_copy@) is Some {
                recorded == Err::<(EffectReceiptPayload, bool), OperationRefusal>(
                    lock_refusal(payload, working_copy@)->0,
                )
            } else if !has_effect(payload.effects, pending.ordinal) {
                recorded == Err::<(EffectReceiptPayload, bool), OperationRefusal>(
                    OperationRefusal::NoSuchEffect { ordinal: pending.ordinal },
                )
            } else {
                recorded matches Ok((receipt, mutated)) && mutated == pending.mutated && receipt@
                    == receipt_of(
                    operation.id,
                    payload,
                    Some(pending.ordinal),
                    outcome_kind(
                        payload.effects[pending.ordinal as int],
                        pending.observed_before@,
                        pending.observed_after@,
                    ),
                    Some(pending.observed_before@),
                    Some(pending.observed_after@),
                )
            }
        }),
{
    let mutated: bool = pending.mutated;
    match record_effect_outcome(
        operation,
        working_copy,
        pending.ordinal,
        pending.observed_before,
        pending.observed_after,
    ) {
        Err(refusal) => Err(refusal),
        Ok(receipt) => Ok((receipt, mutated)),
    }
}

/// The receipt of an effect that its lease rejected.
pub fn append_rejected_effect_outcome(
    operation: &Operation,
    ordinal: u32,
    before: EffectValue,
    after: Option<EffectValue>,
) -> (receipt: Result<EffectReceiptPayload, OperationRefusal>)
    ensures
        if has_effect(operation.payload@.effects, ordinal) {
            receipt matches Ok(receipt) && receipt@ == receipt_of(
                operation.id,
                operation.payload@,
                Some(ordinal),
                EffectReceiptKind::LeaseRejected,
                Some(before@),
                effects::opt_value(after),
            )
        } else {
            receipt == Err::<EffectReceiptPayload, OperationRefusal>(
                OperationRefusal::NoSuchEffect { ordinal },
            )
        },
{
    match effect_at(&operation.payload.effects, ordinal) {
        Err(refusal) => Err(refusal),
        Ok(_) => Ok(
            deterministic_effect_receipt(
                operation,
                Some(ordinal),
                EffectReceiptKind::LeaseRejected,
                Some(before),
                after,
            ),
        ),
    }
}

/// The receipt of an effect that landed; one that did not is refused.
pub fn append_successful_effect_outcome(
    operation: &Operation,
    ordinal: u32,
    before: EffectValue,
    after: EffectValue,
) -> (receipt: Result<EffectReceiptPayload, OperationRefusal>)
    ensures
        ({
            let payload = operation.payload@;
            let kind = outcome_kind(payload.effects[ordinal as int], before@, after@);
            if !has_effect(payload.effects, ordinal) {
                receipt == Err::<EffectReceiptPayload, OperationRefusal>(
                    OperationRefusal::NoSuchEffect { ordinal },
                )
            } else if kind is LeaseRejected {
                receipt == Err::<EffectReceiptPayload, OperationRefusal>(
                    OperationRefusal::LeaseDiverged { ordinal },
                )
            } else {
                receipt matches Ok(receipt) && receipt@ == receipt_of(
                    operation.id,
                    payload,
                    Some(ordinal),
                    kind,
                    Some(before@),
                    Some(after@),
                )
            }
        }),
{
    match effect_at(&operation.payload.effects, ordinal) {
        Err(refusal) => Err(refusal),
        Ok(i) => {
            let effect: &EffectPlan = &operation.payload.effects[i];
            assert(effects::plan_models(operation.payload.effects@)[i as int] == effect@);
            let kind: EffectReceiptKind = kind_of_outcome(effect, &before, &after);
            if kind == EffectReceiptKind::LeaseRejected {
                return Err(OperationRefusal::LeaseDiverged { ordinal });
            }
            Ok(
                deterministic_effect_receipt(
                    operation,
                    Some(ordinal),
                    kind,
                    Some(before),
                    Some(after),
                ),
            )
        },
    }
}

/// Recording the same outcome twice writes one receipt: the two payloads are
/// equal. A receipt of success says that the target has its new value.
pub proof fn outcomes_are_deterministic(
    id: OperationId,
    payload: PayloadModel,
    ordinal: u32,
    before: ValueModel,
    after: ValueModel,
)
    requires
        has_effect(payload.effects, ordinal),
    ensures
        ({
            let kind = outcome_kind(payload.effects[ordinal as int], before, after);
            let receipt = receipt_of(id, payload, Some(ordinal), kind, Some(before), Some(after));
            &&& receipt.attempt == 0
            &&& receipt.timestamp_ms == payload.timestamp_ms
            &&& kind.spec_succeeds() <==> after == payload.effects[ordinal as int].expected_new && (
            before == payload.effects[ordinal as int].expected_old || before
                == payload.effects[ordinal as int].expected_new)
            &&& kind.spec_succeeds() || kind is LeaseRejected
        }),
{
}

/// Why an operation cannot be verified for want of a receipt: the first
/// effect from `i` on without a successful one.
pub open spec fn unfinished_from(effects: Seq<PlanModel>, done: Seq<u32>, i: int) -> Option<
    OperationRefusal,
>
    decreases effects.len() - i,
{
    if i < 0 || i >= effects.len() {
        None
    } else if !done.contains(effects[i].ordinal) {
        Some(OperationRefusal::Unfinished { ordinal: effects[i].ordinal })
    } else {
        unfinished_from(effects, done, i + 1)
    }
}

/// The value that the last effect on a target leaves.
pub open spec fn final_value(effects: Seq<PlanModel>, target: TargetModel) -> ValueModel {
    effects[recovery::last_on(effects, target, effects.len() as int)->0].expected_new
}

/// Why the targets first met from effect `i` on do not have their final
/// values.
pub open spec fn unsettled_from(
    effects: Seq<PlanModel>,
    working_copy: Seq<char>,
    observed: Seq<(TargetModel, ValueModel)>,
    i: int,
) -> Option<OperationRefusal>
    decreases effects.len() - i,
{
    if i < 0 || i >= effects.len() {
        None
    } else {
        let target = effects[i].target;
        if recovery::last_on(effects, target, i) is Some {
            unsettled_from(effects, working_copy, observed, i + 1)
        } else if effect_paths::target_refusal(target, working_copy) is Some {
            effect_paths::target_refusal(target, working_copy)
        } else {
            match pristine::first_value(observed, target) {
                None => Some(OperationRefusal::NotObserved { ordinal: effects[i].ordinal }),
                Some(value) => if value != final_value(effects, target) {
                    Some(OperationRefusal::FinalMismatch { ordinal: effects[i].ordinal })
                } else {
                    unsettled_from(effects, working_copy, observed, i + 1)
                },
            }
        }
    }
}

proof fn last_on_exists(effects: Seq<PlanModel>, i: int, n: int)
    requires
        0 <= i < n <= effects.len(),
    ensures
        recovery::last_on(effects, effects[i].target, n) is Some,
    decreases n,
{
    if effects[n - 1].target != effects[i].target {
        last_on_exists(effects, i, n - 1);
    }
}

fn find_unsettled(
    effects: &Vec<EffectPlan>,
    working_copy: &WorkingCopyId,
    observations: &Vec<Observation>,
) -> (refusal: Option<OperationRefusal>)
    ensures
        refusal == unsettled_from(
            effects::plan_models(effects@),
            working_copy@,
            effects::observation_models(observations@),
            0,
        ),
{
    let ghost models = effects::plan_models(effects@);
    let ghost observed = effects::observation_models(observations@);
    let mut i: usize = 0;
    while i < effects.len()
        invariant
            i <= effects.len(),
            models == effects::plan_models(effects@),
            observed == effects::observation_models(observations@),
            unsettled_from(models, working_copy@, observed, 0) == unsettled_from(
                models,
                working_copy@,
                observed,
                i as int,
            ),
        decreases effects.len() - i,
    {
        let effect: &EffectPlan = &effects[i];
        assert(models[i as int] == effect@);
        if recovery::find_last_on(effects, &effect.target, i).is_none() {
            if let Some(refusal) = effect_paths::refuse_target(&effect.target, working_copy) {
                return Some(refusal);
            }
            match effects::find_observation(observations, &effect.target) {
                None => {
                    return Some(OperationRefusal::NotObserved { ordinal: effect.ordinal });
                },
                Some(at) => {
                    proof {
                        last_on_exists(models, i as int, models.len() as int);
                    }
                    if let Some(j) = recovery::find_last_on(
                        effects,
                        &effect.target,
                        effects.len(),
                    ) {
                        assert(models[j as int] == effects@[j as int]@);
                        if !observations[at].value.same(&effects[j].expected_new) {
                            return Some(
                                OperationRefusal::FinalMismatch { ordinal: effect.ordinal },
                            );
                        }
                    }
                },
            }
        }
        i = i + 1;
    }
    None
}

/// Why an operation cannot be verified.
pub open spec fn verification_refusal(
    payload: PayloadModel,
    working_copy: Seq<char>,
    receipts: Seq<ReceiptModel>,
    observed: Seq<(TargetModel, ValueModel)>,
) -> Option<OperationRefusal> {
    if lock_refusal(payload, working_copy) is Some {
        lock_refusal(payload, working_copy)
    } else if unfinished_from(payload.effects, completed(receipts), 0) is Some {
        unfinished_from(payload.effects, completed(receipts), 0)
    } else {
        unsettled_from(payload.effects, working_copy, observed, 0)
    }
}

/// The receipt that the whole operation was verified: every effect has a
/// successful receipt and every target its final value.
pub fn finalize_operation_verified(
    operation: &Operation,
    working_copy: &WorkingCopyId,
    receipts: &Vec<EffectReceiptPayload>,
    observations: &Vec<Observation>,
) -> (receipt: Result<EffectReceiptPayload, OperationRefusal>)
    ensures
        match verification_refusal(
            operation.payload@,
            working_copy@,
            receipt_models(receipts@),
            effects::observation_models(observations@),
        ) {
            Some(refusal) => receipt == Err::<EffectReceiptPayload, OperationRefusal>(refusal),
            None => receipt matches Ok(receipt) && receipt@ == receipt_of(
                operation.id,
                operation.payload@,
                None,
                EffectReceiptKind::Verified,
                None,
                None,
            ),
        },
{
    if let Err(refusal) = validate_operation_lock(&operation.payload, working_copy) {
        return Err(refusal);
    }
    let done: Vec<u32> = completed_ordinals(receipts);
    let effects: &Vec<EffectPlan> = &operation.payload.effects;
    let ghost models = effects::plan_models(effects@);
    let mut i: usize = 0;
    while i < effects.len()
        invariant
            i <= effects.len(),
            models == effects::plan_models(effects@),
            unfinished_from(models, done@, 0) == unfinished_from(models, done@, i as int),
            operation.payload@.effects == models,
            done@ == completed(receipt_models(receipts@)),
            lock_refusal(operation.payload@, working_copy@) is None,
        decreases effects.len() - i,
    {
        assert(models[i as int] == effects@[i as int]@);
        if !crate::pristine::holds_ordinal(&done, effects[i].ordinal) {
            return Err(OperationRefusal::Unfinished { ordinal: effects[i].ordinal });
        }
        i = i + 1;
    }
    if let Some(refusal) = find_unsettled(effects, working_copy, observations) {
        return Err(refusal);
    }
    Ok(
        deterministic_effect_receipt(operation, None, EffectReceiptKind::Verified, None, None),
    )
}

proof fn settled_covers(
    effects: Seq<PlanModel>,
    working_copy: Seq<char>,
    observed: Seq<(TargetModel, ValueModel)>,
    i: int,
    j: int,
)
    requires
        0 <= i <= j < effects.len(),
        unsettled_from(effects, working_copy, observed, i) is None,
        recovery::last_on(effects, effects[j].target, j) is None,
    ensures
        pristine::first_value(observed, effects[j].target) == Some(
            final_value(effects, effects[j].target),
        ),
    decreases j - i,
{
    if i < j {
        settled_covers(effects, working_copy, observed, i + 1, j);
    }
}

proof fn first_on(effects: Seq<PlanModel>, i: int) -> (first: int)
    requires
        0 <= i < effects.len(),
    ensures
        0 <= first <= i,
        effects[first].target == effects[i].target,
        recovery::last_on(effects, effects[first].target, first) is None,
    decreases i,
{
    if recovery::last_on(effects, effects[i].target, i) is None {
        i
    } else {
        last_on_within(effects, effects[i].target, i);
        first_on(effects, recovery::last_on(effects, effects[i].target, i)->0)
    }
}

proof fn last_on_within(effects: Seq<PlanModel>, target: TargetModel, n: int)
    requires
        0 <= n <= effects.len(),
    ensures
        recovery::last_on(effects, target, n) matches Some(j) ==> 0 <= j < n
            && effects[j].target == target,
    decreases n,
{
    if n > 0 && effects[n - 1].target != target {
        last_on_within(effects, target, n - 1);
    }
}

proof fn finished_covers(effects: Seq<PlanModel>, done: Seq<u32>, i: int, j: int)
    requires
        0 <= i <= j < effects.len(),
        unfinished_from(effects, done, i) is None,
    ensures
        done.contains(effects[j].ordinal),
    decreases j - i,
{
    if i < j {
        finished_covers(effects, done, i + 1, j);
    }
}

/// A verified operation is complete: every one of its effects has a receipt
/// of success, and every target was seen with the value that the last effect
/// on it leaves.
pub proof fn verification_is_complete(
    payload: PayloadModel,
    working_copy: Seq<char>,
    receipts: Seq<ReceiptModel>,
    observed: Seq<(TargetModel, ValueModel)>,
)
    requires
        verification_refusal(payload, working_copy, receipts, observed) is None,
    ensures
        forall|i: int|
            0 <= i < payload.effects.len() ==> {
                &&& completed(receipts).contains((#[trigger] payload.effects[i]).ordinal)
                &&& pristine::first_value(observed, payload.effects[i].target) == Some(
                    final_value(payload.effects, payload.effects[i].target),
                )
            },
{
    let effects = payload.effects;
    assert forall|i: int| 0 <= i < effects.len() implies completed(receipts).contains(
        (#[trigger] effects[i]).ordinal,
    ) && pristine::first_value(observed, effects[i].target) == Some(
        final_value(effects, effects[i].target),
    ) by {
        finished_covers(effects, completed(receipts), 0, i);
        let first = first_on(effects, i);
        settled_covers(effects, working_copy, observed, 0, first);
    }
}

/// Whether a working copy's operations must be recovered before it is used:
/// it has several heads, or a sole head that was not verified. `receipts` are
/// those of the first head.
pub fn working_copy_operation_requires_recovery(
    heads: &Vec<OperationId>,
    receipts: &Vec<EffectReceiptPayload>,
) -> (needed: bool)
    ensures
        needed == (heads@.len() > 1 || heads@.len() == 1 && !verified(receipt_models(receipts@))),
{
    if heads.len() > 1 {
        true
    } else if heads.len() == 0 {
        false
    } else {
        !has_operation_verified_receipt(receipts)
    }
}

/// The operation that a recovery operation takes back.
pub fn sole_recovery_parent(payload: &OperationPayload) -> (parent: Result<
    OperationId,
    OperationRefusal,
>)
    ensures
        match parent {
            Ok(id) => payload.parents@ == seq![id],
            Err(refusal) => payload.parents@.len() != 1 && refusal == (
            OperationRefusal::RecoveryParents { count: payload.parents.len() }),
        },
{
    if payload.parents.len() == 1 {
        assert(payload.parents@ =~= seq![payload.parents@[0]]);
        Ok(payload.parents[0])
    } else {
        Err(OperationRefusal::RecoveryParents { count: payload.parents.len() })
    }
}

/// The operation that takes `original` back by the given effects.
pub open spec fn inverse_of(
    id: OperationId,
    original: PayloadModel,
    effects: Seq<PlanModel>,
) -> PayloadModel {
    PayloadModel {
        parents: seq![id],
        kind: OperationKind::Recover,
        working_copy: original.working_copy,
        before: original.after,
        after: original.before,
        effects,
        actor: "cb-1b-recovery"@,
        timestamp_ms: original.timestamp_ms,
    }
}

/// The operation that takes an interrupted one back.
pub fn inverse_recovery_operation(
    original: &Operation,
    working_copy: &WorkingCopyId,
    receipts: &Vec<EffectReceiptPayload>,
    observations: &Vec<Observation>,
) -> (inverse: Result<OperationPayload, OperationRefusal>)
    requires
        recovery::numbered(original.payload@.effects),
    ensures
        match recovery::inverse_effects(
            original.payload@.effects,
            working_copy@,
            completed(receipt_models(receipts@)),
            effects::observation_models(observations@),
        ) {
            Err(refusal) => inverse == Err::<OperationPayload, OperationRefusal>(refusal),
            Ok(effects) => inverse matches Ok(payload) && payload@ == inverse_of(
                original.id,
                original.payload@,
                effects,
            ),
        },
{
    let done: Vec<u32> = completed_ordinals(receipts);
    match recovery::inverse_recovery_effects(
        &original.payload.effects,
        working_copy,
        &done,
        observations,
    ) {
        Err(refusal) => Err(refusal),
        Ok(effects) => {
            let mut parents: Vec<OperationId> = Vec::new();
            parents.push(original.id);
            assert(parents@ =~= seq![original.id]);
            Ok(
                OperationPayload {
                    parents,
                    kind: OperationKind::Recover,
                    working_copy: match &original.payload.working_copy {
                        Some(id) => Some(id.dup()),
                        None => None,
                    },
                    before: original.payload.after.dup(),
                    after: original.payload.before.dup(),
                    effects,
                    actor: "cb-1b-recovery".to_owned(),
                    timestamp_ms: original.payload.timestamp_ms,
                },
            )
        },
    }
}

/// What a working copy's heads ask for.
#[derive(Clone, Copy, Debug, PartialEq, Eq, Structural)]
pub enum HeadState {
    NoOperation,
    Head(OperationId),
}

/// The sole head of a working copy, if any; several are refused.
pub fn recovery_head(heads: &Vec<OperationId>) -> (found: Result<HeadState, OperationRefusal>)
    ensures
        found == if heads@.len() == 0 {
            Ok::<HeadState, OperationRefusal>(HeadState::NoOperation)
        } else if heads@.len() == 1 {
            Ok(HeadState::Head(heads@[0]))
        } else {
            Err(OperationRefusal::MultipleHeads { count: heads.len() })
        },
{
    if heads.len() == 0 {
        Ok(HeadState::NoOperation)
    } else if heads.len() == 1 {
        Ok(HeadState::Head(heads[0]))
    } else {
        Err(OperationRefusal::MultipleHeads { count: heads.len() })
    }
}

/// What recovering a head takes.
#[derive(Debug)]
pub enum RecoveryPlan {
    /// The head has been verified.
    AlreadyComplete,
    /// The head is a recovery of this operation, to be resumed in place.
    Resume { original: OperationId },
    /// This recovery is to be published as the head's only child.
    Start(OperationPayload),
}

/// Decides how to recover the sole head of a working copy. A head that is a
/// recovery itself is resumed, any other one that was not verified gets an
/// inverse.
pub fn recover_incomplete_operation(
    head: &Operation,
    working_copy: &WorkingCopyId,
    receipts: &Vec<EffectReceiptPayload>,
    observations: &Vec<Observation>,
) -> (plan: Result<RecoveryPlan, OperationRefusal>)
    requires
        recovery::numbered(head.payload@.effects),
    ensures
        ({
            let payload = head.payload@;
            let models = receipt_models(receipts@);
            if lock_refusal(payload, working_copy@) is Some {
                plan == Err::<RecoveryPlan, OperationRefusal>(
                    lock_refusal(payload, working_copy@)->0,
                )
            } else if verified(models) {
                plan == Ok::<RecoveryPlan, OperationRefusal>(RecoveryPlan::AlreadyComplete)
            } else if payload.kind is Recover {
                if payload.parents.len() == 1 {
                    plan == Ok::<RecoveryPlan, OperationRefusal>(
                        RecoveryPlan::Resume { original: payload.parents[0] },
                    )
                } else {
                    plan == Err::<RecoveryPlan, OperationRefusal>(
                        OperationRefusal::RecoveryParents { count: payload.parents.len() as usize },
                    )
                }
            } else {
                match recovery::inverse_effects(
                    payload.effects,
                    working_copy@,
                    completed(models),
                    effects::observation_models(observations@),
                ) {
                    Err(refusal) => plan == Err::<RecoveryPlan, OperationRefusal>(refusal),
                    Ok(effects) => plan matches Ok(RecoveryPlan::Start(inverse)) && inverse@
                        == inverse_of(head.id, payload, effects),
                }
            }
        }),
{
    if let Err(refusal) = validate_operation_lock(&head.payload, working_copy) {
        return Err(refusal);
    }
    if has_operation_verified_receipt(receipts) {
        return Ok(RecoveryPlan::AlreadyComplete);
    }
    if head.payload.kind == OperationKind::Recover {
        return match sole_recovery_parent(&head.payload) {
            Err(refusal) => Err(refusal),
            Ok(original) => Ok(RecoveryPlan::Resume { original }),
        };
    }
    match inverse_recovery_operation(head, working_copy, receipts, observations) {
        Err(refusal) => Err(refusal),
        Ok(inverse) => Ok(RecoveryPlan::Start(inverse)),
    }
}

} // verus!
