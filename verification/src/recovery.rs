//! Undoing an interrupted operation: which of its effects landed, and the
//! effects that take them back.

use crate::effect_paths;
use crate::effects;
use crate::effects::{
    EffectPlan, EffectTarget, EffectValue, Observation, OperationRefusal, PlanModel, TargetModel,
    ValueModel,
};
use crate::pristine;
use crate::types::WorkingCopyId;
use vstd::prelude::*;

verus! {

/// Effects carry their place as ordinal.
pub open spec fn numbered(effects: Seq<PlanModel>) -> bool {
    forall|i: int| 0 <= i < effects.len() ==> (#[trigger] effects[i]).ordinal == i
}

/// Place of the last of the first `n` effects on a target.
pub open spec fn last_on(effects: Seq<PlanModel>, target: TargetModel, n: int) -> Option<int>
    decreases n,
{
    if n <= 0 {
        None
    } else if effects[n - 1].target == target {
        Some(n - 1)
    } else {
        last_on(effects, target, n - 1)
    }
}

/// Whether effect `i` starts from where the effect before it on the same
/// target ends.
pub open spec fn follows(effects: Seq<PlanModel>, i: int) -> bool {
    match last_on(effects, effects[i].target, i) {
        Some(j) => effects[j].expected_new == effects[i].expected_old,
        None => true,
    }
}

/// Every effect starts from where the one before it on the same target ends.
pub open spec fn chained(effects: Seq<PlanModel>) -> bool {
    forall|i: int| 0 <= i < effects.len() ==> #[trigger] follows(effects, i)
}

/// Place of the last of the first `n` effects on a target.
pub fn find_last_on(effects: &Vec<EffectPlan>, target: &EffectTarget, n: usize) -> (found: Option<
    usize,
>)
    requires
        n <= effects@.len(),
    ensures
        match found {
            Some(j) => j < n && last_on(effects::plan_models(effects@), target@, n as int) == Some(
                j as int,
            ),
            None => last_on(effects::plan_models(effects@), target@, n as int) is None,
        },
{
    let ghost models = effects::plan_models(effects@);
    let mut k: usize = n;
    while k > 0
        invariant
            k <= n <= effects@.len(),
            models == effects::plan_models(effects@),
            last_on(models, target@, n as int) == last_on(models, target@, k as int),
        decreases k,
    {
        assert(models[k - 1] == effects@[k - 1]@);
        if effects[k - 1].target.same(target) {
            return Some(k - 1);
        }
        k = k - 1;
    }
    None
}

/// The first effect from `i` on that does not start from where the effect
/// before it on the same target ends.
pub open spec fn first_break(effects: Seq<PlanModel>, i: int) -> Option<int>
    decreases effects.len() - i,
{
    if i < 0 || i >= effects.len() {
        None
    } else if !follows(effects, i) {
        Some(i)
    } else {
        first_break(effects, i + 1)
    }
}

/// Refuses effects that repeat a target without starting from where the one
/// before ends, with the first such effect.
pub fn validate_effect_target_chains(effects: &Vec<EffectPlan>) -> (checked: Result<
    (),
    OperationRefusal,
>)
    ensures
        checked == match first_break(effects::plan_models(effects@), 0) {
            Some(i) => Err::<(), OperationRefusal>(
                OperationRefusal::BrokenChain {
                    ordinal: effects::plan_models(effects@)[i].ordinal,
                },
            ),
            None => Ok::<(), OperationRefusal>(()),
        },
        checked is Ok <==> chained(effects::plan_models(effects@)),
{
    let ghost models = effects::plan_models(effects@);
    let mut i: usize = 0;
    while i < effects.len()
        invariant
            i <= effects.len(),
            models == effects::plan_models(effects@),
            first_break(models, 0) == first_break(models, i as int),
            forall|j: int| 0 <= j < i ==> #[trigger] follows(models, j),
        decreases effects.len() - i,
    {
        assert(models[i as int] == effects@[i as int]@);
        if let Some(j) = find_last_on(effects, &effects[i].target, i) {
            assert(models[j as int] == effects@[j as int]@);
            if !effects[j].expected_new.same(&effects[i].expected_old) {
                assert(!follows(models, i as int));
                return Err(OperationRefusal::BrokenChain { ordinal: effects[i].ordinal });
            }
        }
        assert(follows(models, i as int));
        i = i + 1;
    }
    Ok(())
}

/// The places of the effects on a target among the first `n`.
pub open spec fn chain(effects: Seq<PlanModel>, target: TargetModel, n: int) -> Seq<int>
    decreases n,
{
    if n <= 0 {
        Seq::empty()
    } else {
        let rest = chain(effects, target, n - 1);
        if effects[n - 1].target == target {
            rest.push(n - 1)
        } else {
            rest
        }
    }
}

/// The value of a chain's target after its first `k` effects.
pub open spec fn stage(effects: Seq<PlanModel>, places: Seq<int>, k: int) -> ValueModel {
    if k == 0 {
        effects[places[0]].expected_old
    } else {
        effects[places[k - 1]].expected_new
    }
}

/// How far a chain has certainly come: past its last effect with a successful
/// receipt among the first `n`.
pub open spec fn certain(
    effects: Seq<PlanModel>,
    places: Seq<int>,
    completed: Seq<u32>,
    n: int,
) -> int
    decreases n,
{
    if n <= 0 {
        0
    } else if completed.contains(effects[places[n - 1]].ordinal) {
        n
    } else {
        certain(effects, places, completed, n - 1)
    }
}

/// The stages from `least` on, among the first `n`, at which the target has
/// the observed value.
pub open spec fn possible(
    effects: Seq<PlanModel>,
    places: Seq<int>,
    least: int,
    observed: ValueModel,
    n: int,
) -> Seq<int>
    decreases n,
{
    if n <= 0 {
        Seq::empty()
    } else {
        let rest = possible(effects, places, least, observed, n - 1);
        if n - 1 >= least && stage(effects, places, n - 1) == observed {
            rest.push(n - 1)
        } else {
            rest
        }
    }
}

/// How many effects of a chain have landed: the only stage with the observed
/// value that receipts allow. Each receipt is written before the next effect
/// on the same target may run, so without a receipt a chain that returns to
/// its initial value has not started.
pub open spec fn reached(
    effects: Seq<PlanModel>,
    places: Seq<int>,
    completed: Seq<u32>,
    observed: ValueModel,
    ordinal: u32,
) -> Result<int, OperationRefusal> {
    let least = certain(effects, places, completed, places.len() as int);
    let stages = possible(effects, places, least, observed, places.len() as int + 1);
    if stages.len() == 1 {
        Ok(stages[0])
    } else if stages.len() == 0 {
        Err(OperationRefusal::DivergedBeforeRecovery { ordinal })
    } else if least == 0 && stages[0] == 0 {
        Ok(0)
    } else {
        Err(OperationRefusal::AmbiguousChain { ordinal })
    }
}

/// Adds to `reach` how far the targets first met from effect `i` on have come.
pub open spec fn reach_from(
    effects: Seq<PlanModel>,
    working_copy: Seq<char>,
    completed: Seq<u32>,
    observed: Seq<(TargetModel, ValueModel)>,
    i: int,
    reach: Seq<(TargetModel, int)>,
) -> Result<Seq<(TargetModel, int)>, OperationRefusal>
    decreases effects.len() - i,
{
    if i < 0 || i >= effects.len() {
        Ok(reach)
    } else if pristine::first_value(reach, effects[i].target) is Some {
        reach_from(effects, working_copy, completed, observed, i + 1, reach)
    } else if effect_paths::target_refusal(effects[i].target, working_copy) is Some {
        Err(effect_paths::target_refusal(effects[i].target, working_copy)->0)
    } else {
        match pristine::first_value(observed, effects[i].target) {
            None => Err(OperationRefusal::NotObserved { ordinal: effects[i].ordinal }),
            Some(value) => match reached(
                effects,
                chain(effects, effects[i].target, effects.len() as int),
                completed,
                value,
                effects[i].ordinal,
            ) {
                Err(refusal) => Err(refusal),
                Ok(k) => reach_from(
                    effects,
                    working_copy,
                    completed,
                    observed,
                    i + 1,
                    reach.push((effects[i].target, k)),
                ),
            },
        }
    }
}

/// How many effects on effect `i`'s target come before it.
pub open spec fn rank(effects: Seq<PlanModel>, i: int) -> int {
    chain(effects, effects[i].target, i).len() as int
}

/// Whether effect `i` has landed.
pub open spec fn landed(effects: Seq<PlanModel>, reach: Seq<(TargetModel, int)>, i: int) -> bool {
    match pristine::first_value(reach, effects[i].target) {
        Some(k) => rank(effects, i) < k,
        None => false,
    }
}

/// The effects that take back the landed ones among the first `n`, last
/// first, after `found`.
pub open spec fn inverse_from(
    effects: Seq<PlanModel>,
    reach: Seq<(TargetModel, int)>,
    n: int,
    found: Seq<PlanModel>,
) -> Seq<PlanModel>
    decreases n,
{
    if n <= 0 {
        found
    } else if landed(effects, reach, n - 1) {
        inverse_from(
            effects,
            reach,
            n - 1,
            found.push(
                PlanModel {
                    ordinal: found.len() as u32,
                    target: effects[n - 1].target,
                    expected_old: effects[n - 1].expected_new,
                    expected_new: effects[n - 1].expected_old,
                },
            ),
        )
    } else {
        inverse_from(effects, reach, n - 1, found)
    }
}

/// The effects that take an interrupted operation back.
pub open spec fn inverse_effects(
    effects: Seq<PlanModel>,
    working_copy: Seq<char>,
    completed: Seq<u32>,
    observed: Seq<(TargetModel, ValueModel)>,
) -> Result<Seq<PlanModel>, OperationRefusal> {
    match reach_from(effects, working_copy, completed, observed, 0, Seq::empty()) {
        Err(refusal) => Err(refusal),
        Ok(reach) => Ok(inverse_from(effects, reach, effects.len() as int, Seq::empty())),
    }
}

fn find_chain(effects: &Vec<EffectPlan>, target: &EffectTarget) -> (places: Vec<usize>)
    ensures
        places@.map_values(|k: usize| k as int) == chain(
            effects::plan_models(effects@),
            target@,
            effects@.len() as int,
        ),
        forall|k: int| 0 <= k < places@.len() ==> (#[trigger] places@[k]) < effects@.len(),
{
    let ghost models = effects::plan_models(effects@);
    let ghost wide = |k: usize| k as int;
    let mut places: Vec<usize> = Vec::new();
    let mut n: usize = 0;
    proof {
        assert(places@.map_values(wide) =~= chain(models, target@, 0));
    }
    while n < effects.len()
        invariant
            n <= effects.len(),
            models == effects::plan_models(effects@),
            wide == (|k: usize| k as int),
            places@.map_values(wide) == chain(models, target@, n as int),
            forall|k: int| 0 <= k < places@.len() ==> (#[trigger] places@[k]) < effects@.len(),
        decreases effects.len() - n,
    {
        let ghost before = places@.map_values(wide);
        assert(models[n as int] == effects@[n as int]@);
        if effects[n].target.same(target) {
            places.push(n);
            assert(places@.map_values(wide) =~= before.push(n as int));
        }
        n = n + 1;
    }
    places
}

fn find_certain(effects: &Vec<EffectPlan>, places: &Vec<usize>, completed: &Vec<u32>) -> (least: usize)
    requires
        forall|k: int| 0 <= k < places@.len() ==> (#[trigger] places@[k]) < effects@.len(),
    ensures
        least <= places@.len(),
        least as int == certain(
            effects::plan_models(effects@),
            places@.map_values(|k: usize| k as int),
            completed@,
            places@.len() as int,
        ),
{
    let ghost models = effects::plan_models(effects@);
    let ghost wide = places@.map_values(|k: usize| k as int);
    let mut n: usize = places.len();
    while n > 0
        invariant
            n <= places.len(),
            models == effects::plan_models(effects@),
            wide == places@.map_values(|k: usize| k as int),
            forall|k: int| 0 <= k < places@.len() ==> (#[trigger] places@[k]) < effects@.len(),
            certain(models, wide, completed@, places@.len() as int) == certain(
                models,
                wide,
                completed@,
                n as int,
            ),
        decreases n,
    {
        let at: usize = places[n - 1];
        assert(wide[n - 1] == at as int);
        assert(models[at as int] == effects@[at as int]@);
        if pristine::holds_ordinal(completed, effects[at].ordinal) {
            return n;
        }
        n = n - 1;
    }
    0
}

fn find_reached(
    effects: &Vec<EffectPlan>,
    places: &Vec<usize>,
    completed: &Vec<u32>,
    observed: &EffectValue,
    ordinal: u32,
) -> (found: Result<usize, OperationRefusal>)
    requires
        places@.len() > 0,
        forall|k: int| 0 <= k < places@.len() ==> (#[trigger] places@[k]) < effects@.len(),
    ensures
        match reached(
            effects::plan_models(effects@),
            places@.map_values(|k: usize| k as int),
            completed@,
            observed@,
            ordinal,
        ) {
            Err(refusal) => found == Err::<usize, OperationRefusal>(refusal),
            Ok(k) => found matches Ok(n) && n as int == k,
        },
{
    let ghost models = effects::plan_models(effects@);
    let ghost wide = places@.map_values(|k: usize| k as int);
    let least: usize = find_certain(effects, places, completed);
    let mut stages: Vec<usize> = Vec::new();
    let ghost seen = |k: usize| k as int;
    let first: usize = places[0];
    proof {
        assert(wide[0] == first as int);
        assert(models[first as int] == effects@[first as int]@);
        reveal_with_fuel(possible, 2);
    }
    if least == 0 && effects[first].expected_old.same(observed) {
        stages.push(0);
    }
    assert(stages@.map_values(seen) =~= possible(models, wide, least as int, observed@, 1));
    let mut n: usize = 0;
    while n < places.len()
        invariant
            n <= places.len(),
            models == effects::plan_models(effects@),
            wide == places@.map_values(|k: usize| k as int),
            seen == (|k: usize| k as int),
            forall|k: int| 0 <= k < places@.len() ==> (#[trigger] places@[k]) < effects@.len(),
            stages@.map_values(seen) == possible(
                models,
                wide,
                least as int,
                observed@,
                n + 1,
            ),
        decreases places.len() - n,
    {
        let ghost before = stages@.map_values(seen);
        let at: usize = places[n];
        assert(wide[n as int] == at as int);
        assert(models[at as int] == effects@[at as int]@);
        if n + 1 >= least && effects[at].expected_new.same(observed) {
            stages.push(n + 1);
            assert(stages@.map_values(seen) =~= before.push(n + 1));
        }
        n = n + 1;
    }
    proof {
        assert forall|k: int| 0 <= k < stages@.len() implies stages@[k] as int
            == #[trigger] stages@.map_values(seen)[k] by {}
        assert(stages@.len() == stages@.map_values(seen).len());
        if stages@.len() > 0 {
            assert(stages@.map_values(seen)[0] == stages@[0] as int);
        }
    }
    settle_stages(&stages, least, ordinal)
}

fn settle_stages(stages: &Vec<usize>, least: usize, ordinal: u32) -> (found: Result<
    usize,
    OperationRefusal,
>)
    ensures
        found == if stages@.len() == 1 {
            Ok::<usize, OperationRefusal>(stages@[0])
        } else if stages@.len() == 0 {
            Err(OperationRefusal::DivergedBeforeRecovery { ordinal })
        } else if least == 0 && stages@[0] == 0 {
            Ok(0)
        } else {
            Err(OperationRefusal::AmbiguousChain { ordinal })
        },
{
    if stages.len() == 1 {
        Ok(stages[0])
    } else if stages.len() == 0 {
        Err(OperationRefusal::DivergedBeforeRecovery { ordinal })
    } else if least == 0 && stages[0] == 0 {
        Ok(0)
    } else {
        Err(OperationRefusal::AmbiguousChain { ordinal })
    }
}

spec fn reach_models(reach: Seq<(EffectTarget, usize)>) -> Seq<(TargetModel, int)> {
    reach.map_values(|e: (EffectTarget, usize)| (e.0@, e.1 as int))
}

fn find_reach(reach: &Vec<(EffectTarget, usize)>, target: &EffectTarget) -> (found: Option<usize>)
    ensures
        match found {
            Some(k) => pristine::first_value(reach_models(reach@), target@) == Some(k as int),
            None => pristine::first_value(reach_models(reach@), target@) is None,
        },
{
    let ghost pairs = reach_models(reach@);
    let mut i: usize = 0;
    proof {
        assert(pairs.skip(0) =~= pairs);
    }
    while i < reach.len()
        invariant
            i <= reach.len(),
            pairs == reach_models(reach@),
            pristine::first_value(pairs, target@) == pristine::first_value(
                pairs.skip(i as int),
                target@,
            ),
        decreases reach.len() - i,
    {
        assert(pairs.skip(i as int).drop_first() =~= pairs.skip(i + 1));
        assert(pairs.skip(i as int)[0] == pairs[i as int]);
        if reach[i].0.same(target) {
            return Some(reach[i].1);
        }
        i = i + 1;
    }
    None
}

proof fn chain_holds(effects: Seq<PlanModel>, target: TargetModel, n: int, i: int)
    requires
        0 <= i < n <= effects.len(),
        effects[i].target == target,
    ensures
        chain(effects, target, n).contains(i),
    decreases n,
{
    if i < n - 1 {
        chain_holds(effects, target, n - 1, i);
        let rest = chain(effects, target, n - 1);
        let at = rest.index_of(i);
        assert(rest[at] == i);
        assert(chain(effects, target, n)[at] == i);
    } else {
        let rest = chain(effects, target, n - 1);
        assert(chain(effects, target, n)[rest.len() as int] == i);
    }
}

fn find_all_reached(
    effects: &Vec<EffectPlan>,
    working_copy: &WorkingCopyId,
    completed: &Vec<u32>,
    observations: &Vec<Observation>,
) -> (found: Result<Vec<(EffectTarget, usize)>, OperationRefusal>)
    ensures
        match reach_from(
            effects::plan_models(effects@),
            working_copy@,
            completed@,
            effects::observation_models(observations@),
            0,
            Seq::empty(),
        ) {
            Err(refusal) => found == Err::<Vec<(EffectTarget, usize)>, OperationRefusal>(refusal),
            Ok(reach) => found matches Ok(list) && reach_models(list@) == reach,
        },
{
    let ghost models = effects::plan_models(effects@);
    let ghost observed = effects::observation_models(observations@);
    let mut reach: Vec<(EffectTarget, usize)> = Vec::new();
    let mut i: usize = 0;
    proof {
        assert(reach_models(reach@) =~= Seq::empty());
    }
    while i < effects.len()
        invariant
            i <= effects.len(),
            models == effects::plan_models(effects@),
            observed == effects::observation_models(observations@),
            reach_from(models, working_copy@, completed@, observed, 0, Seq::empty()) == reach_from(
                models,
                working_copy@,
                completed@,
                observed,
                i as int,
                reach_models(reach@),
            ),
        decreases effects.len() - i,
    {
        let ghost before = reach_models(reach@);
        assert(models[i as int] == effects@[i as int]@);
        if find_reach(&reach, &effects[i].target).is_none() {
            if let Some(refusal) = effect_paths::refuse_target(&effects[i].target, working_copy) {
                return Err(refusal);
            }
            let at: usize = match effects::find_observation(observations, &effects[i].target) {
                None => {
                    return Err(OperationRefusal::NotObserved { ordinal: effects[i].ordinal });
                },
                Some(at) => at,
            };
            let places: Vec<usize> = find_chain(effects, &effects[i].target);
            proof {
                chain_holds(models, models[i as int].target, models.len() as int, i as int);
            }
            match find_reached(
                effects,
                &places,
                completed,
                &observations[at].value,
                effects[i].ordinal,
            ) {
                Err(refusal) => {
                    return Err(refusal);
                },
                Ok(k) => {
                    reach.push((effects[i].target.dup(), k));
                    assert(reach_models(reach@) =~= before.push(
                        (models[i as int].target, k as int),
                    ));
                },
            }
        }
        i = i + 1;
    }
    Ok(reach)
}

fn count_before(effects: &Vec<EffectPlan>, i: usize) -> (count: usize)
    requires
        i < effects@.len(),
    ensures
        count as int == rank(effects::plan_models(effects@), i as int),
{
    let ghost models = effects::plan_models(effects@);
    let target: &EffectTarget = &effects[i].target;
    let mut count: usize = 0;
    let mut n: usize = 0;
    while n < i
        invariant
            n <= i < effects@.len(),
            models == effects::plan_models(effects@),
            target@ == models[i as int].target,
            count <= n,
            count as int == chain(models, target@, n as int).len(),
        decreases i - n,
    {
        assert(models[n as int] == effects@[n as int]@);
        if effects[n].target.same(target) {
            count = count + 1;
        }
        n = n + 1;
    }
    count
}

/// The effects that take an interrupted operation back. Which of its effects
/// landed is told by what was observed of each target and by the receipts; a
/// target with none of its chain's values, or one that the observation leaves
/// open, is refused.
pub fn inverse_recovery_effects(
    effects: &Vec<EffectPlan>,
    working_copy: &WorkingCopyId,
    completed: &Vec<u32>,
    observations: &Vec<Observation>,
) -> (found: Result<Vec<EffectPlan>, OperationRefusal>)
    requires
        numbered(effects::plan_models(effects@)),
    ensures
        match inverse_effects(
            effects::plan_models(effects@),
            working_copy@,
            completed@,
            effects::observation_models(observations@),
        ) {
            Err(refusal) => found == Err::<Vec<EffectPlan>, OperationRefusal>(refusal),
            Ok(plans) => found matches Ok(list) && effects::plan_models(list@) == plans,
        },
{
    let ghost models = effects::plan_models(effects@);
    let reach: Vec<(EffectTarget, usize)> = match find_all_reached(
        effects,
        working_copy,
        completed,
        observations,
    ) {
        Err(refusal) => {
            return Err(refusal);
        },
        Ok(reach) => reach,
    };
    let ghost ends = reach_models(reach@);
    let mut list: Vec<EffectPlan> = Vec::new();
    let mut n: usize = effects.len();
    proof {
        assert(effects::plan_models(list@) =~= Seq::empty());
    }
    while n > 0
        invariant
            n <= effects.len(),
            numbered(models),
            models == effects::plan_models(effects@),
            ends == reach_models(reach@),
            list@.len() + n <= effects@.len(),
            inverse_from(models, ends, effects@.len() as int, Seq::empty()) == inverse_from(
                models,
                ends,
                n as int,
                effects::plan_models(list@),
            ),
        decreases n,
    {
        let i: usize = n - 1;
        let ghost before = effects::plan_models(list@);
        assert(models[i as int] == effects@[i as int]@);
        let done: bool = match find_reach(&reach, &effects[i].target) {
            Some(k) => count_before(effects, i) < k,
            None => false,
        };
        if done {
            assert(list@.len() <= models[effects@.len() - 1].ordinal);
            let plan = EffectPlan {
                ordinal: list.len() as u32,
                target: effects[i].target.dup(),
                expected_old: effects[i].expected_new.dup(),
                expected_new: effects[i].expected_old.dup(),
            };
            let ghost model = plan@;
            list.push(plan);
            assert(effects::plan_models(list@) =~= before.push(model));
        }
        n = i;
    }
    Ok(list)
}

/// The world after effects were run in order, each from its old value, or
/// `None` where one of them found another value.
pub open spec fn after(
    effects: Seq<PlanModel>,
    world: Map<TargetModel, ValueModel>,
) -> Option<Map<TargetModel, ValueModel>>
    decreases effects.len(),
{
    if effects.len() == 0 {
        Some(world)
    } else {
        match after(effects.drop_last(), world) {
            None => None,
            Some(before) => if before[effects.last().target] == effects.last().expected_old {
                Some(before.insert(effects.last().target, effects.last().expected_new))
            } else {
                None
            },
        }
    }
}

/// The value of a target before any effect on it.
pub open spec fn initial(effects: Seq<PlanModel>, target: TargetModel) -> ValueModel {
    stage(effects, chain(effects, target, effects.len() as int), 0)
}

proof fn chain_extends(effects: Seq<PlanModel>, target: TargetModel, n: int, m: int)
    requires
        0 <= n <= m,
    ensures
        chain(effects, target, n).len() <= chain(effects, target, m).len(),
        forall|k: int|
            0 <= k < chain(effects, target, n).len() ==> #[trigger] chain(effects, target, m)[k]
                == chain(effects, target, n)[k],
    decreases m,
{
    if n < m {
        chain_extends(effects, target, n, m - 1);
    }
}

proof fn last_ends_chain(effects: Seq<PlanModel>, target: TargetModel, n: int)
    requires
        0 <= n,
    ensures
        last_on(effects, target, n) == if chain(effects, target, n).len() == 0 {
            None::<int>
        } else {
            Some(chain(effects, target, n).last())
        },
    decreases n,
{
    if n > 0 {
        last_ends_chain(effects, target, n - 1);
    }
}

proof fn possible_within(
    effects: Seq<PlanModel>,
    places: Seq<int>,
    least: int,
    observed: ValueModel,
    n: int,
)
    ensures
        forall|i: int|
            #![trigger possible(effects, places, least, observed, n)[i]]
            0 <= i < possible(effects, places, least, observed, n).len() ==> {
                let k = possible(effects, places, least, observed, n)[i];
                0 <= k < n && stage(effects, places, k) == observed
            },
    decreases n,
{
    if n > 0 {
        possible_within(effects, places, least, observed, n - 1);
    }
}

spec fn sound_reach(
    effects: Seq<PlanModel>,
    observed: Seq<(TargetModel, ValueModel)>,
    reach: Seq<(TargetModel, int)>,
    target: TargetModel,
) -> bool {
    let places = chain(effects, target, effects.len() as int);
    match pristine::first_value(reach, target) {
        Some(k) => 0 <= k <= places.len() && pristine::first_value(observed, target) == Some(
            stage(effects, places, k),
        ),
        None => true,
    }
}

proof fn reach_is_sound(
    effects: Seq<PlanModel>,
    working_copy: Seq<char>,
    completed: Seq<u32>,
    observed: Seq<(TargetModel, ValueModel)>,
    i: int,
    reach: Seq<(TargetModel, int)>,
)
    requires
        0 <= i <= effects.len(),
        forall|t: TargetModel| #[trigger] sound_reach(effects, observed, reach, t),
        forall|j: int|
            0 <= j < i ==> pristine::first_value(reach, (#[trigger] effects[j]).target)
                is Some,
    ensures
        match reach_from(effects, working_copy, completed, observed, i, reach) {
            Err(_) => true,
            Ok(found) => {
                &&& forall|t: TargetModel| #[trigger] sound_reach(effects, observed, found, t)
                &&& forall|j: int|
                    0 <= j < effects.len() ==> pristine::first_value(
                        found,
                        (#[trigger] effects[j]).target,
                    ) is Some
            },
        },
    decreases effects.len() - i,
{
    if i < effects.len() {
        let target = effects[i].target;
        if pristine::first_value(reach, target) is Some {
            reach_is_sound(effects, working_copy, completed, observed, i + 1, reach);
        } else if effect_paths::target_refusal(target, working_copy) is None
            && pristine::first_value(observed, target) is Some {
            let value = pristine::first_value(observed, target)->0;
            let places = chain(effects, target, effects.len() as int);
            let result = reached(effects, places, completed, value, effects[i].ordinal);
            if result is Ok {
                let k = result->Ok_0;
                let least = certain(effects, places, completed, places.len() as int);
                possible_within(effects, places, least, value, places.len() as int + 1);
                let stages = possible(effects, places, least, value, places.len() as int + 1);
                assert(stages[0] == k);
                let grown = reach.push((target, k));
                assert forall|t: TargetModel| #[trigger]
                    sound_reach(effects, observed, grown, t) by {
                    pristine::pushed_first(reach, target, k, t);
                    assert(sound_reach(effects, observed, reach, t));
                }
                assert forall|j: int| 0 <= j < i + 1 implies pristine::first_value(
                    grown,
                    (#[trigger] effects[j]).target,
                ) is Some by {
                    pristine::pushed_first(reach, target, k, effects[j].target);
                }
                reach_is_sound(effects, working_copy, completed, observed, i + 1, grown);
            }
        }
    }
}

spec fn least_of(a: int, b: int) -> int {
    if a < b {
        a
    } else {
        b
    }
}

spec fn value_at(
    effects: Seq<PlanModel>,
    reach: Seq<(TargetModel, int)>,
    target: TargetModel,
    n: int,
) -> ValueModel {
    stage(
        effects,
        chain(effects, target, effects.len() as int),
        least_of(
            pristine::first_value(reach, target)->0,
            chain(effects, target, n).len() as int,
        ),
    )
}

spec fn is_target(effects: Seq<PlanModel>, target: TargetModel) -> bool {
    exists|i: int| 0 <= i < effects.len() && (#[trigger] effects[i]).target == target
}

proof fn undo_from(
    effects: Seq<PlanModel>,
    reach: Seq<(TargetModel, int)>,
    n: int,
    found: Seq<PlanModel>,
    world: Map<TargetModel, ValueModel>,
)
    requires
        0 <= n <= effects.len(),
        chained(effects),
        forall|t: TargetModel| #[trigger]
            is_target(effects, t) ==> pristine::first_value(reach, t) is Some
                && pristine::first_value(reach, t)->0 >= 0,
        after(found, world) is Some,
        forall|t: TargetModel| #[trigger]
            is_target(effects, t) ==> (after(found, world)->0)[t] == value_at(effects, reach, t, n),
        forall|t: TargetModel| !#[trigger] is_target(effects, t) ==> (after(found, world)->0)[t] == world[t],
    ensures
        ({
            let end = after(inverse_from(effects, reach, n, found), world);
            &&& end is Some
            &&& forall|t: TargetModel| #[trigger]
                is_target(effects, t) ==> (end->0)[t] == initial(effects, t)
            &&& forall|t: TargetModel| !#[trigger] is_target(effects, t) ==> (end->0)[t] == world[t]
        }),
    decreases n,
{
    let state = after(found, world)->0;
    if n == 0 {
        assert forall|t: TargetModel| #[trigger] is_target(effects, t) implies state[t] == initial(
            effects,
            t,
        ) by {
            assert(chain(effects, t, 0).len() == 0);
        }
    } else {
        let effect = effects[n - 1];
        let target = effect.target;
        assert(is_target(effects, target));
        let k = pristine::first_value(reach, target)->0;
        let before = chain(effects, target, n - 1);
        let whole = chain(effects, target, effects.len() as int);
        chain_extends(effects, target, n, effects.len() as int);
        chain_extends(effects, target, n - 1, effects.len() as int);
        assert(chain(effects, target, n) == before.push(n - 1));
        assert(chain(effects, target, n)[before.len() as int] == n - 1);
        assert(whole[before.len() as int] == n - 1);
        assert forall|t: TargetModel| t != target implies chain(effects, t, n) == #[trigger] chain(
            effects,
            t,
            n - 1,
        ) by {}
        if landed(effects, reach, n - 1) {
            let plan = PlanModel {
                ordinal: found.len() as u32,
                target,
                expected_old: effect.expected_new,
                expected_new: effect.expected_old,
            };
            let grown = found.push(plan);
            assert(grown.drop_last() =~= found);
            assert(state[target] == effect.expected_new);
            let next = state.insert(target, effect.expected_old);
            assert(after(grown, world) == Some(next));
            last_ends_chain(effects, target, n - 1);
            assert(follows(effects, n - 1));
            if before.len() > 0 {
                assert(whole[before.len() - 1] == before[before.len() - 1]);
            }
            assert(next[target] == value_at(effects, reach, target, n - 1));
            assert forall|t: TargetModel| #[trigger] is_target(effects, t) implies next[t]
                == value_at(effects, reach, t, n - 1) by {
                if t != target {
                    assert(chain(effects, t, n) == chain(effects, t, n - 1));
                }
            }
            undo_from(effects, reach, n - 1, grown, world);
        } else {
            assert forall|t: TargetModel| #[trigger] is_target(effects, t) implies state[t]
                == value_at(effects, reach, t, n - 1) by {
                if t != target {
                    assert(chain(effects, t, n) == chain(effects, t, n - 1));
                }
            }
            undo_from(effects, reach, n - 1, found, world);
        }
    }
}

/// Recovery takes an interrupted operation back: run in order on the world
/// that was observed, the inverse effects each find the value they start from,
/// leave every target of the operation at the value it had before it, and
/// touch nothing else.
pub proof fn recovery_undoes(
    effects: Seq<PlanModel>,
    working_copy: Seq<char>,
    completed: Seq<u32>,
    observed: Seq<(TargetModel, ValueModel)>,
    world: Map<TargetModel, ValueModel>,
)
    requires
        chained(effects),
        inverse_effects(effects, working_copy, completed, observed) is Ok,
        forall|i: int|
            0 <= i < effects.len() ==> pristine::first_value(
                observed,
                (#[trigger] effects[i]).target,
            ) == Some(world[effects[i].target]),
    ensures
        ({
            let plans = inverse_effects(effects, working_copy, completed, observed)->Ok_0;
            &&& after(plans, world) is Some
            &&& forall|i: int|
                0 <= i < effects.len() ==> (after(plans, world)->0)[(
                #[trigger] effects[i]).target] == initial(effects, effects[i].target)
            &&& forall|t: TargetModel|
                (forall|i: int| 0 <= i < effects.len() ==> (#[trigger] effects[i]).target != t)
                    ==> #[trigger] (after(plans, world)->0)[t] == world[t]
        }),
{
    assert forall|t: TargetModel| #[trigger]
        sound_reach(effects, observed, Seq::empty(), t) by {
        assert(pristine::first_value(Seq::<(TargetModel, int)>::empty(), t) is None);
    }
    reach_is_sound(effects, working_copy, completed, observed, 0, Seq::empty());
    let reach = reach_from(effects, working_copy, completed, observed, 0, Seq::empty())->Ok_0;
    let n = effects.len() as int;
    let found = Seq::<PlanModel>::empty();
    assert forall|t: TargetModel| #[trigger]
        is_target(effects, t) implies pristine::first_value(reach, t) is Some
        && pristine::first_value(reach, t)->0 >= 0 && world[t] == value_at(
        effects,
        reach,
        t,
        n,
    ) by {
        assert(sound_reach(effects, observed, reach, t));
    }
    undo_from(effects, reach, n, found, world);
    let plans = inverse_effects(effects, working_copy, completed, observed)->Ok_0;
    assert forall|i: int| 0 <= i < effects.len() implies (after(plans, world)->0)[(
    #[trigger] effects[i]).target] == initial(effects, effects[i].target) by {
        assert(is_target(effects, effects[i].target));
    }
    assert forall|t: TargetModel|
        (forall|i: int| 0 <= i < effects.len() ==> (#[trigger] effects[i]).target != t) implies
        #[trigger] (after(plans, world)->0)[t] == world[t] by {
        assert(!is_target(effects, t));
    }
}

} // verus!
