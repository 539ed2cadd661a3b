//! What repair plans, retention and relinks hold to.

use crate::provenance_relink;
use crate::provenance_relink::SignatureVerdict;
use crate::repository::Repository;
use crate::selective_repair;
use crate::selective_repair::{PathEvidence, SelectiveRepairPlan};
use crate::snapshot;
use crate::snapshot::{SnapshotRetentionOutcome, SnapshotRetentionPolicy};
use crate::types::ContentHash;
use vstd::prelude::*;

verus! {

/// Whether two lookups of a path both succeeded and found the same.
pub open spec fn is_same(evidence: PathEvidence) -> bool {
    evidence.with_candidate is Some && evidence.without_candidate is Some && (
    evidence.with_candidate->0 is Some <==> evidence.without_candidate->0 is Some) && (
    evidence.with_candidate->0 is Some ==> (evidence.with_candidate->0->0)@ == (
    evidence.without_candidate->0->0)@)
}

/// Whether two lookups of a path both succeeded and found different things.
pub open spec fn differs(evidence: PathEvidence) -> bool {
    evidence.with_candidate is Some && evidence.without_candidate is Some && !is_same(evidence)
}

/// Whether evidence shows that a candidate has an effect of its own: some path
/// reads differently without it, and every path before that one reads the same.
pub open spec fn survives(evidence: Seq<PathEvidence>) -> bool {
    exists|k: int|
        0 <= k < evidence.len() && differs(#[trigger] evidence[k]) && forall|j: int|
            0 <= j < k ==> is_same(#[trigger] evidence[j])
}

/// A candidate survives at the first path whose lookups differ, provided that no
/// lookup before it failed.
pub proof fn survival_is_shown_by_a_path(evidence: Seq<PathEvidence>, i: int)
    requires
        0 <= i <= evidence.len(),
    ensures
        match selective_repair::survival_from(evidence, i) {
            Some(k) => i <= k < evidence.len() && differs(evidence[k]) && forall|j: int|
                i <= j < k ==> is_same(#[trigger] evidence[j]),
            None => forall|k: int|
                i <= k < evidence.len() && differs(#[trigger] evidence[k]) ==> exists|j: int|
                    i <= j < k && !is_same(#[trigger] evidence[j]),
        },
    decreases evidence.len() - i,
{
    if i < evidence.len() {
        if is_same(evidence[i]) {
            survival_is_shown_by_a_path(evidence, i + 1);
            if selective_repair::survival_from(evidence, i) is None {
                assert forall|k: int|
                    i <= k < evidence.len() && differs(#[trigger] evidence[k]) implies exists|j: int|
                    i <= j < k && !is_same(#[trigger] evidence[j]) by {
                    let j = choose|j: int| i + 1 <= j < k && !is_same(#[trigger] evidence[j]);
                    assert(!is_same(evidence[j]));
                }
            }
        } else if differs(evidence[i]) {
        } else {
            assert forall|k: int|
                i <= k < evidence.len() && differs(#[trigger] evidence[k]) implies exists|j: int|
                i <= j < k && !is_same(#[trigger] evidence[j]) by {
                assert(!is_same(evidence[i]));
            }
        }
    }
}

proof fn judgement_is_by_survival(
    blockers: Seq<ContentHash>,
    evidence: Seq<Vec<PathEvidence>>,
    n: int,
    wanted: bool,
    change: ContentHash,
)
    requires
        0 <= n <= blockers.len(),
    ensures
        selective_repair::judged(blockers, evidence, n, wanted).contains(change) <==> exists|k: int|
            0 <= k < n && #[trigger] blockers[k] == change && survives(evidence[k]@) == wanted,
    decreases n,
{
    if n > 0 {
        judgement_is_by_survival(blockers, evidence, n - 1, wanted, change);
        survival_is_shown_by_a_path(evidence[n - 1]@, 0);
        let list = evidence[n - 1]@;
        if let Some(k) = selective_repair::survival_from(list, 0) {
            assert(differs(list[k]));
        } else if survives(list) {
            let k = choose|k: int|
                0 <= k < list.len() && differs(#[trigger] list[k]) && forall|j: int|
                    0 <= j < k ==> is_same(#[trigger] list[j]);
            let j = choose|j: int| 0 <= j < k && !is_same(#[trigger] list[j]);
            assert(is_same(list[j]));
        }
        let rest = selective_repair::judged(blockers, evidence, n - 1, wanted);
        let all = selective_repair::judged(blockers, evidence, n, wanted);
        if rest.contains(change) {
            let k = rest.index_of(change);
            assert(all[k] == change);
        }
        if all.len() > rest.len() {
            assert(all[rest.len() as int] == blockers[n - 1]);
        }
        if all.contains(change) {
            let k = all.index_of(change);
            if k < rest.len() {
                assert(rest[k] == change);
            }
        }
    }
}

/// An evaluated plan takes a blocker for mere context exactly when the evidence
/// shows that it has an effect without the target, and confirms it otherwise.
pub proof fn blockers_are_judged_by_evidence(
    next: SelectiveRepairPlan,
    plan: SelectiveRepairPlan,
    evidence: Seq<Vec<PathEvidence>>,
    updated_at: Seq<char>,
    k: int,
)
    requires
        selective_repair::is_evaluation_of(next, plan, evidence, updated_at),
        plan.defect() is None,
        0 <= k < plan.blockers@.len(),
    ensures
        next.evaluation matches Some(evaluation) && (evaluation.context_only@.contains(
            plan.blockers@[k].change,
        ) <==> survives(evidence[k]@)) && (evaluation.confirmed_blockers@.contains(
            plan.blockers@[k].change,
        ) <==> !survives(evidence[k]@)),
        next.target == plan.target && next.blockers == plan.blockers && next.commuting
            == plan.commuting && next.generation == plan.generation + 1,
{
    let blockers = plan.blocker_changes();
    let n = blockers.len() as int;
    let change = plan.blockers@[k].change;
    assert(blockers[k] == change);
    judgement_is_by_survival(blockers, evidence, n, true, change);
    judgement_is_by_survival(blockers, evidence, n, false, change);
    assert forall|j: int| 0 <= j < n && #[trigger] blockers[j] == change implies j == k by {}
}

/// A sound plan accounts for everything: its target stands in the order, every
/// later change is a blocker or commutes and none is both, blockers have reasons
/// inside the closure, and a plan to be published replaces its target and all
/// blockers and nothing else.
pub proof fn sound_plans_account_for_everything(
    plan: SelectiveRepairPlan,
    t: int,
    i: int,
    b: int,
    change: ContentHash,
)
    requires
        plan.defect() is None,
    ensures
        exists|k: int|
            0 <= k < plan.original_order@.len() && (#[trigger] plan.original_order@[k]).change
                == plan.target,
        0 <= t < plan.original_order@.len() && 0 <= i < plan.original_order@.len()
            && plan.original_order@[t].change == plan.target && plan.original_order@[i].order
            > plan.original_order@[t].order ==> (plan.commuting@.contains(
            plan.original_order@[i].change,
        ) <==> !plan.blocker_changes().contains(plan.original_order@[i].change)),
        0 <= b < plan.blockers@.len() ==> plan.blockers@[b].references@.len() > 0 && forall|r: int|
            0 <= r < plan.blockers@[b].references@.len() ==> (
            #[trigger] plan.blockers@[b].references@[r]) == plan.target
                || plan.blocker_changes().contains(plan.blockers@[b].references@[r]),
        plan.is_publishable() ==> (plan.replaced().contains(change) <==> change == plan.target
            || plan.blocker_changes().contains(change)),
{
    let order = plan.original_order@;
    let all = selective_repair::ordered_changes(order);
    let at = all.index_of(plan.target);
    assert(order[at].change == plan.target);
    let blockers = plan.blocker_changes();
    if 0 <= t < order.len() && 0 <= i < order.len() && order[t].change == plan.target
        && order[i].order > order[t].order {
        let later = plan.later_changes();
        assert(later.contains(order[i].change));
        assert(blockers.to_set().union(plan.commuting@.to_set()).contains(order[i].change));
        assert(blockers.contains(order[i].change) <==> blockers.to_set().contains(
            order[i].change,
        ));
        assert(plan.commuting@.contains(order[i].change) <==> plan.commuting@.to_set().contains(
            order[i].change,
        ));
    }
    if 0 <= b < plan.blockers@.len() {
        let references = plan.blockers@[b].references@;
        assert(references.to_set().subset_of(plan.closure()));
        assert forall|r: int| 0 <= r < references.len() implies (#[trigger] references[r])
            == plan.target || blockers.contains(references[r]) by {
            assert(references.to_set().contains(references[r]));
            assert(plan.closure().contains(references[r]));
        }
    }
    if plan.is_publishable() {
        assert(plan.replaced().contains(change) <==> plan.replaced().to_set().contains(change));
        assert(plan.closure().contains(change) <==> change == plan.target || blockers.contains(
            change,
        ));
    }
}

/// Retention keeps the latest superseded snapshots, as many as the policy says
/// or all there are.
pub proof fn retention_keeps_the_latest(
    repo: Repository,
    chain: Seq<ContentHash>,
    policy: SnapshotRetentionPolicy,
    outcome: SnapshotRetentionOutcome,
    k: int,
)
    requires
        snapshot::is_retention(repo, chain, policy, outcome),
    ensures
        outcome.retained@.len() == (if policy.keep_superseded < chain.len() {
            policy.keep_superseded as int
        } else {
            chain.len() as int
        }),
        0 <= k < outcome.retained@.len() ==> outcome.retained@[k] == chain[k],
{
}

/// A change is held exactly when some view has it in its log.
pub proof fn held_changes_stand_in_a_log(repo: Repository, hash: ContentHash, v: int, i: int)
    ensures
        0 <= v < repo.views@.len() && 0 <= i < repo.views@[v].changes@.len()
            && repo.pristine@.external(repo.views@[v].changes@[i]) == Some(hash) ==> snapshot::held(
            repo,
            hash,
        ),
        snapshot::held(repo, hash) ==> exists|w: int, j: int|
            0 <= w < repo.views@.len() && 0 <= j < repo.views@[w].changes@.len()
                && repo.pristine@.external(#[trigger] repo.views@[w].changes@[j]) == Some(hash),
{
    if snapshot::held(repo, hash) {
        let w = choose|w: int|
            0 <= w < repo.views@.len() && snapshot::logged(
                repo,
                (#[trigger] repo.views@[w]).changes@,
                hash,
            );
        let changes = repo.views@[w].changes@;
        let j = choose|j: int|
            0 <= j < changes.len() && repo.pristine@.external(#[trigger] changes[j]) == Some(hash);
        assert(repo.pristine@.external(repo.views@[w].changes@[j]) == Some(hash));
    }
    if 0 <= v < repo.views@.len() && 0 <= i < repo.views@[v].changes@.len()
        && repo.pristine@.external(repo.views@[v].changes@[i]) == Some(hash) {
        assert(snapshot::logged(repo, repo.views@[v].changes@, hash));
    }
}

/// A relink's signature holds exactly when signer and signature have the widths
/// of their kind and the signer's key accepts it.
pub proof fn relinks_are_signed(signer: nat, signature: nat, verdict: SignatureVerdict)
    ensures
        provenance_relink::signature_fault(signer, signature, verdict) is None <==> signer == 32
            && signature == 64 && verdict is Accepted,
{
}

} // verus!
