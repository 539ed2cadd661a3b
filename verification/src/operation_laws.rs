//! What operations on disk, their receipts and their recoveries come to.

use crate::effect_paths;
use crate::effects;
use crate::effects::{OperationId, PlanModel, TargetModel, ValueModel};
use crate::operation;
use crate::operation::{DiskAction, PayloadModel, ReceiptModel, RepoStateModel};
use crate::paths;
use crate::pristine;
use crate::recovery;
use crate::replay;
use crate::replay::{BackupAction, RestoreModel};
use crate::text;
use crate::types::ContentHash;
use vstd::prelude::*;

verus! {

/// Whether a disk action, with prepared bytes of this content, gives a path
/// this value.
pub open spec fn makes(action: DiskAction, content: Option<ContentHash>, value: ValueModel) -> bool {
    match action {
        DiskAction::Remove => value is Absent,
        DiskAction::Write { mode } => value matches ValueModel::File(state) && state.kind is Regular
            && state.mode == mode && content == Some(state.content),
        DiskAction::CreateDirectory { mode } => value matches ValueModel::File(state)
            && state.kind is Directory && state.mode == mode,
    }
}

/// An effect is carried out by the action that gives its path the new value,
/// and refused only where no action does.
pub proof fn actions_give_the_new_value(
    value: ValueModel,
    content: Option<ContentHash>,
    ordinal: u32,
    action: DiskAction,
)
    ensures
        operation::disk_action(value, content, ordinal) matches Ok(chosen) && chosen == action
            <==> makes(action, content, value),
        operation::disk_action(value, content, ordinal) is Err ==> !makes(action, content, value),
{
}

/// A lease is applied exactly when the old value is observed, taken as applied
/// exactly when the new one is and differs, and rejected for every other value.
pub proof fn leases_are_told_apart(observed: ValueModel, old: ValueModel, new: ValueModel)
    ensures
        effects::lease(observed, old, new) is Apply <==> observed == old,
        effects::lease(observed, old, new) is AlreadyApplied <==> observed == new && observed != old,
        effects::lease(observed, old, new) is Diverged <==> observed != old && observed != new,
{
}

/// An effect counts as landed exactly when some receipt for it says that it was
/// applied, recovered or rolled back.
pub proof fn landed_effects_have_receipts(receipts: Seq<ReceiptModel>, ordinal: u32)
    ensures
        operation::completed(receipts).contains(ordinal) <==> exists|i: int|
            0 <= i < receipts.len() && (#[trigger] receipts[i]).effect_ordinal == Some(ordinal) && (
            receipts[i].kind is Applied || receipts[i].kind is Recovered || receipts[i].kind
                is RolledBack),
    decreases receipts.len(),
{
    if receipts.len() > 0 {
        let rest = receipts.drop_last();
        let last = receipts.last();
        landed_effects_have_receipts(rest, ordinal);
        assert(receipts[receipts.len() - 1] == last);
        let done = operation::completed(rest);
        let all = operation::completed(receipts);
        if done.contains(ordinal) {
            let k = done.index_of(ordinal);
            assert(all[k] == ordinal);
            let i = choose|i: int|
                0 <= i < rest.len() && (#[trigger] rest[i]).effect_ordinal == Some(ordinal) && (
                rest[i].kind is Applied || rest[i].kind is Recovered || rest[i].kind is RolledBack);
            assert(receipts[i] == rest[i]);
        }
        if all.len() > done.len() {
            assert(all[done.len() as int] == last.effect_ordinal->0);
        }
        if all.contains(ordinal) {
            let k = all.index_of(ordinal);
            if k < done.len() {
                assert(done[k] == ordinal);
            }
        }
        if exists|i: int|
            0 <= i < receipts.len() && (#[trigger] receipts[i]).effect_ordinal == Some(ordinal) && (
            receipts[i].kind is Applied || receipts[i].kind is Recovered || receipts[i].kind
                is RolledBack) {
            let i = choose|i: int|
                0 <= i < receipts.len() && (#[trigger] receipts[i]).effect_ordinal == Some(ordinal)
                    && (receipts[i].kind is Applied || receipts[i].kind is Recovered
                    || receipts[i].kind is RolledBack);
            if i < rest.len() {
                assert(rest[i] == receipts[i]);
            }
        }
    }
}

/// A switch may start only from the one head that it expects, and only once a
/// receipt verifies that head as a whole; nothing else is asked of the head.
pub proof fn switches_start_from_a_verified_head(
    heads: Seq<OperationId>,
    expected: OperationId,
    receipts: Seq<ReceiptModel>,
)
    ensures
        operation::head_refusal(heads, expected, receipts) is None <==> heads.len() == 1 && heads[0]
            == expected && exists|i: int|
            0 <= i < receipts.len() && (#[trigger] receipts[i]).kind is Verified
                && receipts[i].effect_ordinal is None,
{
    if operation::verified(receipts) {
        let i = choose|i: int|
            0 <= i < receipts.len() && operation::verifies(#[trigger] receipts[i]);
        assert(receipts[i].kind is Verified);
    }
    if exists|i: int|
        0 <= i < receipts.len() && (#[trigger] receipts[i]).kind is Verified
            && receipts[i].effect_ordinal is None {
        let i = choose|i: int|
            0 <= i < receipts.len() && (#[trigger] receipts[i]).kind is Verified
                && receipts[i].effect_ordinal is None;
        assert(operation::verifies(receipts[i]));
    }
}

/// A state, an operation and a target belong to the holder of a working copy's
/// lock exactly when they name that working copy.
pub proof fn only_the_owner_may_work(
    state: RepoStateModel,
    payload: PayloadModel,
    working_copy: Seq<char>,
    owner: Seq<char>,
    path: Seq<char>,
)
    ensures
        operation::state_refusal(state, working_copy) is None <==> (state.working_copy matches Some(
            value,
        ) && value.id == working_copy),
        operation::lock_refusal(payload, working_copy) is None <==> payload.working_copy == Some(
            working_copy,
        ),
        effect_paths::target_refusal(
            TargetModel::WorkingCopy { working_copy: owner },
            working_copy,
        ) is None <==> owner == working_copy,
        owner != working_copy ==> effect_paths::target_refusal(
            TargetModel::WorkspacePath { working_copy: owner, path },
            working_copy,
        ) is Some,
        effect_paths::target_refusal(
            TargetModel::WorkspacePath { working_copy, path },
            working_copy,
        ) == effect_paths::target_refusal(TargetModel::FilesystemPath { path }, working_copy),
{
}

/// An effect is executed on disk exactly when its operation belongs to the
/// working copy, has the effect, and the effect is on a path that is accepted.
pub proof fn execution_needs_an_accepted_path(
    payload: PayloadModel,
    working_copy: Seq<char>,
    ordinal: u32,
)
    ensures
        operation::execution_refusal(payload, working_copy, ordinal) is None <==> {
            &&& payload.working_copy == Some(working_copy)
            &&& ordinal < payload.effects.len()
            &&& payload.effects[ordinal as int].ordinal == ordinal
            &&& payload.effects[ordinal as int].target matches TargetModel::FilesystemPath { path }
                && effect_paths::path_refusal(path, false) is None
        },
{
}

/// Whether a restoring step gives a target this value, from the backup of an
/// original effect that had it before.
pub open spec fn gives_back(
    action: RestoreModel,
    originals: Seq<PlanModel>,
    effect: PlanModel,
    i: int,
) -> bool {
    let original = originals[i];
    &&& 0 <= i < originals.len()
    &&& original.target == effect.target
    &&& original.expected_old == effect.expected_new
    &&& original.expected_new == effect.expected_old
    &&& match action {
        RestoreModel::RemoveEntry { ordinal, shelved } => ordinal == original.ordinal
            && effect.expected_new is Absent && shelved == (effect.target is ShelfPath),
        RestoreModel::WriteRegular { ordinal, mode } => ordinal == original.ordinal && (
        effect.expected_new matches ValueModel::File(state) && state.kind is Regular && state.mode
            == mode),
        RestoreModel::ReplaceDirectory { ordinal, mode } => ordinal == original.ordinal && (
        effect.expected_new matches ValueModel::File(state) && state.kind is Directory && state.mode
            == mode),
        RestoreModel::ReplaceSymlink { ordinal } => ordinal == original.ordinal && (
        effect.expected_new matches ValueModel::File(state) && state.kind is Symlink),
        RestoreModel::ApplyState(told) => effect.expected_new == ValueModel::WorkingCopy(told),
    }
}

proof fn transitions_are_inverses(originals: Seq<PlanModel>, effect: PlanModel, n: int)
    requires
        0 <= n <= originals.len(),
    ensures
        forall|i: int|
            0 <= i < n && (#[trigger] originals[i]).target == effect.target
                && originals[i].expected_old == effect.expected_new && originals[i].expected_new
                == effect.expected_old <==> replay::transitions(originals, effect, n).contains(i),
        replay::transitions(originals, effect, n).no_duplicates(),
    decreases n,
{
    if n > 0 {
        transitions_are_inverses(originals, effect, n - 1);
        let rest = replay::transitions(originals, effect, n - 1);
        let all = replay::transitions(originals, effect, n);
        assert forall|i: int|
            0 <= i < n && (#[trigger] originals[i]).target == effect.target
                && originals[i].expected_old == effect.expected_new && originals[i].expected_new
                == effect.expected_old <==> all.contains(i) by {
            if rest.contains(i) {
                let k = rest.index_of(i);
                assert(all[k] == i);
                assert(0 <= i < n - 1);
            }
            if all.contains(i) && i != n - 1 {
                let k = all.index_of(i);
                if k < rest.len() {
                    assert(rest[k] == i);
                }
            }
            if i == n - 1 && all.len() > rest.len() {
                assert(all[rest.len() as int] == i);
            }
            if all.contains(i) && i == n - 1 && all.len() == rest.len() {
                assert(rest.contains(i));
            }
        }
        assert forall|a: int, b: int| 0 <= a < b < all.len() implies all[a] != all[b] by {
            if b == rest.len() {
                assert(rest.contains(rest[a]));
            }
        }
    }
}

/// A recovery step gives its target back the value that the recovery expects,
/// from the backup of the one original effect that it turns back. Where there
/// is exactly one such effect on disk whose old value is an absence, a file, a
/// directory or a link, the step is taken.
pub proof fn recoveries_give_old_values_back(
    originals: Seq<PlanModel>,
    effect: PlanModel,
    working_copy: Seq<char>,
    i: int,
)
    ensures
        replay::restore_of(originals, effect, working_copy) matches Ok(action) ==> exists|k: int|
            #[trigger] gives_back(action, originals, effect, k),
        0 <= i < originals.len() && originals[i].target == effect.target
            && originals[i].expected_old == effect.expected_new && originals[i].expected_new
            == effect.expected_old && (forall|j: int|
            0 <= j < originals.len() && j != i ==> !((#[trigger] originals[j]).target
                == effect.target && originals[j].expected_old == effect.expected_new
                && originals[j].expected_new == effect.expected_old)) && effect.target.on_disk() && (
        effect.expected_new is Absent || (effect.expected_new matches ValueModel::File(state)
            && !(state.kind is Gitlink))) ==> replay::restore_of(originals, effect, working_copy)
            is Ok,
{
    let n = originals.len() as int;
    transitions_are_inverses(originals, effect, n);
    let places = replay::transitions(originals, effect, n);
    if let Ok(action) = replay::restore_of(originals, effect, working_copy) {
        assert(places.contains(places[0]));
        assert(gives_back(action, originals, effect, places[0]));
    }
    if 0 <= i < n && originals[i].target == effect.target && originals[i].expected_old
        == effect.expected_new && originals[i].expected_new == effect.expected_old && (forall|
        j: int,
    |
        0 <= j < n && j != i ==> !((#[trigger] originals[j]).target == effect.target
            && originals[j].expected_old == effect.expected_new && originals[j].expected_new
            == effect.expected_old)) {
        assert(places.contains(i));
        assert forall|k: int| 0 <= k < places.len() implies #[trigger] places[k] == i by {
            assert(places.contains(places[k]));
            assert(0 <= places[k] < n);
            assert(originals[places[k]].target == effect.target);
        }
        if places.len() > 1 {
            assert(places[0] != places[1]);
        }
    }
}

/// A backup is taken only of the value that an effect expects: an absence is
/// recorded, and what is there is copied.
pub proof fn backups_are_of_expected_values(effect: PlanModel, observed: ValueModel)
    ensures
        replay::backup_action(effect, observed) == Ok::<BackupAction, effects::OperationRefusal>(
            BackupAction::RecordAbsence,
        ) <==> observed is Absent && effect.expected_old is Absent,
        replay::backup_action(effect, observed) == Ok::<BackupAction, effects::OperationRefusal>(
            BackupAction::CopyValue,
        ) <==> observed is File && observed == effect.expected_old,
{
}

/// A recovery is the child of what it takes back, leads from its outcome to its
/// beginning, and has the effects that it was given; an anchor changes nothing.
pub proof fn recoveries_lead_back(
    id: OperationId,
    original: PayloadModel,
    effects: Seq<PlanModel>,
    working_copy: Seq<char>,
    state: RepoStateModel,
)
    ensures
        ({
            let inverse = operation::inverse_of(id, original, effects);
            &&& inverse.parents == seq![id]
            &&& inverse.kind is Recover
            &&& inverse.working_copy == original.working_copy
            &&& inverse.before == original.after
            &&& inverse.after == original.before
            &&& inverse.effects == effects
            &&& inverse.timestamp_ms == original.timestamp_ms
        }),
        ({
            let anchor = operation::anchor_of(working_copy, state);
            &&& anchor.parents.len() == 0
            &&& anchor.kind is Anchor
            &&& anchor.working_copy == Some(working_copy)
            &&& anchor.before == state
            &&& anchor.after == state
            &&& anchor.effects.len() == 0
        }),
{
}


/// The outcome of an effect is told by what was seen before and after it: it was
/// applied if the old value became the new one, recovered if the new one was
/// there already, and rejected in every other case.
pub proof fn outcomes_are_told_by_values(effect: PlanModel, before: ValueModel, after: ValueModel)
    ensures
        operation::outcome_kind(effect, before, after) is Applied <==> after == effect.expected_new
            && before == effect.expected_old,
        operation::outcome_kind(effect, before, after) is Recovered <==> after
            == effect.expected_new && before == effect.expected_new && before
            != effect.expected_old,
        operation::outcome_kind(effect, before, after) is LeaseRejected <==> after
            != effect.expected_new || (before != effect.expected_old && before
            != effect.expected_new),
{
}

proof fn last_on_is_last(effects: Seq<PlanModel>, target: TargetModel, n: int)
    requires
        0 <= n <= effects.len(),
    ensures
        match recovery::last_on(effects, target, n) {
            Some(j) => 0 <= j < n && effects[j].target == target && forall|k: int|
                j < k < n ==> (#[trigger] effects[k]).target != target,
            None => forall|k: int| 0 <= k < n ==> (#[trigger] effects[k]).target != target,
        },
    decreases n,
{
    if n > 0 && effects[n - 1].target != target {
        last_on_is_last(effects, target, n - 1);
    }
}

/// A preflight refuses only for cause: where every target may be worked on and
/// each effect meets its old value, be it left by the last effect before it on
/// its target or observed, nothing is refused.
pub proof fn preflights_refuse_for_cause(
    effects: Seq<PlanModel>,
    working_copy: Seq<char>,
    observed: Seq<(TargetModel, ValueModel)>,
    i: int,
)
    requires
        0 <= i <= effects.len(),
        forall|k: int|
            0 <= k < effects.len() ==> effect_paths::target_refusal(
                (#[trigger] effects[k]).target,
                working_copy,
            ) is None,
        forall|j: int, k: int|
            #![trigger effects[j], effects[k]]
            0 <= j < k < effects.len() && effects[j].target == effects[k].target && (forall|m: int|
                j < m < k ==> (#[trigger] effects[m]).target != effects[k].target)
                ==> effects[j].expected_new == effects[k].expected_old,
        forall|k: int|
            0 <= k < effects.len() && (forall|m: int|
                0 <= m < k ==> (#[trigger] effects[m]).target != effects[k].target)
                ==> pristine::first_value(observed, (#[trigger] effects[k]).target) == Some(
                effects[k].expected_old,
            ),
    ensures
        operation::preflight_from(effects, working_copy, observed, i) is None,
    decreases effects.len() - i,
{
    if i < effects.len() {
        last_on_is_last(effects, effects[i].target, i);
        match recovery::last_on(effects, effects[i].target, i) {
            Some(j) => {
                assert(effects[j].expected_new == effects[i].expected_old);
            },
            None => {
                assert(pristine::first_value(observed, effects[i].target) == Some(
                    effects[i].expected_old,
                ));
            },
        }
        preflights_refuse_for_cause(effects, working_copy, observed, i + 1);
    }
}

/// A relative path is accepted exactly when it has components, none of which is
/// the root, `.` or `..`, and, unless that is allowed, does not begin in a
/// version-control directory.
pub proof fn paths_are_accepted_by_their_components(path: Seq<char>, allow_vcs_names: bool)
    ensures
        effect_paths::path_refusal(path, allow_vcs_names) is None <==> {
            let parts = paths::components(path);
            &&& path.len() > 0
            &&& parts.len() > 0
            &&& forall|k: int|
                0 <= k < parts.len() ==> (#[trigger] parts[k]) != seq!['/'] && parts[k] != seq!['.']
                    && parts[k] != seq!['.', '.']
            &&& allow_vcs_names || (parts[0] != ".atomic"@ && parts[0] != ".git"@)
        },
{
    let parts = paths::components(path);
    if effect_paths::path_refusal(path, allow_vcs_names) is None {
        assert forall|k: int| 0 <= k < parts.len() implies (#[trigger] parts[k]) != seq!['/']
            && parts[k] != seq!['.'] && parts[k] != seq!['.', '.'] by {
            assert(effect_paths::names_entry(parts[k]));
        }
    }
}

/// Where a target lies: a path of the filesystem or of the workspace below the
/// root, a shelved one below its view in the working copy's own workspaces; no
/// directory on the way is a link.
pub proof fn targets_lie_below_their_base(
    root: Seq<char>,
    dot_dir: Seq<char>,
    working_copy: Seq<char>,
    owner: Seq<char>,
    view: Seq<char>,
    path: Seq<char>,
    links: Seq<Seq<char>>,
)
    ensures
        ({
            let parts = paths::components(path);
            let found = effect_paths::effect_path(
                root,
                dot_dir,
                working_copy,
                TargetModel::FilesystemPath { path },
                links,
            );
            found matches Ok(told) ==> told == Some(
                effect_paths::below(root, parts, parts.len() as int),
            ) && forall|n: int|
                0 < n < parts.len() ==> !links.contains(#[trigger] effect_paths::below(root, parts, n))
        }),
        ({
            let found = effect_paths::effect_path(
                root,
                dot_dir,
                working_copy,
                TargetModel::ShelfPath { working_copy: owner, view, path },
                links,
            );
            found matches Ok(told) ==> owner == working_copy && {
                let own = text::joined(
                    text::joined(text::joined(dot_dir, "working-copies"@), working_copy),
                    "workspaces"@,
                );
                let names = paths::components(view);
                let parts = paths::components(path);
                told == Some(
                    effect_paths::below(
                        effect_paths::below(own, names, names.len() as int),
                        parts,
                        parts.len() as int,
                    ),
                )
            }
        }),
{
    let parts = paths::components(path);
    if !effect_paths::crosses_link(root, parts, links) {
        assert forall|n: int| 0 < n < parts.len() implies !links.contains(
            #[trigger] effect_paths::below(root, parts, n),
        ) by {}
    }
}


/// The final value of a target is what the last effect on it leaves, and an
/// operation whose effects have all landed and whose targets were all seen with
/// these values is verified.
pub proof fn finished_operations_are_verified(
    payload: PayloadModel,
    working_copy: Seq<char>,
    receipts: Seq<ReceiptModel>,
    observed: Seq<(TargetModel, ValueModel)>,
    j: int,
)
    ensures
        0 <= j < payload.effects.len() && (forall|k: int|
            j < k < payload.effects.len() ==> (#[trigger] payload.effects[k]).target
                != payload.effects[j].target) ==> operation::final_value(
            payload.effects,
            payload.effects[j].target,
        ) == payload.effects[j].expected_new,
        payload.working_copy == Some(working_copy) && (forall|k: int|
            0 <= k < payload.effects.len() ==> operation::completed(receipts).contains(
                (#[trigger] payload.effects[k]).ordinal,
            ) && effect_paths::target_refusal(payload.effects[k].target, working_copy) is None
                && pristine::first_value(observed, payload.effects[k].target) == Some(
                operation::final_value(payload.effects, payload.effects[k].target),
            )) ==> operation::verification_refusal(payload, working_copy, receipts, observed)
            is None,
{
    let effects = payload.effects;
    if 0 <= j < effects.len() && (forall|k: int|
        j < k < effects.len() ==> (#[trigger] effects[k]).target != effects[j].target) {
        last_on_is_last(effects, effects[j].target, effects.len() as int);
        let n = recovery::last_on(effects, effects[j].target, effects.len() as int)->0;
        assert(n == j);
    }
    if forall|k: int|
        0 <= k < effects.len() ==> operation::completed(receipts).contains(
            (#[trigger] effects[k]).ordinal,
        ) && effect_paths::target_refusal(effects[k].target, working_copy) is None
            && pristine::first_value(observed, effects[k].target) == Some(
            operation::final_value(effects, effects[k].target),
        ) {
        all_are_finished(effects, operation::completed(receipts), 0);
        all_are_settled(effects, working_copy, observed, 0);
    }
}

proof fn all_are_finished(effects: Seq<PlanModel>, done: Seq<u32>, i: int)
    requires
        0 <= i <= effects.len(),
        forall|k: int| 0 <= k < effects.len() ==> done.contains((#[trigger] effects[k]).ordinal),
    ensures
        operation::unfinished_from(effects, done, i) is None,
    decreases effects.len() - i,
{
    if i < effects.len() {
        assert(done.contains(effects[i].ordinal));
        all_are_finished(effects, done, i + 1);
    }
}

proof fn all_are_settled(
    effects: Seq<PlanModel>,
    working_copy: Seq<char>,
    observed: Seq<(TargetModel, ValueModel)>,
    i: int,
)
    requires
        0 <= i <= effects.len(),
        forall|k: int|
            0 <= k < effects.len() ==> effect_paths::target_refusal(
                (#[trigger] effects[k]).target,
                working_copy,
            ) is None && pristine::first_value(observed, effects[k].target) == Some(
                operation::final_value(effects, effects[k].target),
            ),
    ensures
        operation::unsettled_from(effects, working_copy, observed, i) is None,
    decreases effects.len() - i,
{
    if i < effects.len() {
        assert(effect_paths::target_refusal(effects[i].target, working_copy) is None);
        all_are_settled(effects, working_copy, observed, i + 1);
    }
}

/// Whether an effect is the first on its target, and its target a path on disk.
pub open spec fn is_first_on_disk(effects: Seq<PlanModel>, i: int) -> bool {
    (effects[i].target is FilesystemPath || effects[i].target is WorkspacePath
        || effects[i].target is ShelfPath) && forall|m: int|
        0 <= m < i ==> (#[trigger] effects[m]).target != effects[i].target
}

proof fn breaks_are_found(effects: Seq<PlanModel>, i: int)
    requires
        0 <= i <= effects.len(),
    ensures
        match recovery::first_break(effects, i) {
            Some(b) => i <= b < effects.len() && !recovery::follows(effects, b) && forall|k: int|
                i <= k < b ==> #[trigger] recovery::follows(effects, k),
            None => forall|k: int|
                i <= k < effects.len() ==> #[trigger] recovery::follows(effects, k),
        },
    decreases effects.len() - i,
{
    if i < effects.len() {
        breaks_are_found(effects, i + 1);
    }
}

proof fn leases_hold(
    effects: Seq<PlanModel>,
    working_copy: Seq<char>,
    observed: Seq<(TargetModel, ValueModel)>,
    i: int,
)
    requires
        0 <= i <= effects.len(),
        recovery::first_break(effects, 0) is None,
    ensures
        operation::preflight_from(effects, working_copy, observed, i) is None <==> forall|k: int|
            i <= k < effects.len() ==> #[trigger] may_run(effects, working_copy, observed, k),
    decreases effects.len() - i,
{
    if i < effects.len() {
        leases_hold(effects, working_copy, observed, i + 1);
        breaks_are_found(effects, 0);
        assert(recovery::follows(effects, i));
        last_on_is_last(effects, effects[i].target, i);
        assert(may_run(effects, working_copy, observed, i) == (operation::preflight_refusal(
            effects,
            working_copy,
            observed,
            i,
        ) is None));
    }
}

/// Whether an effect may run: nothing is asked of a target without an executor,
/// another lies where effects may, and what is first done to it finds there what
/// it expects.
pub open spec fn may_run(
    effects: Seq<PlanModel>,
    working_copy: Seq<char>,
    observed: Seq<(TargetModel, ValueModel)>,
    i: int,
) -> bool {
    effects[i].target is Other || {
        &&& effect_paths::target_refusal(effects[i].target, working_copy) is None
        &&& (forall|m: int| 0 <= m < i ==> (#[trigger] effects[m]).target != effects[i].target)
            ==> pristine::first_value(observed, effects[i].target) == Some(effects[i].expected_old)
    }
}

/// Whether every effect starts from the value that the one before it on the
/// same target leaves.
pub open spec fn hands_on(effects: Seq<PlanModel>) -> bool {
    forall|j: int, k: int|
        #![trigger effects[j], effects[k]]
        0 <= j < k < effects.len() && effects[j].target == effects[k].target && (forall|m: int|
            j < m < k ==> (#[trigger] effects[m]).target != effects[k].target)
            ==> effects[j].expected_new == effects[k].expected_old
}

/// Effects chain exactly when each starts from the value that the one before it
/// on the same target leaves.
pub proof fn chains_hand_values_on(effects: Seq<PlanModel>)
    ensures
        recovery::first_break(effects, 0) is None <==> hands_on(effects),
{
    breaks_are_found(effects, 0);
    if recovery::first_break(effects, 0) is None {
        assert forall|j: int, k: int|
            #![trigger effects[j], effects[k]]
            0 <= j < k < effects.len() && effects[j].target == effects[k].target && (forall|m: int|
                j < m < k ==> (#[trigger] effects[m]).target
                    != effects[k].target) implies effects[j].expected_new
            == effects[k].expected_old by {
            assert(recovery::follows(effects, k));
            last_on_is_last(effects, effects[k].target, k);
            let l = recovery::last_on(effects, effects[k].target, k)->0;
            assert(effects[l].target == effects[k].target);
        }
    } else {
        let b = recovery::first_break(effects, 0)->0;
        last_on_is_last(effects, effects[b].target, b);
        let l = recovery::last_on(effects, effects[b].target, b)->0;
        assert(effects[l].target == effects[b].target);
    }
}

/// A switch is prepared only between states of the working copy, from the sole
/// verified head, with effects that hand their values on, that lie where effects
/// may, and that find on disk what they expect; and then it is.
pub proof fn switches_are_prepared_when_all_holds(
    working_copy: Seq<char>,
    before: RepoStateModel,
    after: RepoStateModel,
    effects: Seq<PlanModel>,
    heads: Seq<OperationId>,
    parent: OperationId,
    receipts: Seq<ReceiptModel>,
    observed: Seq<(TargetModel, ValueModel)>,
)
    ensures
        operation::switch_refusal(
            working_copy,
            before,
            after,
            effects,
            heads,
            parent,
            receipts,
            observed,
        ) is None <==> {
            &&& before.working_copy is Some && before.working_copy->0.id == working_copy
            &&& after.working_copy is Some && after.working_copy->0.id == working_copy
            &&& heads == seq![parent]
            &&& exists|i: int|
                0 <= i < receipts.len() && (#[trigger] receipts[i]).kind is Verified
                    && receipts[i].effect_ordinal is None
            &&& hands_on(effects)
            &&& forall|k: int|
                0 <= k < effects.len() ==> #[trigger] may_run(effects, working_copy, observed, k)
        },
{
    switches_start_from_a_verified_head(heads, parent, receipts);
    chains_hand_values_on(effects);
    assert(heads.len() == 1 && heads[0] == parent ==> heads =~= seq![parent]);
    if recovery::first_break(effects, 0) is None {
        leases_hold(effects, working_copy, observed, 0);
    }
}

proof fn backups_from(effects: Seq<PlanModel>, working_copy: Seq<char>, i: int, found: Seq<int>)
    requires
        0 <= i <= effects.len(),
        forall|k: int| 0 <= k < found.len() ==> 0 <= #[trigger] found[k] < i,
        forall|j: int, k: int|
            #![trigger found[j], found[k]]
            0 <= j < k < found.len() ==> found[j] < found[k],
        forall|e: int| 0 <= e < i ==> (#[trigger] is_first_on_disk(effects, e) == found.contains(e)),
    ensures
        match replay::backup_from(effects, working_copy, i, found) {
            Ok(places) => {
                &&& forall|k: int| 0 <= k < places.len() ==> 0 <= #[trigger] places[k] < effects.len()
                &&& forall|j: int, k: int|
                    #![trigger places[j], places[k]]
                    0 <= j < k < places.len() ==> places[j] < places[k]
                &&& forall|e: int|
                    0 <= e < effects.len() ==> (#[trigger] is_first_on_disk(effects, e)
                        == places.contains(e))
                &&& forall|e: int|
                    i <= e < effects.len() && #[trigger] is_first_on_disk(effects, e)
                        ==> effect_paths::target_refusal(effects[e].target, working_copy) is None
            },
            Err(_) => exists|e: int|
                0 <= e < effects.len() && #[trigger] is_first_on_disk(effects, e)
                    && effect_paths::target_refusal(effects[e].target, working_copy) is Some,
        },
    decreases effects.len() - i,
{
    if i < effects.len() {
        last_on_is_last(effects, effects[i].target, i);
        assert(replay::backs_up(effects, i) == is_first_on_disk(effects, i));
        if !replay::backs_up(effects, i) {
            assert(!found.contains(i));
            backups_from(effects, working_copy, i + 1, found);
        } else if effect_paths::target_refusal(effects[i].target, working_copy) is None {
            let next = found.push(i);
            assert forall|e: int| 0 <= e < i + 1 implies (#[trigger] is_first_on_disk(effects, e)
                == next.contains(e)) by {
                assert(next[found.len() as int] == i);
                if found.contains(e) {
                    let k = found.index_of(e);
                    assert(next[k] == e);
                }
            }
            backups_from(effects, working_copy, i + 1, next);
        }
    }
}

/// Backed up are the first effects on each path on disk, once each and in
/// order; they are refused when one of these lies where no effect may. A backup
/// may be made again exactly when each of their targets still holds the value
/// that was there before.
pub proof fn first_effects_are_backed_up(
    effects: Seq<PlanModel>,
    working_copy: Seq<char>,
    observed: Seq<(TargetModel, ValueModel)>,
)
    ensures
        match replay::backup_from(effects, working_copy, 0, Seq::empty()) {
            Ok(places) => {
                &&& forall|k: int| 0 <= k < places.len() ==> 0 <= #[trigger] places[k] < effects.len()
                &&& forall|j: int, k: int|
                    #![trigger places[j], places[k]]
                    0 <= j < k < places.len() ==> places[j] < places[k]
                &&& forall|e: int|
                    0 <= e < effects.len() ==> (#[trigger] is_first_on_disk(effects, e)
                        == places.contains(e))
            },
            Err(_) => exists|e: int|
                0 <= e < effects.len() && #[trigger] is_first_on_disk(effects, e)
                    && effect_paths::target_refusal(effects[e].target, working_copy) is Some,
        },
        replay::rebuild_from(effects, working_copy, observed, 0) is None <==> forall|e: int|
            0 <= e < effects.len() && #[trigger] is_first_on_disk(effects, e)
                ==> effect_paths::target_refusal(effects[e].target, working_copy) is None
                && pristine::first_value(observed, effects[e].target) == Some(
                effects[e].expected_old,
            ),
{
    backups_from(effects, working_copy, 0, Seq::empty());
    rebuilt_from(effects, working_copy, observed, 0);
}

proof fn rebuilt_from(
    effects: Seq<PlanModel>,
    working_copy: Seq<char>,
    observed: Seq<(TargetModel, ValueModel)>,
    i: int,
)
    requires
        0 <= i <= effects.len(),
    ensures
        replay::rebuild_from(effects, working_copy, observed, i) is None <==> forall|e: int|
            i <= e < effects.len() && #[trigger] is_first_on_disk(effects, e)
                ==> effect_paths::target_refusal(effects[e].target, working_copy) is None
                && pristine::first_value(observed, effects[e].target) == Some(
                effects[e].expected_old,
            ),
    decreases effects.len() - i,
{
    if i < effects.len() {
        last_on_is_last(effects, effects[i].target, i);
        assert(replay::backs_up(effects, i) == is_first_on_disk(effects, i));
        rebuilt_from(effects, working_copy, observed, i + 1);
    }
}

/// The number that decimal digits spell; other characters count for nothing.
pub open spec fn amount(digits: Seq<char>) -> nat
    decreases digits.len(),
{
    if digits.len() == 0 {
        0
    } else {
        let c = digits.last();
        let d: nat = if c == '1' {
            1
        } else if c == '2' {
            2
        } else if c == '3' {
            3
        } else if c == '4' {
            4
        } else if c == '5' {
            5
        } else if c == '6' {
            6
        } else if c == '7' {
            7
        } else if c == '8' {
            8
        } else if c == '9' {
            9
        } else {
            0
        };
        10 * amount(digits.drop_last()) + d
    }
}

proof fn zeros_count_for_nothing(zeros: Seq<char>)
    requires
        forall|k: int| 0 <= k < zeros.len() ==> #[trigger] zeros[k] == '0',
    ensures
        amount(zeros) == 0,
    decreases zeros.len(),
{
    if zeros.len() > 0 {
        assert(zeros[zeros.len() - 1] == '0');
        assert forall|k: int| 0 <= k < zeros.drop_last().len() implies #[trigger] zeros.drop_last()[k]
            == '0' by {
            assert(zeros[k] == '0');
        }
        zeros_count_for_nothing(zeros.drop_last());
    }
}

proof fn numerals_are_read_again(zeros: Seq<char>, n: nat)
    requires
        forall|k: int| 0 <= k < zeros.len() ==> #[trigger] zeros[k] == '0',
    ensures
        amount(zeros + text::numeral(n)) == n,
    decreases n,
{
    let all = zeros + text::numeral(n);
    if n < 10 {
        zeros_count_for_nothing(zeros);
        assert(all.drop_last() =~= zeros);
        assert(all.last() == text::digit(n as int));
    } else {
        numerals_are_read_again(zeros, n / 10);
        assert(all.drop_last() =~= zeros + text::numeral(n / 10));
        assert(all.last() == text::digit((n % 10) as int));
    }
}

proof fn few_digits(n: nat, width: nat)
    requires
        width > 0,
        n < tens(width),
    ensures
        0 < text::numeral(n).len() <= width,
    decreases width,
{
    if n >= 10 {
        assert(n / 10 < tens((width - 1) as nat)) by (nonlinear_arith)
            requires
                n < 10 * tens((width - 1) as nat),
        ;
        assert(width > 1);
        few_digits(n / 10, (width - 1) as nat);
    }
}

spec fn tens(width: nat) -> nat
    decreases width,
{
    if width == 0 {
        1
    } else {
        10 * tens((width - 1) as nat)
    }
}

/// The backup of each effect lies in a place of its own below the root, named by
/// the effect's ordinal in ten digits.
pub proof fn backups_lie_apart(root: Seq<char>, a: u32, b: u32)
    ensures
        effect_paths::backup_entry(root, a).len() == root.len() + 19,
        effect_paths::backup_entry(root, a).take(root.len() as int + 9) == root + seq![
            '/',
            'e',
            'n',
            't',
            'r',
            'i',
            'e',
            's',
            '/',
        ],
        amount(effect_paths::backup_entry(root, a).skip(root.len() as int + 9)) == a,
        effect_paths::backup_entry(root, a) == effect_paths::backup_entry(root, b) ==> a == b,
{
    entry_is_named(root, a);
    entry_is_named(root, b);
}

proof fn entry_is_named(root: Seq<char>, a: u32)
    ensures
        effect_paths::backup_entry(root, a).len() == root.len() + 19,
        effect_paths::backup_entry(root, a).take(root.len() as int + 9) == root + seq![
            '/',
            'e',
            'n',
            't',
            'r',
            'i',
            'e',
            's',
            '/',
        ],
        amount(effect_paths::backup_entry(root, a).skip(root.len() as int + 9)) == a,
{
    reveal_with_fuel(tens, 11);
    few_digits(a as nat, 10);
    let digits = text::numeral(a as nat);
    let zeros = Seq::new((10 - digits.len()) as nat, |i: int| '0');
    numerals_are_read_again(zeros, a as nat);
    reveal_strlit("entries");
    let entry = effect_paths::backup_entry(root, a);
    assert(effect_paths::padded(a as nat, 10) =~= zeros + digits);
    assert(entry.skip(root.len() as int + 9) =~= zeros + digits);
    assert(entry.take(root.len() as int + 9) =~= root + seq![
        '/',
        'e',
        'n',
        't',
        'r',
        'i',
        'e',
        's',
        '/',
    ]);
}

} // verus!
