//! When a shared workspace is entered.

use crate::git_state;
use crate::git_state::{HeadModel, WorkspaceGitObservation, WorkspaceGitRepositoryObservation};
use crate::repository;
use crate::repository::Repository;
use crate::text;
use crate::types::ContentHash;
use crate::workspace_txn;
use crate::workspace_txn::{
    CheckpointModel, EntryEvent, EntryPhase, EntryTurn, UnanchoredModel,
    WorkspaceEntry, WorkspaceTxnMode, WorkspaceTxnStart,
};
use vstd::prelude::*;

verus! {

proof fn present_markers_are_there(
    markers: Seq<git_state::GitOperationMarkerObservation>,
)
    ensures
        git_state::present(markers).len() > 0 <==> exists|k: int|
            0 <= k < markers.len() && (#[trigger] markers[k]).kind !is Missing,
    decreases markers.len(),
{
    if markers.len() > 0 {
        let rest = markers.drop_last();
        present_markers_are_there(rest);
        assert(markers[markers.len() - 1] == markers.last());
        if exists|k: int| 0 <= k < rest.len() && (#[trigger] rest[k]).kind !is Missing {
            let k = choose|k: int| 0 <= k < rest.len() && (#[trigger] rest[k]).kind !is Missing;
            assert(markers[k].kind !is Missing);
        }
        if exists|k: int| 0 <= k < markers.len() && (#[trigger] markers[k]).kind !is Missing {
            let k = choose|k: int|
                0 <= k < markers.len() && (#[trigger] markers[k]).kind !is Missing;
            if k < rest.len() {
                assert(rest[k].kind !is Missing);
            }
        }
    }
}

/// Git owns the worktree exactly while its state is not clean, one of its
/// operation markers is there, or the index has an entry of a conflict stage.
pub proof fn git_owns_unfinished_worktrees(git: WorkspaceGitRepositoryObservation)
    ensures
        git.git_owned() <==> git.operation.repository_state@ != "Clean"@ || (exists|k: int|
            0 <= k < git.operation.markers@.len() && (#[trigger] git.operation.markers@[k]).kind
                !is Missing) || (exists|k: int|
            0 <= k < git.index_stages@.len() && #[trigger] git.index_stages@[k] != 0),
{
    present_markers_are_there(git.operation.markers@);
    let stages = git.index_stages@;
    let keep = |stage: u8| stage != 0;
    assert(git_state::conflicted(stages) == stages.filter(keep));
    if stages.filter(keep).len() > 0 {
        broadcast use vstd::seq_lib::group_filter_ensures;

        let x = stages.filter(keep)[0];
        assert(stages.filter(keep).contains(x));
        stages.lemma_filter_contains_rev(keep, x);
        let k = stages.index_of(x);
        assert(stages[k] != 0);
    }
    if exists|k: int| 0 <= k < stages.len() && #[trigger] stages[k] != 0 {
        let k = choose|k: int| 0 <= k < stages.len() && #[trigger] stages[k] != 0;
        stages.lemma_filter_contains(keep, k);
    }
}

/// Whether an observed repository is at a checkpoint.
pub open spec fn is_at(
    git: WorkspaceGitRepositoryObservation,
    recorded: CheckpointModel,
    view_name: Seq<char>,
    forced: bool,
) -> bool {
    &&& git.head@ matches HeadModel::Attached { symref, oid } && oid == recorded.git_head && (
    recorded.git_head_symref is Some ==> recorded.git_head_symref == Some(symref))
    &&& text::opt_text(git.head_tree) == Some(recorded.git_tree)
    &&& recorded.git_index_tree is Some ==> text::opt_text(git.index_tree)
        == recorded.git_index_tree
    &&& forced || recorded.view == view_name
}

/// A workspace needs no remedy exactly where there is neither Git nor a
/// checkpoint, or where Git does not own the worktree, its index is not locked,
/// and it is at the recorded checkpoint, of the desired view unless forced.
pub proof fn nothing_is_remedied_at_the_checkpoint(
    mode: WorkspaceTxnMode,
    view_name: Seq<char>,
    desired_state: ContentHash,
    checkpoint: Option<CheckpointModel>,
    observation: WorkspaceGitObservation,
)
    ensures
        workspace_txn::classification(mode, view_name, desired_state, checkpoint, observation)
            is None <==> match observation {
            WorkspaceGitObservation::NoGit { .. } => checkpoint is None,
            WorkspaceGitObservation::Repository(git) => !git.git_owned() && git.index_lock.kind
                is Missing && checkpoint is Some && is_at(
                *git,
                checkpoint->0,
                view_name,
                mode is Force,
            ),
        },
{
}

/// What a drifted head is told: the first of view, branch, head, tree and index
/// tree that is not the recorded one, with both values.
pub proof fn drift_tells_what_changed(
    mode: WorkspaceTxnMode,
    view_name: Seq<char>,
    desired_state: ContentHash,
    recorded: CheckpointModel,
    symref: Seq<char>,
    oid: Seq<char>,
    head_tree: Option<Seq<char>>,
    index_tree: Option<Seq<char>>,
)
    ensures
        workspace_txn::drift(
            mode,
            view_name,
            desired_state,
            recorded,
            symref,
            oid,
            head_tree,
            index_tree,
        ) matches Some(told) ==> match told {
            UnanchoredModel::AtomicCheckpointDrift { checkpoint_view, desired_view, .. } =>
                checkpoint_view == recorded.view && desired_view == view_name && recorded.view
                    != view_name,
            UnanchoredModel::HeadSymrefChanged { checkpoint, observed } => Some(checkpoint)
                == recorded.git_head_symref && observed == symref && checkpoint != observed,
            UnanchoredModel::HeadChanged { checkpoint, observed } => checkpoint == recorded.git_head
                && observed == oid && checkpoint != observed,
            UnanchoredModel::HeadTreeChanged { checkpoint, .. } => checkpoint == recorded.git_tree
                && head_tree != Some(checkpoint),
            UnanchoredModel::IndexTreeChanged { checkpoint, observed } => Some(checkpoint)
                == recorded.git_index_tree && observed == index_tree && observed != Some(
                checkpoint,
            ),
            _ => false,
        },
{
}

/// A workspace is entered only on a Git state that needs no remedy and that was
/// seen unchanged: by one who observes, right after two equal observations; by
/// others, after the repository was aligned and recovered and observed once
/// more. Diverged operation heads are never entered.
pub proof fn entry_needs_a_stable_state(
    entry: WorkspaceEntry,
    event: EntryEvent,
    turn: EntryTurn,
)
    requires
        entry.wf(),
        entry.awaits(event),
        workspace_txn::leads_to(entry, event, turn),
        turn matches EntryTurn::Finish(WorkspaceTxnStart::Ready(_)),
    ensures
        turn matches EntryTurn::Finish(WorkspaceTxnStart::Ready(txn)) && {
            &&& entry.remedy(txn.spec_git()) is None
            &&& txn.spec_record() == entry.record
            &&& txn.spec_view() == entry.view
            &&& txn.spec_mode() == entry.mode
            &&& match entry.phase {
                EntryPhase::Confirming { initial } => entry.mode is Observe && initial@
                    == txn.spec_git().token_model() && txn.spec_heads() == entry.heads,
                EntryPhase::Concluding { git } => entry.mode !is Observe && git == txn.spec_git()
                    && txn.spec_heads() !is Diverged,
                _ => false,
            }
        },
{
}

/// Every turn that goes on is a turn nearer to the end, and a Git state that
/// changed between two observations is never confirmed.
pub proof fn entry_goes_on_to_its_end(entry: WorkspaceEntry, event: EntryEvent, turn: EntryTurn)
    requires
        entry.wf(),
        entry.awaits(event),
        workspace_txn::leads_to(entry, event, turn),
    ensures
        turn matches EntryTurn::Continue(next, _) ==> next.turns_left() < entry.turns_left()
            && next.mode == entry.mode && next.checkpoint == entry.checkpoint,
        entry.phase is Confirming && event is Observed && (entry.phase->initial)@ != (
        event->Observed_0).token_model() ==> match turn {
            EntryTurn::Continue(next, _) => next.phase is Initial && next.attempt == entry.attempt
                + 1,
            EntryTurn::Finish(WorkspaceTxnStart::Remediation(told)) => told@
                is ConcurrentGitMutation,
            EntryTurn::Finish(WorkspaceTxnStart::Ready(_)) => false,
        },
        entry.phase is Rechecking && event is Observed && (entry.phase->Rechecking_token)@ != (
        event->Observed_0).token_model() ==> (turn matches EntryTurn::Finish(
            WorkspaceTxnStart::Remediation(told),
        ) && told@ is ConcurrentGitMutation),
{
}

/// A working copy may be worked on exactly when it has a record, the view that
/// the record names is there, and that view is at the recorded state.
pub proof fn authority_is_the_recorded_state(repo: Repository, id: Seq<char>, i: int, j: int)
    requires
        repository::record_from(repo.working_copies@, id, 0) == Some(i),
        0 <= j < repo.views@.len(),
        repo.views@[j].id == repo.working_copies@[i].desired_view,
        forall|k: int| 0 <= k < j ==> (#[trigger] repo.views@[k]).id != repo.views@[j].id,
    ensures
        workspace_txn::has_authority(repo, id) <==> repo.views@[j].state
            == repo.working_copies@[i].desired_state,
{
    first_view_with_id(repo, repo.views@[j].id, 0, j);
}

proof fn first_view_with_id(repo: Repository, id: u64, i: int, j: int)
    requires
        0 <= i <= j < repo.views@.len(),
        repo.views@[j].id == id,
        forall|k: int| i <= k < j ==> (#[trigger] repo.views@[k]).id != id,
    ensures
        repository::view_id_from(repo.views@, id, i) == Some(j),
    decreases j - i,
{
    if i < j {
        first_view_with_id(repo, id, i + 1, j);
    }
}

/// A checkpoint of the first version is read as if it had named the branch of
/// its view and the index tree of its head; other versions are read as they
/// stand.
pub proof fn old_checkpoints_are_completed(wire: CheckpointModel)
    ensures
        ({
            let read = workspace_txn::upgraded(wire);
            &&& read.view == wire.view && read.git_head == wire.git_head && read.git_tree
                == wire.git_tree && read.version == wire.version
            &&& wire.git_head_symref is Some ==> read.git_head_symref == wire.git_head_symref
            &&& wire.git_index_tree is Some ==> read.git_index_tree == wire.git_index_tree
            &&& wire.version == 1 && wire.git_head_symref is None ==> read.git_head_symref == Some(
                "refs/heads/"@ + wire.view,
            )
            &&& wire.version == 1 && wire.git_index_tree is None ==> read.git_index_tree == Some(
                wire.git_tree,
            )
            &&& wire.version != 1 ==> read == wire
        }),
{
}

} // verus!
