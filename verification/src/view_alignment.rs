//! Moving the tree and the view pointer together: the steps of a switch that
//! either completes or can be undone by whoever opens the repository next.

use crate::error::RepositoryError;
use crate::pristine::Visibility;
use crate::repository::Repository;
use crate::text;
use crate::tree_alignment::DEFERRED_TREE_JOURNAL_VERSION;
use vstd::prelude::*;

verus! {

/// The marker of a switch that has not been completed.
#[derive(Debug)]
pub struct PendingTreeAlignment {
    pub version: u32,
    pub source_view: String,
    pub target_view: String,
}

/// The marker for a switch between two views.
pub fn pending_alignment(source_view: &str, target_view: &str) -> (pending: PendingTreeAlignment)
    ensures
        pending.version == DEFERRED_TREE_JOURNAL_VERSION,
        pending.source_view@ == source_view@,
        pending.target_view@ == target_view@,
{
    PendingTreeAlignment {
        version: DEFERRED_TREE_JOURNAL_VERSION,
        source_view: source_view.to_owned(),
        target_view: target_view.to_owned(),
    }
}

/// What is said of a marker of another version.
pub open spec fn unsupported_alignment(version: u32) -> Seq<char> {
    "unsupported deferred TREE alignment version "@ + text::numeral(version as nat)
}

/// Checks the version of a loaded marker.
pub fn accept_pending(pending: PendingTreeAlignment) -> (accepted: Result<
    PendingTreeAlignment,
    RepositoryError,
>)
    ensures
        if pending.version == DEFERRED_TREE_JOURNAL_VERSION {
            accepted == Ok::<PendingTreeAlignment, RepositoryError>(pending)
        } else {
            accepted matches Err(RepositoryError::Serialization(message)) && message@
                == unsupported_alignment(pending.version)
        },
{
    if pending.version == DEFERRED_TREE_JOURNAL_VERSION {
        Ok(pending)
    } else {
        let mut message: String = "unsupported deferred TREE alignment version ".to_owned();
        message.append(text::decimal(pending.version as u64).as_str());
        Err(RepositoryError::Serialization(message))
    }
}

/// Whether a surviving marker has to be recovered from: a sandbox never
/// recovers, and the marker must still be there once the lock is held.
pub fn needs_recovery(is_sandbox: bool, seen_before_lock: bool, seen_under_lock: bool) -> (answer:
    bool)
    ensures
        answer == (!is_sandbox && seen_before_lock && seen_under_lock),
{
    !is_sandbox && seen_before_lock && seen_under_lock
}

/// A step of a switch.
#[derive(Clone, Copy, Debug, PartialEq, Eq, Structural)]
pub enum AlignStep {
    /// Write the marker that names both views.
    WriteMarker,
    /// Align the tree within the open transaction.
    AlignTree,
    /// Point at the view to reach: the target of a switch, or the source that
    /// a recovery goes back to.
    WritePointer,
    /// Commit the transaction.
    Commit,
    /// Point at the source again.
    RestorePointer,
    /// Remove the marker.
    ClearMarker,
}

/// How far a switch or its recovery has come: the step to take next, or how it
/// ended.
#[derive(Clone, Copy, Debug, PartialEq, Eq, Structural)]
pub enum AlignState {
    /// Take this step.
    Step(AlignStep),
    /// Clear the marker, and fail with the first error whatever comes of it.
    Abandon,
    /// The tree and the pointer have moved.
    Aligned,
    /// Fail with the first error.
    Failed,
}

/// Where a step of a switch leads.
pub open spec fn after_step(state: AlignState, ok: bool) -> AlignState {
    match state {
        AlignState::Step(step) => match step {
            AlignStep::WriteMarker => if ok {
                AlignState::Step(AlignStep::AlignTree)
            } else {
                AlignState::Failed
            },
            AlignStep::AlignTree => if ok {
                AlignState::Step(AlignStep::WritePointer)
            } else {
                AlignState::Abandon
            },
            AlignStep::WritePointer => if ok {
                AlignState::Step(AlignStep::Commit)
            } else {
                AlignState::Abandon
            },
            AlignStep::Commit => if ok {
                AlignState::Step(AlignStep::ClearMarker)
            } else {
                AlignState::Step(AlignStep::RestorePointer)
            },
            AlignStep::RestorePointer => if ok {
                AlignState::Abandon
            } else {
                AlignState::Failed
            },
            AlignStep::ClearMarker => if ok {
                AlignState::Aligned
            } else {
                AlignState::Failed
            },
        },
        AlignState::Abandon => AlignState::Failed,
        AlignState::Aligned => AlignState::Aligned,
        AlignState::Failed => AlignState::Failed,
    }
}

/// Where a switch starts.
pub fn align_deferred_tree_and_publish_view() -> (state: AlignState)
    ensures
        state == AlignState::Step(AlignStep::WriteMarker),
{
    AlignState::Step(AlignStep::WriteMarker)
}

/// Where a step of a switch leads, given whether it succeeded.
pub fn next_alignment(state: AlignState, ok: bool) -> (next: AlignState)
    ensures
        next == after_step(state, ok),
{
    match state {
        AlignState::Step(step) => match step {
            AlignStep::WriteMarker => if ok {
                AlignState::Step(AlignStep::AlignTree)
            } else {
                AlignState::Failed
            },
            AlignStep::AlignTree => if ok {
                AlignState::Step(AlignStep::WritePointer)
            } else {
                AlignState::Abandon
            },
            AlignStep::WritePointer => if ok {
                AlignState::Step(AlignStep::Commit)
            } else {
                AlignState::Abandon
            },
            AlignStep::Commit => if ok {
                AlignState::Step(AlignStep::ClearMarker)
            } else {
                AlignState::Step(AlignStep::RestorePointer)
            },
            AlignStep::RestorePointer => if ok {
                AlignState::Abandon
            } else {
                AlignState::Failed
            },
            AlignStep::ClearMarker => if ok {
                AlignState::Aligned
            } else {
                AlignState::Failed
            },
        },
        AlignState::Abandon => AlignState::Failed,
        AlignState::Aligned => AlignState::Aligned,
        AlignState::Failed => AlignState::Failed,
    }
}

/// Where a step of a recovery leads: on any failure the marker stays for the
/// next attempt.
pub open spec fn after_recovery_step(state: AlignState, ok: bool) -> AlignState {
    match state {
        AlignState::Step(step) => if !ok {
            AlignState::Failed
        } else {
            match step {
                AlignStep::AlignTree => AlignState::Step(AlignStep::WritePointer),
                AlignStep::WritePointer => AlignState::Step(AlignStep::Commit),
                AlignStep::Commit => AlignState::Step(AlignStep::ClearMarker),
                AlignStep::ClearMarker => AlignState::Aligned,
                _ => AlignState::Failed,
            }
        },
        AlignState::Abandon => AlignState::Failed,
        AlignState::Aligned => AlignState::Aligned,
        AlignState::Failed => AlignState::Failed,
    }
}

/// Where a step of a recovery leads, given whether it succeeded.
pub fn next_recovery(state: AlignState, ok: bool) -> (next: AlignState)
    ensures
        next == after_recovery_step(state, ok),
{
    match state {
        AlignState::Step(step) => if !ok {
            AlignState::Failed
        } else {
            match step {
                AlignStep::AlignTree => AlignState::Step(AlignStep::WritePointer),
                AlignStep::WritePointer => AlignState::Step(AlignStep::Commit),
                AlignStep::Commit => AlignState::Step(AlignStep::ClearMarker),
                AlignStep::ClearMarker => AlignState::Aligned,
                _ => AlignState::Failed,
            }
        },
        AlignState::Abandon => AlignState::Failed,
        AlignState::Aligned => AlignState::Aligned,
        AlignState::Failed => AlignState::Failed,
    }
}

impl Repository {
    /// Where a recovery starts: with the tree of the marker's source view,
    /// under what that view shows.
    pub fn recover_pending_deferred_tree_alignment(&self, pending: &PendingTreeAlignment) -> (started:
        Result<(AlignState, &Visibility), RepositoryError>)
        ensures
            match self.view_at(pending.source_view@) {
                None => started matches Err(RepositoryError::ViewNotFound { name }) && name@
                    == pending.source_view@,
                Some(i) => match self.views@[i].visibility {
                    Err(cause) => started matches Err(RepositoryError::Database(message))
                        && message@ == cause@,
                    Ok(visibility) => started matches Ok((state, shown)) && state
                        == AlignState::Step(AlignStep::AlignTree) && *shown == visibility,
                },
            },
    {
        match self.find_view(pending.source_view.as_str()) {
            None => Err(RepositoryError::ViewNotFound { name: pending.source_view.clone() }),
            Some(i) => match &self.views[i].visibility {
                Err(cause) => Err(RepositoryError::Database(cause.clone())),
                Ok(visibility) => Ok((AlignState::Step(AlignStep::AlignTree), visibility)),
            },
        }
    }
}

/// What outlives a process that dies during a switch: whether the marker is
/// there, and whether the pointer and the tree are those of the target rather
/// than of the source.
pub ghost struct Remains {
    pub marker: bool,
    pub pointer_moved: bool,
    pub tree_moved: bool,
}

/// Whether taking a step can turn what remains from `a` into `b`. `target` is
/// whether the pointer and the tree go to the target of the switch. A pointer
/// or a commit that fails stays as it was; a marker whose removal fails may be
/// gone or not, and so may a pointer that fails to be restored.
pub open spec fn can_become(a: Remains, state: AlignState, ok: bool, target: bool, b: Remains) -> bool {
    match state {
        AlignState::Step(AlignStep::WriteMarker) => if ok {
            b == (Remains { marker: true, ..a })
        } else {
            b == a || b == (Remains { marker: true, ..a })
        },
        AlignState::Step(AlignStep::AlignTree) => b == a,
        AlignState::Step(AlignStep::WritePointer) => if ok {
            b == (Remains { pointer_moved: target, ..a })
        } else {
            b == a
        },
        AlignState::Step(AlignStep::Commit) => if ok {
            b == (Remains { tree_moved: target, ..a })
        } else {
            b == a
        },
        AlignState::Step(AlignStep::RestorePointer) => if ok {
            b == (Remains { pointer_moved: false, ..a })
        } else {
            b == a || b == (Remains { pointer_moved: false, ..a })
        },
        AlignState::Step(AlignStep::ClearMarker) | AlignState::Abandon => if ok {
            b == (Remains { marker: false, ..a })
        } else {
            b == a || b == (Remains { marker: false, ..a })
        },
        AlignState::Aligned | AlignState::Failed => b == a,
    }
}

/// What remains at each point of a switch.
pub open spec fn switching(state: AlignState, r: Remains) -> bool {
    match state {
        AlignState::Step(AlignStep::WriteMarker) => !r.marker && !r.pointer_moved && !r.tree_moved,
        AlignState::Step(AlignStep::AlignTree) => r.marker && !r.pointer_moved && !r.tree_moved,
        AlignState::Step(AlignStep::WritePointer) => r.marker && !r.pointer_moved && !r.tree_moved,
        AlignState::Step(AlignStep::Commit) => r.marker && r.pointer_moved && !r.tree_moved,
        AlignState::Step(AlignStep::RestorePointer) => r.marker && r.pointer_moved && !r.tree_moved,
        AlignState::Step(AlignStep::ClearMarker) => r.marker && r.pointer_moved && r.tree_moved,
        AlignState::Abandon => r.marker && !r.pointer_moved && !r.tree_moved,
        AlignState::Aligned => !r.marker && r.pointer_moved && r.tree_moved,
        AlignState::Failed => !r.marker ==> r.pointer_moved == r.tree_moved,
    }
}

/// Wherever a switch is interrupted, the marker is there or the pointer and the
/// tree agree; a switch that reports success has moved both and left no marker.
pub proof fn marker_guards_every_interruption(
    state: AlignState,
    r: Remains,
    ok: bool,
    after: Remains,
)
    requires
        switching(state, r),
        can_become(r, state, ok, true, after),
    ensures
        switching(after_step(state, ok), after),
        !r.marker ==> r.pointer_moved == r.tree_moved,
        !after.marker ==> after.pointer_moved == after.tree_moved,
{
}

/// How many steps a switch has left at most.
pub open spec fn steps_left(state: AlignState) -> nat {
    match state {
        AlignState::Step(AlignStep::WriteMarker) => 6,
        AlignState::Step(AlignStep::AlignTree) => 5,
        AlignState::Step(AlignStep::WritePointer) => 4,
        AlignState::Step(AlignStep::Commit) => 3,
        AlignState::Step(AlignStep::RestorePointer) => 2,
        AlignState::Step(AlignStep::ClearMarker) => 1,
        AlignState::Abandon => 1,
        AlignState::Aligned => 0,
        AlignState::Failed => 0,
    }
}

/// Every switch and every recovery ends.
pub proof fn alignment_ends(state: AlignState, ok: bool)
    requires
        state is Step || state is Abandon,
    ensures
        steps_left(after_step(state, ok)) < steps_left(state),
        steps_left(after_recovery_step(state, ok)) < steps_left(state),
{
}

/// What remains at each point of a recovery.
pub open spec fn recovering(state: AlignState, r: Remains) -> bool {
    match state {
        AlignState::Step(AlignStep::AlignTree) => r.marker,
        AlignState::Step(AlignStep::WritePointer) => r.marker,
        AlignState::Step(AlignStep::Commit) => r.marker && !r.pointer_moved,
        AlignState::Step(AlignStep::ClearMarker) => r.marker && !r.pointer_moved && !r.tree_moved,
        AlignState::Aligned => !r.marker && !r.pointer_moved && !r.tree_moved,
        AlignState::Failed => r.marker || (!r.pointer_moved && !r.tree_moved),
        _ => false,
    }
}

/// Whatever a switch left behind with its marker, a recovery that reports
/// success has gone back to the source, and one that fails leaves the marker
/// or has gone back all the same.
pub proof fn recovery_goes_back(state: AlignState, r: Remains, ok: bool, after: Remains)
    requires
        recovering(state, r),
        can_become(r, state, ok, false, after),
    ensures
        recovering(after_recovery_step(state, ok), after),
{
}

} // verus!
