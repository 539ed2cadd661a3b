//! Durable planning state for selective repair.

use crate::bytes::same_bytes;
use crate::collections;
use crate::error;
use crate::error::RepositoryError;
use crate::text;
use crate::types::ContentHash;
use vstd::prelude::*;

verus! {

/// Current on-disk selective-repair plan format.
pub const SELECTIVE_REPAIR_PLAN_VERSION: u32 = 1;

/// Progress through the crash-recoverable selective-repair workflow.
#[derive(Clone, Copy, Debug, PartialEq, Eq, Structural)]
pub enum SelectiveRepairPhase {
    Planned,
    Evaluated,
    BuildingReplacements,
    ReadyToPublish,
    ViewPublished,
    Completed,
    Aborted,
}

/// A change and its stable position in a view.
#[derive(Clone, Copy, Debug, PartialEq, Eq, Structural)]
pub struct OrderedChange {
    pub change: ContentHash,
    pub order: u64,
}

/// A later change that structurally depends on changes being replaced.
#[derive(Debug)]
pub struct StructuralBlocker {
    pub change: ContentHash,
    /// Changes in the repair closure referenced by this blocker.
    pub references: Vec<ContentHash>,
}

/// Counterfactual evidence refining the conservative candidate closure.
#[derive(Debug)]
pub struct SelectiveRepairEvaluation {
    /// Candidates whose contribution disappears or fails when the target is absent.
    pub confirmed_blockers: Vec<ContentHash>,
    /// Candidates that still contribute with the target absent.
    pub context_only: Vec<ContentHash>,
    /// First affected path proving that a context-only candidate survives.
    pub surviving_paths: Vec<(ContentHash, String)>,
}

/// The replacement generated for one original change.
#[derive(Debug)]
pub struct Replacement {
    pub original: ContentHash,
    pub replacement: ContentHash,
    /// Signed executable patch relink carrying position aliases and removals.
    pub patch_relink: Option<ContentHash>,
    /// Signed provenance relink objects connecting original evidence to this replacement.
    pub provenance_relinks: Vec<ContentHash>,
}

/// Wall-clock timestamps are strings so that the durable format does not
/// discard the caller's precision or offset.
#[derive(Debug)]
pub struct SelectiveRepairTimestamps {
    pub created_at: String,
    pub updated_at: String,
    pub completed_at: Option<String>,
}

/// Versioned, durable description of a selective repair. It only records and
/// validates a plan; it never changes repository graph state.
#[derive(Debug)]
pub struct SelectiveRepairPlan {
    pub version: u32,
    pub plan_id: String,
    pub generation: u64,
    pub phase: SelectiveRepairPhase,
    pub view: String,
    pub original_state: ContentHash,
    pub original_order: Vec<OrderedChange>,
    pub target: ContentHash,
    pub blockers: Vec<StructuralBlocker>,
    pub commuting: Vec<ContentHash>,
    /// Replacement records by original change.
    pub replacements: Vec<(ContentHash, Replacement)>,
    pub replacement_order: Vec<OrderedChange>,
    /// Exact provenance objects discovered for each original repair-closure
    /// change. An empty list means that the lookup found none.
    pub original_provenance: Vec<(ContentHash, Vec<ContentHash>)>,
    pub evaluation: Option<SelectiveRepairEvaluation>,
    pub timestamps: SelectiveRepairTimestamps,
}

/// What is wrong with a plan.
#[derive(Clone, Copy, Debug, PartialEq, Eq, Structural)]
pub enum PlanDefect {
    UnsupportedVersion,
    BlankIdentity,
    BlankTimestamps,
    OriginalOrder,
    TargetNotOnce,
    RepeatedBlocker,
    BlockerWithoutReference,
    CommutingOverlap,
    UnaccountedLaterChange,
    ReferenceOutsideClosure,
    ReplacementKeys,
    ReplacementOrder,
    ReplacementsNotOrdered,
    EvaluationPartition,
    SurvivingPathOwner,
    EvaluationMissing,
    ProvenanceInventory,
    RelinksMissing,
    ReplacementsMissing,
}

impl PlanDefect {
    /// What the defect says.
    pub open spec fn text(self) -> Seq<char> {
        match self {
            PlanDefect::UnsupportedVersion => "unsupported version"@,
            PlanDefect::BlankIdentity => "plan_id and view must be nonempty"@,
            PlanDefect::BlankTimestamps => "created_at and updated_at must be nonempty"@,
            PlanDefect::OriginalOrder =>
                "original_order must have monotonic unique order and unique changes"@,
            PlanDefect::TargetNotOnce => "target must occur exactly once in original_order"@,
            PlanDefect::RepeatedBlocker => "blocker changes must be unique"@,
            PlanDefect::BlockerWithoutReference =>
                "every blocker must have at least one reference"@,
            PlanDefect::CommutingOverlap =>
                "blockers and commuting changes must be unique and disjoint"@,
            PlanDefect::UnaccountedLaterChange =>
                "blockers and commuting changes must account for every later change"@,
            PlanDefect::ReferenceOutsideClosure =>
                "blocker references must remain within the repair closure"@,
            PlanDefect::ReplacementKeys =>
                "replacement keys must identify originals in the repair closure"@,
            PlanDefect::ReplacementOrder =>
                "replacement_order must have monotonic unique order and unique changes"@,
            PlanDefect::ReplacementsNotOrdered =>
                "replacement_order must contain every replacement exactly once"@,
            PlanDefect::EvaluationPartition =>
                "evaluation must partition every candidate blocker"@,
            PlanDefect::SurvivingPathOwner =>
                "surviving path evidence must belong to context-only candidates"@,
            PlanDefect::EvaluationMissing => "evaluated plans require evaluation evidence"@,
            PlanDefect::ProvenanceInventory =>
                "original_provenance must inventory every repair-closure change"@,
            PlanDefect::RelinksMissing =>
                "ready and published replacements require provenance relinks"@,
            PlanDefect::ReplacementsMissing =>
                "ready and published plans require all replacements"@,
        }
    }

    /// What the defect says.
    pub fn message(self) -> (message: &'static str)
        ensures
            message@ == self.text(),
    {
        match self {
            PlanDefect::UnsupportedVersion => "unsupported version",
            PlanDefect::BlankIdentity => "plan_id and view must be nonempty",
            PlanDefect::BlankTimestamps => "created_at and updated_at must be nonempty",
            PlanDefect::OriginalOrder =>
                "original_order must have monotonic unique order and unique changes",
            PlanDefect::TargetNotOnce => "target must occur exactly once in original_order",
            PlanDefect::RepeatedBlocker => "blocker changes must be unique",
            PlanDefect::BlockerWithoutReference => "every blocker must have at least one reference",
            PlanDefect::CommutingOverlap =>
                "blockers and commuting changes must be unique and disjoint",
            PlanDefect::UnaccountedLaterChange =>
                "blockers and commuting changes must account for every later change",
            PlanDefect::ReferenceOutsideClosure =>
                "blocker references must remain within the repair closure",
            PlanDefect::ReplacementKeys =>
                "replacement keys must identify originals in the repair closure",
            PlanDefect::ReplacementOrder =>
                "replacement_order must have monotonic unique order and unique changes",
            PlanDefect::ReplacementsNotOrdered =>
                "replacement_order must contain every replacement exactly once",
            PlanDefect::EvaluationPartition => "evaluation must partition every candidate blocker",
            PlanDefect::SurvivingPathOwner =>
                "surviving path evidence must belong to context-only candidates",
            PlanDefect::EvaluationMissing => "evaluated plans require evaluation evidence",
            PlanDefect::ProvenanceInventory =>
                "original_provenance must inventory every repair-closure change",
            PlanDefect::RelinksMissing =>
                "ready and published replacements require provenance relinks",
            PlanDefect::ReplacementsMissing => "ready and published plans require all replacements",
        }
    }
}

/// The changes of an order.
pub open spec fn ordered_changes(entries: Seq<OrderedChange>) -> Seq<ContentHash> {
    entries.map_values(|e: OrderedChange| e.change)
}

/// Strictly increasing positions and no change twice.
pub open spec fn well_ordered(entries: Seq<OrderedChange>) -> bool {
    &&& forall|i: int, j: int|
        0 <= i < j < entries.len() ==> (#[trigger] entries[i]).order < (#[trigger] entries[j]).order
    &&& ordered_changes(entries).no_duplicates()
}

/// Checks an order and returns its changes.
pub fn validate_order(entries: &Vec<OrderedChange>) -> (checked: Option<Vec<ContentHash>>)
    ensures
        checked is Some == well_ordered(entries@),
        checked matches Some(changes) ==> changes@ == ordered_changes(entries@),
{
    let ghost all = ordered_changes(entries@);
    let mut changes: Vec<ContentHash> = Vec::new();
    let mut i: usize = 0;
    while i < entries.len()
        invariant
            i <= entries.len(),
            all == ordered_changes(entries@),
            changes@ == all.take(i as int),
            changes@.no_duplicates(),
            forall|a: int, b: int|
                0 <= a < b < i ==> (#[trigger] entries@[a]).order < (#[trigger] entries@[b]).order,
        decreases entries.len() - i,
    {
        let entry: OrderedChange = entries[i];
        assert(all[i as int] == entry.change);
        if i > 0 && entry.order <= entries[i - 1].order {
            assert(!well_ordered(entries@));
            return None;
        }
        if collections::contains(&changes, entry.change) {
            let ghost at = changes@.index_of(entry.change);
            assert(changes@[at] == entry.change);
            assert(all[at] == all[i as int]);
            assert(!well_ordered(entries@));
            return None;
        }
        changes.push(entry.change);
        assert(all.take(i + 1) =~= all.take(i as int).push(entry.change));
        i = i + 1;
    }
    assert(all.take(i as int) =~= all);
    Some(changes)
}

impl SelectiveRepairPlan {
    /// The blocking changes.
    pub open spec fn blocker_changes(self) -> Seq<ContentHash> {
        self.blockers@.map_values(|b: StructuralBlocker| b.change)
    }

    /// The changes after the target.
    pub open spec fn later_changes(self) -> Set<ContentHash> {
        Set::new(
            |change: ContentHash|
                exists|i: int, t: int|
                    0 <= i < self.original_order@.len() && 0 <= t < self.original_order@.len()
                        && #[trigger] self.original_order@[t].change == self.target
                        && #[trigger] self.original_order@[i].change == change
                        && self.original_order@[i].order > self.original_order@[t].order,
        )
    }

    /// The target and its blockers: every change that needs a replacement.
    pub open spec fn closure(self) -> Set<ContentHash> {
        self.blocker_changes().to_set().insert(self.target)
    }

    /// The originals that have a replacement record.
    pub open spec fn replaced(self) -> Seq<ContentHash> {
        self.replacements@.map_values(|e: (ContentHash, Replacement)| e.0)
    }

    /// The replacing changes.
    pub open spec fn replacing(self) -> Seq<ContentHash> {
        self.replacements@.map_values(|e: (ContentHash, Replacement)| e.1.replacement)
    }

    /// The changes whose provenance was looked up.
    pub open spec fn inventoried(self) -> Seq<ContentHash> {
        self.original_provenance@.map_values(|e: (ContentHash, Vec<ContentHash>)| e.0)
    }

    /// Whether the plan's replacements are to be published or already are.
    pub open spec fn is_publishable(self) -> bool {
        self.phase == SelectiveRepairPhase::ReadyToPublish || self.phase
            == SelectiveRepairPhase::ViewPublished || self.phase == SelectiveRepairPhase::Completed
    }

    /// Whether provenance was found for a change.
    pub open spec fn has_provenance(self, change: ContentHash) -> bool {
        let at = self.inventoried().index_of_first(change);
        at is Some && self.original_provenance@[at->0].1@.len() > 0
    }

    /// Whether a replacement lacks a relink that publishing needs.
    pub open spec fn lacks_relinks(self, replacement: Replacement) -> bool {
        replacement.patch_relink is None || (self.has_provenance(replacement.original)
            && replacement.provenance_relinks@.len() == 0)
    }

    /// What is wrong with the plan's evaluation.
    pub open spec fn evaluation_defect(self) -> Option<PlanDefect> {
        match self.evaluation {
            None => None,
            Some(evaluation) => {
                let confirmed = evaluation.confirmed_blockers@.to_set();
                let context = evaluation.context_only@.to_set();
                if !confirmed.disjoint(context) || confirmed.union(context) != self.closure().remove(
                    self.target,
                ) {
                    Some(PlanDefect::EvaluationPartition)
                } else if exists|i: int|
                    0 <= i < evaluation.surviving_paths@.len() && !context.contains(
                        #[trigger] evaluation.surviving_paths@[i].0,
                    ) {
                    Some(PlanDefect::SurvivingPathOwner)
                } else {
                    None
                }
            },
        }
    }

    /// The first thing that is wrong with the plan.
    pub open spec fn defect(self) -> Option<PlanDefect> {
        let blockers = self.blocker_changes();
        let later = self.later_changes();
        let closure = self.closure();
        if self.version != SELECTIVE_REPAIR_PLAN_VERSION {
            Some(PlanDefect::UnsupportedVersion)
        } else if text::blank(self.plan_id@) || text::blank(self.view@) {
            Some(PlanDefect::BlankIdentity)
        } else if text::blank(self.timestamps.created_at@) || text::blank(
            self.timestamps.updated_at@,
        ) {
            Some(PlanDefect::BlankTimestamps)
        } else if !well_ordered(self.original_order@) {
            Some(PlanDefect::OriginalOrder)
        } else if !ordered_changes(self.original_order@).contains(self.target) {
            Some(PlanDefect::TargetNotOnce)
        } else if !blockers.no_duplicates() {
            Some(PlanDefect::RepeatedBlocker)
        } else if exists|i: int|
            0 <= i < self.blockers@.len() && (#[trigger] self.blockers@[i]).references@.len() == 0 {
            Some(PlanDefect::BlockerWithoutReference)
        } else if !self.commuting@.no_duplicates() || !blockers.to_set().disjoint(
            self.commuting@.to_set(),
        ) {
            Some(PlanDefect::CommutingOverlap)
        } else if blockers.to_set().union(self.commuting@.to_set()) != later {
            Some(PlanDefect::UnaccountedLaterChange)
        } else if exists|i: int|
            0 <= i < self.blockers@.len()
                && !(#[trigger] self.blockers@[i]).references@.to_set().subset_of(closure) {
            Some(PlanDefect::ReferenceOutsideClosure)
        } else if !self.replaced().to_set().subset_of(closure) || exists|i: int|
            0 <= i < self.replacements@.len() && (#[trigger] self.replacements@[i]).0
                != self.replacements@[i].1.original {
            Some(PlanDefect::ReplacementKeys)
        } else if !well_ordered(self.replacement_order@) {
            Some(PlanDefect::ReplacementOrder)
        } else if !self.replacing().no_duplicates() || ordered_changes(
            self.replacement_order@,
        ).to_set() != self.replacing().to_set() {
            Some(PlanDefect::ReplacementsNotOrdered)
        } else if self.evaluation_defect() is Some {
            self.evaluation_defect()
        } else if self.phase == SelectiveRepairPhase::Evaluated && self.evaluation is None {
            Some(PlanDefect::EvaluationMissing)
        } else if self.inventoried().to_set() != closure {
            Some(PlanDefect::ProvenanceInventory)
        } else if self.is_publishable() && exists|i: int|
            0 <= i < self.replacements@.len() && self.lacks_relinks(
                (#[trigger] self.replacements@[i]).1,
            ) {
            Some(PlanDefect::RelinksMissing)
        } else if self.is_publishable() && self.replaced().to_set() != closure {
            Some(PlanDefect::ReplacementsMissing)
        } else {
            None
        }
    }

    /// The message with which a defective plan is refused.
    pub open spec fn refusal(defect: PlanDefect) -> Seq<char> {
        "invalid selective repair plan: "@ + defect.text()
    }

    fn list_blockers(&self) -> (changes: Vec<ContentHash>)
        ensures
            changes@ == self.blocker_changes(),
    {
        let ghost all = self.blocker_changes();
        let mut changes: Vec<ContentHash> = Vec::new();
        let mut i: usize = 0;
        while i < self.blockers.len()
            invariant
                i <= self.blockers.len(),
                all == self.blocker_changes(),
                changes@ == all.take(i as int),
            decreases self.blockers.len() - i,
        {
            changes.push(self.blockers[i].change);
            assert(all.take(i + 1) =~= all.take(i as int).push(self.blockers@[i as int].change));
            i = i + 1;
        }
        assert(all.take(i as int) =~= all);
        changes
    }

    fn find_target(&self) -> (found: Option<u64>)
        requires
            well_ordered(self.original_order@),
        ensures
            found is Some == ordered_changes(self.original_order@).contains(self.target),
            found matches Some(order) ==> exists|t: int|
                0 <= t < self.original_order@.len() && (#[trigger] self.original_order@[t]).change
                    == self.target && self.original_order@[t].order == order,
    {
        let ghost all = ordered_changes(self.original_order@);
        let mut i: usize = 0;
        while i < self.original_order.len()
            invariant
                i <= self.original_order.len(),
                all == ordered_changes(self.original_order@),
                forall|j: int| 0 <= j < i ==> #[trigger] all[j] != self.target,
            decreases self.original_order.len() - i,
        {
            assert(all[i as int] == self.original_order@[i as int].change);
            if self.original_order[i].change == self.target {
                assert(all.contains(self.target));
                return Some(self.original_order[i].order);
            }
            i = i + 1;
        }
        None
    }

    fn list_later(&self, target_order: u64) -> (changes: Vec<ContentHash>)
        requires
            well_ordered(self.original_order@),
            exists|t: int|
                0 <= t < self.original_order@.len() && (#[trigger] self.original_order@[t]).change
                    == self.target && self.original_order@[t].order == target_order,
        ensures
            changes@.to_set() == self.later_changes(),
    {
        let ghost t = choose|t: int|
            0 <= t < self.original_order@.len() && (#[trigger] self.original_order@[t]).change
                == self.target && self.original_order@[t].order == target_order;
        let mut changes: Vec<ContentHash> = Vec::new();
        let mut i: usize = 0;
        while i < self.original_order.len()
            invariant
                i <= self.original_order.len(),
                forall|c: ContentHash| #[trigger]
                    changes@.contains(c) <==> exists|j: int|
                        0 <= j < i && (#[trigger] self.original_order@[j]).change == c
                            && self.original_order@[j].order > target_order,
            decreases self.original_order.len() - i,
        {
            let ghost before = changes@;
            if self.original_order[i].order > target_order {
                changes.push(self.original_order[i].change);
            }
            proof {
                let entry = self.original_order@[i as int];
                assert forall|c: ContentHash| #[trigger]
                    changes@.contains(c) <==> exists|j: int|
                        0 <= j < i + 1 && (#[trigger] self.original_order@[j]).change == c
                            && self.original_order@[j].order > target_order by {
                    if before.contains(c) {
                        let j = choose|j: int|
                            0 <= j < i && (#[trigger] self.original_order@[j]).change == c
                                && self.original_order@[j].order > target_order;
                        let at = before.index_of(c);
                        assert(changes@[at] == c);
                    }
                    if changes@.contains(c) && !before.contains(c) {
                        let at = changes@.index_of(c);
                        assert(at == before.len());
                        assert(entry.change == c);
                    }
                    if entry.change == c && entry.order > target_order {
                        assert(changes@[before.len() as int] == c);
                    }
                    if exists|j: int|
                        0 <= j < i + 1 && (#[trigger] self.original_order@[j]).change == c
                            && self.original_order@[j].order > target_order {
                        let j = choose|j: int|
                            0 <= j < i + 1 && (#[trigger] self.original_order@[j]).change == c
                                && self.original_order@[j].order > target_order;
                        if j < i {
                            assert(before.contains(c));
                        }
                    }
                }
            }
            i = i + 1;
        }
        proof {
            let all = ordered_changes(self.original_order@);
            assert forall|c: ContentHash| changes@.to_set().contains(c)
                == self.later_changes().contains(c) by {
                if self.later_changes().contains(c) {
                    let (j, u) = choose|j: int, u: int|
                        0 <= j < self.original_order@.len() && 0 <= u < self.original_order@.len()
                            && #[trigger] self.original_order@[u].change == self.target
                            && #[trigger] self.original_order@[j].change == c
                            && self.original_order@[j].order > self.original_order@[u].order;
                    assert(all[u] == all[t]);
                    assert(u == t);
                    assert(changes@.contains(c));
                }
                if changes@.contains(c) {
                    let j = choose|j: int|
                        0 <= j < i && (#[trigger] self.original_order@[j]).change == c
                            && self.original_order@[j].order > target_order;
                    assert(self.original_order@[t].change == self.target);
                    assert(self.original_order@[j].change == c);
                }
            }
            assert(changes@.to_set() =~= self.later_changes());
        }
        changes
    }
}

/// The keys of a list of pairs.
fn list_keys<V>(pairs: &Vec<(ContentHash, V)>) -> (keys: Vec<ContentHash>)
    ensures
        keys@ == pairs@.map_values(|e: (ContentHash, V)| e.0),
{
    let ghost all = pairs@.map_values(|e: (ContentHash, V)| e.0);
    let mut keys: Vec<ContentHash> = Vec::new();
    let mut i: usize = 0;
    while i < pairs.len()
        invariant
            i <= pairs.len(),
            all == pairs@.map_values(|e: (ContentHash, V)| e.0),
            keys@ == all.take(i as int),
        decreases pairs.len() - i,
    {
        keys.push(pairs[i].0);
        assert(all.take(i + 1) =~= all.take(i as int).push(pairs@[i as int].0));
        i = i + 1;
    }
    assert(all.take(i as int) =~= all);
    keys
}

impl SelectiveRepairPlan {
    fn list_replacing(&self) -> (changes: Vec<ContentHash>)
        ensures
            changes@ == self.replacing(),
    {
        let ghost all = self.replacing();
        let mut changes: Vec<ContentHash> = Vec::new();
        let mut i: usize = 0;
        while i < self.replacements.len()
            invariant
                i <= self.replacements.len(),
                all == self.replacing(),
                changes@ == all.take(i as int),
            decreases self.replacements.len() - i,
        {
            changes.push(self.replacements[i].1.replacement);
            assert(all.take(i + 1) =~= all.take(i as int).push(
                self.replacements@[i as int].1.replacement,
            ));
            i = i + 1;
        }
        assert(all.take(i as int) =~= all);
        changes
    }

    fn some_blocker_lacks_reference(&self) -> (found: bool)
        ensures
            found == exists|i: int|
                0 <= i < self.blockers@.len() && (#[trigger] self.blockers@[i]).references@.len()
                    == 0,
    {
        let mut i: usize = 0;
        while i < self.blockers.len()
            invariant
                i <= self.blockers.len(),
                forall|j: int|
                    0 <= j < i ==> (#[trigger] self.blockers@[j]).references@.len() != 0,
            decreases self.blockers.len() - i,
        {
            if self.blockers[i].references.len() == 0 {
                return true;
            }
            i = i + 1;
        }
        false
    }

    fn some_reference_leaves(&self, closure: &Vec<ContentHash>) -> (found: bool)
        ensures
            found == exists|i: int|
                0 <= i < self.blockers@.len()
                    && !(#[trigger] self.blockers@[i]).references@.to_set().subset_of(
                    closure@.to_set(),
                ),
    {
        let mut i: usize = 0;
        while i < self.blockers.len()
            invariant
                i <= self.blockers.len(),
                forall|j: int|
                    0 <= j < i ==> (#[trigger] self.blockers@[j]).references@.to_set().subset_of(
                        closure@.to_set(),
                    ),
            decreases self.blockers.len() - i,
        {
            if !collections::is_subset(&self.blockers[i].references, closure) {
                return true;
            }
            i = i + 1;
        }
        false
    }

    fn some_key_differs(&self) -> (found: bool)
        ensures
            found == exists|i: int|
                0 <= i < self.replacements@.len() && (#[trigger] self.replacements@[i]).0
                    != self.replacements@[i].1.original,
    {
        let mut i: usize = 0;
        while i < self.replacements.len()
            invariant
                i <= self.replacements.len(),
                forall|j: int|
                    0 <= j < i ==> (#[trigger] self.replacements@[j]).0
                        == self.replacements@[j].1.original,
            decreases self.replacements.len() - i,
        {
            if self.replacements[i].0 != self.replacements[i].1.original {
                return true;
            }
            i = i + 1;
        }
        false
    }

    fn find_provenance(&self, change: ContentHash) -> (found: bool)
        ensures
            found == self.has_provenance(change),
    {
        let ghost keys = self.inventoried();
        proof {
            keys.index_of_first_ensures(change);
        }
        let mut i: usize = 0;
        while i < self.original_provenance.len()
            invariant
                i <= self.original_provenance.len(),
                keys == self.inventoried(),
                forall|j: int| 0 <= j < i ==> keys[j] != change,
                match keys.index_of_first(change) {
                    Some(k) => 0 <= k < keys.len() && keys[k] == change && forall|j: int|
                        0 <= j < k ==> keys[j] != change,
                    None => forall|j: int| 0 <= j < keys.len() ==> keys[j] != change,
                },
            decreases self.original_provenance.len() - i,
        {
            assert(keys[i as int] == self.original_provenance@[i as int].0);
            if self.original_provenance[i].0 == change {
                return self.original_provenance[i].1.len() > 0;
            }
            i = i + 1;
        }
        false
    }

    fn some_relink_missing(&self) -> (found: bool)
        ensures
            found == exists|i: int|
                0 <= i < self.replacements@.len() && self.lacks_relinks(
                    (#[trigger] self.replacements@[i]).1,
                ),
    {
        let mut i: usize = 0;
        while i < self.replacements.len()
            invariant
                i <= self.replacements.len(),
                forall|j: int|
                    0 <= j < i ==> !self.lacks_relinks((#[trigger] self.replacements@[j]).1),
            decreases self.replacements.len() - i,
        {
            let replacement: &Replacement = &self.replacements[i].1;
            if replacement.patch_relink.is_none() || (self.find_provenance(replacement.original)
                && replacement.provenance_relinks.len() == 0) {
                return true;
            }
            i = i + 1;
        }
        false
    }

    fn find_evaluation_defect(&self, blockers: &Vec<ContentHash>) -> (found: Option<PlanDefect>)
        requires
            blockers@ == self.blocker_changes(),
        ensures
            found == self.evaluation_defect(),
    {
        let evaluation: &SelectiveRepairEvaluation = match &self.evaluation {
            None => {
                return None;
            },
            Some(evaluation) => evaluation,
        };
        let mut candidates: Vec<ContentHash> = Vec::new();
        let mut i: usize = 0;
        while i < blockers.len()
            invariant
                i <= blockers.len(),
                forall|c: ContentHash| #[trigger]
                    candidates@.contains(c) <==> c != self.target && blockers@.take(
                        i as int,
                    ).contains(c),
            decreases blockers.len() - i,
        {
            let ghost before = candidates@;
            let ghost head = blockers@.take(i as int);
            let ghost next = blockers@.take(i + 1);
            let blocker: ContentHash = blockers[i];
            if blocker != self.target {
                candidates.push(blocker);
            }
            proof {
                assert(next =~= head.push(blocker));
                head.lemma_push_to_set_commute(blocker);
                before.lemma_push_to_set_commute(blocker);
                assert forall|c: ContentHash| #[trigger]
                    candidates@.contains(c) <==> c != self.target && next.contains(c) by {
                    assert(next.to_set().contains(c) == (head.to_set().contains(c) || c
                        == blocker));
                    assert(before.push(blocker).to_set().contains(c) == (before.to_set().contains(c)
                        || c == blocker));
                    assert(before.contains(c) == before.to_set().contains(c));
                }
            }
            i = i + 1;
        }
        proof {
            assert(blockers@.take(i as int) =~= blockers@);
            assert(candidates@.to_set() =~= self.closure().remove(self.target));
        }
        let judged: Vec<ContentHash> = collections::joined(
            &evaluation.confirmed_blockers,
            &evaluation.context_only,
        );
        if !collections::is_disjoint(&evaluation.confirmed_blockers, &evaluation.context_only)
            || !collections::same_members(&judged, &candidates) {
            return Some(PlanDefect::EvaluationPartition);
        }
        let ghost context = evaluation.context_only@.to_set();
        let mut k: usize = 0;
        while k < evaluation.surviving_paths.len()
            invariant
                k <= evaluation.surviving_paths.len(),
                context == evaluation.context_only@.to_set(),
                self.evaluation == Some(*evaluation),
                evaluation.confirmed_blockers@.to_set().disjoint(context),
                evaluation.confirmed_blockers@.to_set().union(context) == self.closure().remove(
                    self.target,
                ),
                forall|j: int|
                    0 <= j < k ==> context.contains(#[trigger] evaluation.surviving_paths@[j].0),
            decreases evaluation.surviving_paths.len() - k,
        {
            if !collections::contains(&evaluation.context_only, evaluation.surviving_paths[k].0) {
                assert(!context.contains(evaluation.surviving_paths@[k as int].0));
                return Some(PlanDefect::SurvivingPathOwner);
            }
            k = k + 1;
        }
        None
    }

    /// The first thing that is wrong with the plan.
    pub fn find_defect(&self) -> (found: Option<PlanDefect>)
        ensures
            found == self.defect(),
    {
        if self.version != SELECTIVE_REPAIR_PLAN_VERSION {
            return Some(PlanDefect::UnsupportedVersion);
        }
        if text::is_blank(self.plan_id.as_str()) || text::is_blank(self.view.as_str()) {
            return Some(PlanDefect::BlankIdentity);
        }
        if text::is_blank(self.timestamps.created_at.as_str()) || text::is_blank(
            self.timestamps.updated_at.as_str(),
        ) {
            return Some(PlanDefect::BlankTimestamps);
        }
        if validate_order(&self.original_order).is_none() {
            return Some(PlanDefect::OriginalOrder);
        }
        let target_order: u64 = match self.find_target() {
            None => {
                return Some(PlanDefect::TargetNotOnce);
            },
            Some(order) => order,
        };
        let later: Vec<ContentHash> = self.list_later(target_order);
        let blockers: Vec<ContentHash> = self.list_blockers();
        if !collections::all_distinct(&blockers) {
            return Some(PlanDefect::RepeatedBlocker);
        }
        if self.some_blocker_lacks_reference() {
            return Some(PlanDefect::BlockerWithoutReference);
        }
        if !collections::all_distinct(&self.commuting) || !collections::is_disjoint(
            &blockers,
            &self.commuting,
        ) {
            return Some(PlanDefect::CommutingOverlap);
        }
        let accounted: Vec<ContentHash> = collections::joined(&blockers, &self.commuting);
        if !collections::same_members(&accounted, &later) {
            return Some(PlanDefect::UnaccountedLaterChange);
        }
        let mut target: Vec<ContentHash> = Vec::new();
        target.push(self.target);
        let closure: Vec<ContentHash> = collections::joined(&blockers, &target);
        proof {
            assert(target@ =~= seq![self.target]);
            assert(target@.to_set() =~= set![self.target]) by {
                assert(target@[0] == self.target);
            }
            assert(closure@.to_set() =~= self.closure());
        }
        if self.some_reference_leaves(&closure) {
            return Some(PlanDefect::ReferenceOutsideClosure);
        }
        let replaced: Vec<ContentHash> = list_keys(&self.replacements);
        if !collections::is_subset(&replaced, &closure) || self.some_key_differs() {
            return Some(PlanDefect::ReplacementKeys);
        }
        let order: Vec<ContentHash> = match validate_order(&self.replacement_order) {
            None => {
                return Some(PlanDefect::ReplacementOrder);
            },
            Some(order) => order,
        };
        let replacing: Vec<ContentHash> = self.list_replacing();
        if !collections::all_distinct(&replacing) || !collections::same_members(
            &order,
            &replacing,
        ) {
            return Some(PlanDefect::ReplacementsNotOrdered);
        }
        let defect: Option<PlanDefect> = self.find_evaluation_defect(&blockers);
        if defect.is_some() {
            return defect;
        }
        if self.phase == SelectiveRepairPhase::Evaluated && self.evaluation.is_none() {
            return Some(PlanDefect::EvaluationMissing);
        }
        let inventoried: Vec<ContentHash> = list_keys(&self.original_provenance);
        if !collections::same_members(&inventoried, &closure) {
            return Some(PlanDefect::ProvenanceInventory);
        }
        let publishable: bool = self.phase == SelectiveRepairPhase::ReadyToPublish || self.phase
            == SelectiveRepairPhase::ViewPublished || self.phase == SelectiveRepairPhase::Completed;
        if publishable && self.some_relink_missing() {
            return Some(PlanDefect::RelinksMissing);
        }
        if publishable && !collections::same_members(&replaced, &closure) {
            return Some(PlanDefect::ReplacementsMissing);
        }
        None
    }

    /// Validates the durable plan's internal consistency.
    pub fn validate(&self) -> (checked: Result<(), RepositoryError>)
        ensures
            match self.defect() {
                None => checked is Ok,
                Some(defect) => checked matches Err(error) && error.says(Self::refusal(defect)),
            },
    {
        match self.find_defect() {
            None => Ok(()),
            Some(defect) => {
                let mut message: String = "invalid selective repair plan: ".to_owned();
                message.append(defect.message());
                Err(error::invalid(message.as_str()))
            },
        }
    }
}

/// A file's content as two lookups of one path gave it: with the target
/// absent, and with the candidate absent as well. A lookup that failed gave
/// nothing at all.
#[derive(Debug)]
pub struct PathEvidence {
    pub path: String,
    pub with_candidate: Option<Option<Vec<u8>>>,
    pub without_candidate: Option<Option<Vec<u8>>>,
}

/// What a lookup found.
pub open spec fn lookup_model(content: Option<Option<Vec<u8>>>) -> Option<Option<Seq<u8>>> {
    match content {
        None => None,
        Some(None) => Some(None),
        Some(Some(bytes)) => Some(Some(bytes@)),
    }
}

/// Place of the path that proves a candidate's contribution, from the `i`-th
/// on: the first whose two lookups differ, with no failed lookup before it.
pub open spec fn survival_from(evidence: Seq<PathEvidence>, i: int) -> Option<int>
    decreases evidence.len() - i,
{
    if i < 0 || i >= evidence.len() {
        None
    } else {
        let with = lookup_model(evidence[i].with_candidate);
        let without = lookup_model(evidence[i].without_candidate);
        if with is None || without is None {
            None
        } else if with != without {
            Some(i)
        } else {
            survival_from(evidence, i + 1)
        }
    }
}

fn find_survival(evidence: &Vec<PathEvidence>) -> (found: Option<usize>)
    ensures
        match found {
            Some(i) => i < evidence@.len() && survival_from(evidence@, 0) == Some(i as int),
            None => survival_from(evidence@, 0) is None,
        },
{
    let mut i: usize = 0;
    while i < evidence.len()
        invariant
            i <= evidence.len(),
            survival_from(evidence@, 0) == survival_from(evidence@, i as int),
        decreases evidence.len() - i,
    {
        let same: bool = match (&evidence[i].with_candidate, &evidence[i].without_candidate) {
            (Some(Some(a)), Some(Some(b))) => same_bytes(a, b),
            (Some(None), Some(None)) => true,
            (Some(_), Some(_)) => false,
            _ => {
                return None;
            },
        };
        if !same {
            return Some(i);
        }
        i = i + 1;
    }
    None
}

/// The first `n` blockers that survive without the target, or do not.
pub open spec fn judged(
    blockers: Seq<ContentHash>,
    evidence: Seq<Vec<PathEvidence>>,
    n: int,
    survives: bool,
) -> Seq<ContentHash>
    decreases n,
{
    if n <= 0 {
        Seq::empty()
    } else {
        let rest = judged(blockers, evidence, n - 1, survives);
        if (survival_from(evidence[n - 1]@, 0) is Some) == survives {
            rest.push(blockers[n - 1])
        } else {
            rest
        }
    }
}

/// The first `n` blockers' surviving paths.
pub open spec fn proofs(
    blockers: Seq<ContentHash>,
    evidence: Seq<Vec<PathEvidence>>,
    n: int,
) -> Seq<(ContentHash, Seq<char>)>
    decreases n,
{
    if n <= 0 {
        Seq::empty()
    } else {
        let rest = proofs(blockers, evidence, n - 1);
        match survival_from(evidence[n - 1]@, 0) {
            Some(i) => rest.push((blockers[n - 1], evidence[n - 1]@[i].path@)),
            None => rest,
        }
    }
}

/// Whether `next` is `plan` evaluated on the evidence, and otherwise `plan`.
pub open spec fn is_evaluation_of(
    next: SelectiveRepairPlan,
    plan: SelectiveRepairPlan,
    evidence: Seq<Vec<PathEvidence>>,
    updated_at: Seq<char>,
) -> bool {
    &&& next.phase == SelectiveRepairPhase::Evaluated
    &&& next.generation == plan.generation + 1
    &&& next.timestamps.updated_at@ == updated_at
    &&& next.timestamps.created_at == plan.timestamps.created_at
    &&& next.timestamps.completed_at == plan.timestamps.completed_at
    &&& next.version == plan.version
    &&& next.plan_id == plan.plan_id
    &&& next.view == plan.view
    &&& next.original_state == plan.original_state
    &&& next.original_order == plan.original_order
    &&& next.target == plan.target
    &&& next.blockers == plan.blockers
    &&& next.commuting == plan.commuting
    &&& next.replacements == plan.replacements
    &&& next.replacement_order == plan.replacement_order
    &&& next.original_provenance == plan.original_provenance
    &&& next.evaluation matches Some(evaluation)
    &&& evaluation.confirmed_blockers@ == judged(
        plan.blocker_changes(),
        evidence,
        plan.blockers@.len() as int,
        false,
    )
    &&& evaluation.context_only@ == judged(
        plan.blocker_changes(),
        evidence,
        plan.blockers@.len() as int,
        true,
    )
    &&& evaluation.surviving_paths@.map_values(|e: (ContentHash, String)| (e.0, e.1@)) == proofs(
        plan.blocker_changes(),
        evidence,
        plan.blockers@.len() as int,
    )
}

proof fn judgement_partitions(
    blockers: Seq<ContentHash>,
    evidence: Seq<Vec<PathEvidence>>,
    n: int,
)
    requires
        0 <= n <= blockers.len(),
        blockers.no_duplicates(),
    ensures
        ({
            let dead = judged(blockers, evidence, n, false);
            let alive = judged(blockers, evidence, n, true);
            &&& dead.to_set().union(alive.to_set()) == blockers.take(n).to_set()
            &&& dead.to_set().disjoint(alive.to_set())
            &&& forall|i: int|
                0 <= i < proofs(blockers, evidence, n).len() ==> alive.contains(
                    #[trigger] proofs(blockers, evidence, n)[i].0,
                )
        }),
    decreases n,
{
    if n > 0 {
        let c = blockers[n - 1];
        judgement_partitions(blockers, evidence, n - 1);
        let dead0 = judged(blockers, evidence, n - 1, false);
        let alive0 = judged(blockers, evidence, n - 1, true);
        let dead = judged(blockers, evidence, n, false);
        let alive = judged(blockers, evidence, n, true);
        let head = blockers.take(n - 1);
        assert(blockers.take(n) =~= head.push(c));
        head.lemma_push_to_set_commute(c);
        dead0.lemma_push_to_set_commute(c);
        alive0.lemma_push_to_set_commute(c);
        assert(!head.to_set().contains(c)) by {
            if head.contains(c) {
                let at = head.index_of(c);
                assert(blockers[at] == c);
            }
        }
        assert(!dead0.to_set().contains(c) && !alive0.to_set().contains(c));
        assert(dead.to_set().union(alive.to_set()) =~= blockers.take(n).to_set());
        assert forall|i: int| 0 <= i < proofs(blockers, evidence, n).len() implies alive.contains(
            #[trigger] proofs(blockers, evidence, n)[i].0,
        ) by {
            let shown = proofs(blockers, evidence, n)[i].0;
            let before = proofs(blockers, evidence, n - 1);
            if i < before.len() {
                assert(before[i].0 == shown);
                assert(alive0.contains(shown));
                assert(alive.to_set().contains(shown));
            } else {
                assert(shown == c);
                assert(alive.to_set().contains(c));
            }
        }
    } else {
        assert(judged(blockers, evidence, n, false).to_set() =~= Set::empty());
        assert(judged(blockers, evidence, n, true).to_set() =~= Set::empty());
        assert(blockers.take(n).to_set() =~= Set::empty());
        assert(Set::<ContentHash>::empty().union(Set::empty()) =~= Set::empty());
    }
}

/// Evaluating a sound plan, at a time that is not blank, gives a sound plan:
/// the evidence partitions its candidates, whatever was observed.
pub proof fn evaluation_keeps_plans_sound(
    next: SelectiveRepairPlan,
    plan: SelectiveRepairPlan,
    evidence: Seq<Vec<PathEvidence>>,
    updated_at: Seq<char>,
)
    requires
        plan.defect() is None,
        is_evaluation_of(next, plan, evidence, updated_at),
    ensures
        next.defect() == if text::blank(updated_at) {
            Some(PlanDefect::BlankTimestamps)
        } else {
            None
        },
{
    let blockers = plan.blocker_changes();
    assert(next.blocker_changes() == blockers);
    assert(next.later_changes() == plan.later_changes());
    assert(next.closure() == plan.closure());
    judgement_partitions(blockers, evidence, blockers.len() as int);
    assert(blockers.take(blockers.len() as int) =~= blockers);
    let evaluation = next.evaluation->0;
    let pairs = evaluation.surviving_paths@.map_values(|e: (ContentHash, String)| (e.0, e.1@));
    assert forall|i: int| 0 <= i < evaluation.surviving_paths@.len() implies evaluation.context_only@.to_set().contains(
        #[trigger] evaluation.surviving_paths@[i].0,
    ) by {
        assert(pairs[i].0 == evaluation.surviving_paths@[i].0);
        assert(proofs(blockers, evidence, blockers.len() as int)[i].0 == pairs[i].0);
    }
    assert(!blockers.to_set().contains(plan.target)) by {
        if blockers.to_set().contains(plan.target) {
            assert(blockers.to_set().union(plan.commuting@.to_set()).contains(plan.target));
            assert(plan.later_changes().contains(plan.target));
            let order = plan.original_order@;
            let all = ordered_changes(order);
            let (i, t) = choose|i: int, t: int|
                0 <= i < order.len() && 0 <= t < order.len() && #[trigger] order[t].change
                    == plan.target && #[trigger] order[i].change == plan.target && order[i].order
                    > order[t].order;
            assert(all[i] == all[t]);
            assert(i == t);
        }
    }
    assert(plan.closure().remove(plan.target) =~= blockers.to_set());
    assert(next.evaluation_defect() is None);
}

/// The message of a plan that belongs to another view than the current one.
pub open spec fn switch_first(view: Seq<char>) -> Seq<char> {
    "switch to '"@ + view + "' before evaluating isolation"@
}

fn judge(plan: &SelectiveRepairPlan, evidence: &Vec<Vec<PathEvidence>>) -> (evaluation:
    SelectiveRepairEvaluation)
    requires
        evidence@.len() == plan.blockers@.len(),
    ensures
        ({
            let n = plan.blockers@.len() as int;
            let changes = plan.blocker_changes();
            &&& evaluation.confirmed_blockers@ == judged(changes, evidence@, n, false)
            &&& evaluation.context_only@ == judged(changes, evidence@, n, true)
            &&& evaluation.surviving_paths@.map_values(|e: (ContentHash, String)| (e.0, e.1@))
                == proofs(changes, evidence@, n)
        }),
{
    let ghost changes = plan.blocker_changes();
    let ghost model = |e: (ContentHash, String)| (e.0, e.1@);
    let mut confirmed: Vec<ContentHash> = Vec::new();
    let mut context: Vec<ContentHash> = Vec::new();
    let mut paths: Vec<(ContentHash, String)> = Vec::new();
    let mut i: usize = 0;
    proof {
        assert(paths@.map_values(model) =~= proofs(changes, evidence@, 0));
    }
    while i < plan.blockers.len()
        invariant
            i <= plan.blockers.len(),
            evidence@.len() == plan.blockers@.len(),
            changes == plan.blocker_changes(),
            model == (|e: (ContentHash, String)| (e.0, e.1@)),
            confirmed@ == judged(changes, evidence@, i as int, false),
            context@ == judged(changes, evidence@, i as int, true),
            paths@.map_values(model) == proofs(changes, evidence@, i as int),
        decreases plan.blockers.len() - i,
    {
        let change: ContentHash = plan.blockers[i].change;
        let ghost before = paths@.map_values(model);
        assert(changes[i as int] == change);
        match find_survival(&evidence[i]) {
            Some(k) => {
                context.push(change);
                paths.push((change, evidence[i][k].path.clone()));
                assert(paths@.map_values(model) =~= before.push(
                    (change, evidence@[i as int]@[k as int].path@),
                ));
            },
            None => {
                confirmed.push(change);
            },
        }
        i = i + 1;
    }
    SelectiveRepairEvaluation {
        confirmed_blockers: confirmed,
        context_only: context,
        surviving_paths: paths,
    }
}

/// Refines a plan's candidate blockers by counterfactual evidence, one list of
/// paths per blocker. A candidate is context only where some path's content
/// differs with and without it; a failed lookup keeps it blocked.
pub fn evaluate_selective_repair_plan(
    plan: Option<SelectiveRepairPlan>,
    view_state: ContentHash,
    current_view: &str,
    evidence: &Vec<Vec<PathEvidence>>,
    updated_at: String,
) -> (evaluated: Result<SelectiveRepairPlan, RepositoryError>)
    requires
        plan matches Some(p) ==> evidence@.len() == p.blockers@.len() && p.generation < u64::MAX,
    ensures
        match plan {
            None => evaluated matches Err(error) && error.says("no active selective repair plan"@),
            Some(p) => match p.defect() {
                Some(defect) => evaluated matches Err(error) && error.says(
                    SelectiveRepairPlan::refusal(defect),
                ),
                None => if view_state != p.original_state {
                    evaluated matches Err(error) && error.says(
                        "selective repair view diverged after planning"@,
                    )
                } else if current_view@ != p.view@ {
                    evaluated matches Err(error) && error.says(switch_first(p.view@))
                } else if text::blank(updated_at@) {
                    evaluated matches Err(error) && error.says(
                        SelectiveRepairPlan::refusal(PlanDefect::BlankTimestamps),
                    )
                } else {
                    evaluated matches Ok(next) && is_evaluation_of(
                        next,
                        p,
                        evidence@,
                        updated_at@,
                    ) && next.defect() is None
                },
            },
        },
{
    let plan: SelectiveRepairPlan = match plan {
        None => {
            return Err(error::invalid("no active selective repair plan"));
        },
        Some(plan) => plan,
    };
    match plan.validate() {
        Err(error) => {
            return Err(error);
        },
        Ok(_) => {},
    }
    if view_state != plan.original_state {
        return Err(error::invalid("selective repair view diverged after planning"));
    }
    if !text::same(current_view, plan.view.as_str()) {
        let mut message: String = "switch to '".to_owned();
        message.append(plan.view.as_str());
        message.append("' before evaluating isolation");
        return Err(error::invalid(message.as_str()));
    }
    let ghost start = plan;
    let evaluation: SelectiveRepairEvaluation = judge(&plan, evidence);
    let generation: u64 = plan.generation + 1;
    let ghost at = updated_at@;
    let timestamps = SelectiveRepairTimestamps {
        created_at: plan.timestamps.created_at,
        updated_at,
        completed_at: plan.timestamps.completed_at,
    };
    let next = SelectiveRepairPlan {
        version: plan.version,
        plan_id: plan.plan_id,
        generation,
        phase: SelectiveRepairPhase::Evaluated,
        view: plan.view,
        original_state: plan.original_state,
        original_order: plan.original_order,
        target: plan.target,
        blockers: plan.blockers,
        commuting: plan.commuting,
        replacements: plan.replacements,
        replacement_order: plan.replacement_order,
        original_provenance: plan.original_provenance,
        evaluation: Some(evaluation),
        timestamps,
    };
    proof {
        evaluation_keeps_plans_sound(next, start, evidence@, at);
    }
    match next.validate() {
        Err(error) => Err(error),
        Ok(_) => Ok(next),
    }
}

/// A lookup that judges a blocker: a path, the changes to leave out with the
/// blocker in place, and those to leave out without it.
pub open spec fn is_lookup(
    plan: SelectiveRepairPlan,
    blocker: int,
    path: Seq<char>,
    asked: (String, Vec<ContentHash>, Vec<ContentHash>),
) -> bool {
    &&& asked.0@ == path
    &&& asked.1@ == seq![plan.target]
    &&& asked.2@ == seq![plan.target, plan.blockers@[blocker].change]
}

/// What to look up to judge a blocker. `paths` are those that the blocker's
/// change touches: each once, in order, is to be read after that change
/// without the target, and again without the target and the blocker.
pub fn isolation_lookups(plan: &SelectiveRepairPlan, blocker: usize, paths: &Vec<String>) -> (asked:
    Vec<(String, Vec<ContentHash>, Vec<ContentHash>)>)
    requires
        blocker < plan.blockers@.len(),
    ensures
        ({
            let wanted = collections::sorted_set(text::texts(paths@));
            &&& text::increasing(wanted)
            &&& wanted.to_set() == text::texts(paths@).to_set()
            &&& asked@.len() == wanted.len()
            &&& forall|k: int|
                0 <= k < asked@.len() ==> is_lookup(
                    *plan,
                    blocker as int,
                    wanted[k],
                    #[trigger] asked@[k],
                )
        }),
{
    let distinct: Vec<String> = collections::sorted_distinct(paths);
    let ghost wanted = text::texts(distinct@);
    proof {
        collections::sorted_set_is(text::texts(paths@), wanted);
    }
    let mut asked: Vec<(String, Vec<ContentHash>, Vec<ContentHash>)> = Vec::new();
    let mut k: usize = 0;
    while k < distinct.len()
        invariant
            k <= distinct.len(),
            blocker < plan.blockers@.len(),
            wanted == text::texts(distinct@),
            asked@.len() == k,
            forall|j: int|
                0 <= j < k ==> is_lookup(*plan, blocker as int, wanted[j], #[trigger] asked@[j]),
        decreases distinct.len() - k,
    {
        let mut kept: Vec<ContentHash> = Vec::new();
        kept.push(plan.target);
        let mut isolated: Vec<ContentHash> = Vec::new();
        isolated.push(plan.target);
        isolated.push(plan.blockers[blocker].change);
        assert(kept@ =~= seq![plan.target]);
        assert(isolated@ =~= seq![plan.target, plan.blockers@[blocker as int].change]);
        assert(wanted[k as int] == distinct@[k as int]@);
        asked.push((distinct[k].clone(), kept, isolated));
        k = k + 1;
    }
    asked
}

} // verus!
