//! Listing changes after what they depend on.

use crate::collections;
use crate::pristine::{ChangeRecord, Pristine, PristineModel, RecordModel};
use crate::types::{ContentHash, NodeId};
use vstd::prelude::*;

verus! {

/// What records say.
pub open spec fn record_models(records: Seq<ChangeRecord>) -> Seq<RecordModel> {
    records.map_values(|r: ChangeRecord| r@)
}

/// Whether a record names a hash as a dependency.
pub open spec fn depends(record: RecordModel, hash: ContentHash) -> bool {
    record.dependencies matches Some(list) && list.contains(hash)
}

/// Whether a record depends on one of these.
pub open spec fn waits(record: RecordModel, records: Seq<RecordModel>) -> bool {
    exists|r: int| 0 <= r < records.len() && depends(record, (#[trigger] records[r]).hash)
}

/// Whether changes among these keep each other waiting for ever: some of them,
/// at least one, each depend on one of them.
pub open spec fn is_cyclic(records: Seq<RecordModel>) -> bool {
    exists|knot: Seq<RecordModel>| #[trigger] is_knot(knot, records)
}

/// Whether all of these records are among `records`, and each depends on one
/// of them.
pub open spec fn is_knot(knot: Seq<RecordModel>, records: Seq<RecordModel>) -> bool {
    &&& knot.len() > 0
    &&& forall|i: int| 0 <= i < knot.len() ==> #[trigger] records.contains(knot[i])
    &&& forall|i: int| 0 <= i < knot.len() ==> #[trigger] waits(knot[i], knot)
}

/// Whether no record depends on itself or on a later one.
pub open spec fn is_settled(records: Seq<RecordModel>) -> bool {
    forall|i: int, j: int|
        #![trigger records[i], records[j]]
        0 <= i <= j < records.len() ==> !depends(records[i], records[j].hash)
}

proof fn settled_is_dependency_first(tables: PristineModel)
    requires
        is_settled(tables.changes),
    ensures
        tables.dependency_first(),
{
    assert forall|i: int, k: int|
        0 <= i < tables.changes.len() && tables.changes[i].dependencies is Some && 0 <= k
            < tables.changes[i].dependencies->0.len() implies match tables.row(
        #[trigger] tables.changes[i].dependencies->0[k],
    ) {
        Some(j) => j < i,
        None => true,
    } by {
        let hash = tables.changes[i].dependencies->0[k];
        tables.hashes().index_of_first_ensures(hash);
        if let Some(j) = tables.row(hash) {
            assert(tables.hashes()[j] == tables.changes[j].hash);
            assert(depends(tables.changes[i], tables.changes[j].hash));
        }
    }
}

proof fn no_knot_at(records: Seq<RecordModel>, knot: Seq<RecordModel>, at: int, place: int)
    requires
        is_settled(records),
        0 <= at < knot.len(),
        0 <= place < records.len(),
        records[place] == knot[at],
    ensures
        !is_knot(knot, records),
    decreases place,
{
    if is_knot(knot, records) {
        assert(waits(knot[at], knot));
        let next = choose|r: int|
            0 <= r < knot.len() && depends(knot[at], (#[trigger] knot[r]).hash);
        assert(records.contains(knot[next]));
        let before = choose|b: int| 0 <= b < records.len() && records[b] == knot[next];
        no_knot_at(records, knot, next, before);
    }
}

/// Whether every hash stands in one record only.
pub open spec fn distinct_hashes(records: Seq<RecordModel>) -> bool {
    forall|i: int, j: int|
        #![trigger records[i], records[j]]
        0 <= i < j < records.len() ==> records[i].hash != records[j].hash
}

proof fn settled_is_acyclic(records: Seq<RecordModel>)
    requires
        is_settled(records),
    ensures
        !is_cyclic(records),
{
    if is_cyclic(records) {
        let knot = choose|knot: Seq<RecordModel>| #[trigger] is_knot(knot, records);
        assert(records.contains(knot[0]));
        let place = choose|b: int| 0 <= b < records.len() && records[b] == knot[0];
        no_knot_at(records, knot, 0, place);
    }
}

proof fn rearranged_alike(a: Seq<RecordModel>, b: Seq<RecordModel>, record: RecordModel)
    requires
        a.to_multiset() == b.to_multiset(),
    ensures
        a.contains(record) <==> b.contains(record),
{
    broadcast use vstd::seq_lib::group_to_multiset_ensures;

    assert(a.contains(record) <==> a.to_multiset().count(record) > 0);
    assert(b.contains(record) <==> b.to_multiset().count(record) > 0);
}

proof fn knots_are_rearranged(a: Seq<RecordModel>, b: Seq<RecordModel>)
    requires
        a.to_multiset() == b.to_multiset(),
    ensures
        is_cyclic(a) ==> is_cyclic(b),
{
    if is_cyclic(a) {
        let knot = choose|knot: Seq<RecordModel>| #[trigger] is_knot(knot, a);
        assert forall|i: int| 0 <= i < knot.len() implies #[trigger] b.contains(knot[i]) by {
            assert(a.contains(knot[i]));
            rearranged_alike(a, b, knot[i]);
        }
        assert(is_knot(knot, b));
    }
}

proof fn hashes_stay_distinct(a: Seq<RecordModel>, b: Seq<RecordModel>)
    requires
        a.to_multiset() == b.to_multiset(),
        distinct_hashes(a),
    ensures
        distinct_hashes(b),
{
    assert(a.no_duplicates());
    a.lemma_multiset_has_no_duplicates();
    b.lemma_multiset_has_no_duplicates_conv();
    assert forall|i: int, j: int|
        #![trigger b[i], b[j]]
        0 <= i < j < b.len() implies b[i].hash != b[j].hash by {
        rearranged_alike(a, b, b[i]);
        rearranged_alike(a, b, b[j]);
        assert(b.contains(b[i]) && b.contains(b[j]));
        let p = choose|p: int| 0 <= p < a.len() && a[p] == b[i];
        let q = choose|q: int| 0 <= q < a.len() && a[q] == b[j];
        assert(b[i] != b[j]);
        if p < q {
            assert(a[p].hash != a[q].hash);
        } else {
            assert(a[q].hash != a[p].hash);
        }
    }
}

fn is_waiting(record: &ChangeRecord, records: &Vec<ChangeRecord>) -> (answer: bool)
    ensures
        answer == waits(record@, record_models(records@)),
{
    let ghost models = record_models(records@);
    let list: &Vec<ContentHash> = match &record.dependencies {
        None => {
            return false;
        },
        Some(list) => list,
    };
    let mut r: usize = 0;
    while r < records.len()
        invariant
            r <= records.len(),
            models == record_models(records@),
            record@.dependencies == Some(list@),
            forall|j: int| 0 <= j < r ==> !depends(record@, (#[trigger] models[j]).hash),
        decreases records.len() - r,
    {
        assert(models[r as int] == records@[r as int]@);
        if collections::contains(list, records[r].hash) {
            return true;
        }
        r = r + 1;
    }
    false
}

fn find_ready(records: &Vec<ChangeRecord>) -> (found: Option<usize>)
    ensures
        match found {
            Some(i) => i < records@.len() && !waits(records@[i as int]@, record_models(records@)),
            None => forall|i: int|
                0 <= i < records@.len() ==> waits(
                    #[trigger] record_models(records@)[i],
                    record_models(records@),
                ),
        },
{
    let ghost models = record_models(records@);
    let mut i: usize = 0;
    while i < records.len()
        invariant
            i <= records.len(),
            models == record_models(records@),
            forall|j: int| 0 <= j < i ==> waits(#[trigger] models[j], models),
        decreases records.len() - i,
    {
        assert(models[i as int] == records@[i as int]@);
        if !is_waiting(&records[i], records) {
            return Some(i);
        }
        i = i + 1;
    }
    None
}

/// Lists every change after those it depends on; `None` where changes depend
/// on each other in a circle.
pub fn order_changes(changes: Vec<ChangeRecord>) -> (ordered: Option<Vec<ChangeRecord>>)
    requires
        distinct_hashes(record_models(changes@)),
    ensures
        ordered is None <==> is_cyclic(record_models(changes@)),
        ordered matches Some(list) ==> is_settled(record_models(list@)) && record_models(
            list@,
        ).to_multiset() == record_models(changes@).to_multiset(),
{
    let ghost all = record_models(changes@);
    let mut left: Vec<ChangeRecord> = changes;
    let mut placed: Vec<ChangeRecord> = Vec::new();
    proof {
        assert(record_models(placed@) =~= Seq::empty());
        vstd::seq_lib::to_multiset_len(record_models(placed@));
        assert(all.to_multiset() =~= record_models(placed@).to_multiset().add(all.to_multiset()));
    }
    while left.len() > 0
        invariant
            all == record_models(changes@),
            all.to_multiset() == record_models(placed@).to_multiset().add(
                record_models(left@).to_multiset(),
            ),
            is_settled(record_models(placed@)),
            forall|i: int, r: int|
                #![trigger record_models(placed@)[i], record_models(left@)[r]]
                0 <= i < placed@.len() && 0 <= r < left@.len() ==> !depends(
                    record_models(placed@)[i],
                    record_models(left@)[r].hash,
                ),
        decreases left@.len(),
    {
        let ghost before = record_models(placed@);
        let ghost waiting = record_models(left@);
        match find_ready(&left) {
            None => {
                proof {
                    assert forall|i: int| 0 <= i < waiting.len() implies #[trigger] all.contains(
                        waiting[i],
                    ) by {
                        assert(waiting.contains(waiting[i]));
                        vstd::seq_lib::to_multiset_contains(waiting, waiting[i]);
                        vstd::seq_lib::to_multiset_contains(all, waiting[i]);
                    }
                    assert(is_knot(waiting, all));
                }
                return None;
            },
            Some(at) => {
                let record: ChangeRecord = left.remove(at);
                let ghost model = record@;
                placed.push(record);
                proof {
                    let rest = record_models(left@);
                    let grown = record_models(placed@);
                    assert(waiting[at as int] == model);
                    assert(rest =~= waiting.remove(at as int));
                    assert(grown =~= before.push(model));
                    assert(waiting.to_multiset().count(model) > 0) by {
                        assert(waiting.contains(model));
                        vstd::seq_lib::to_multiset_contains(waiting, model);
                    }
                    vstd::seq_lib::to_multiset_remove(waiting, at as int);
                    vstd::seq_lib::to_multiset_build(before, model);
                    assert(all.to_multiset() =~= grown.to_multiset().add(rest.to_multiset()));
                    assert forall|r: int| 0 <= r < rest.len() implies waiting.contains(
                        #[trigger] rest[r],
                    ) by {
                        let s = if r < at {
                            r
                        } else {
                            r + 1
                        };
                        assert(waiting[s] == rest[r]);
                    }
                    assert forall|i: int, r: int|
                        #![trigger grown[i], rest[r]]
                        0 <= i < grown.len() && 0 <= r < rest.len() implies !depends(
                        grown[i],
                        rest[r].hash,
                    ) by {
                        let s = choose|s: int| 0 <= s < waiting.len() && waiting[s] == rest[r];
                        if i < before.len() {
                            assert(grown[i] == before[i]);
                            assert(!depends(before[i], waiting[s].hash));
                        } else {
                            assert(!depends(model, waiting[s].hash));
                        }
                    }
                    assert forall|i: int, j: int|
                        #![trigger grown[i], grown[j]]
                        0 <= i <= j < grown.len() implies !depends(grown[i], grown[j].hash) by {
                        if j < before.len() {
                            assert(grown[i] == before[i] && grown[j] == before[j]);
                        } else if i < before.len() {
                            assert(grown[i] == before[i]);
                            assert(!depends(before[i], waiting[at as int].hash));
                        } else {
                            assert(!depends(model, waiting[at as int].hash));
                        }
                    }
                }
            },
        }
    }
    proof {
        let models = record_models(placed@);
        assert(record_models(left@) =~= Seq::empty());
        assert(all.to_multiset() =~= models.to_multiset());
        hashes_stay_distinct(all, models);
        settled_is_acyclic(models);
        if is_cyclic(all) {
            knots_are_rearranged(all, models);
        }
    }
    Some(placed)
}

impl Pristine {
    /// The same tables with their changes listed after what they depend on;
    /// `None` where changes depend on each other in a circle.
    pub fn order_dependencies(self) -> (ordered: Option<Pristine>)
        requires
            distinct_hashes(self@.changes),
        ensures
            ordered is None <==> is_cyclic(self@.changes),
            ordered matches Some(tables) ==> {
                &&& tables@.dependency_first()
                &&& tables@.changes.to_multiset() == self@.changes.to_multiset()
                &&& tables@.tree == self@.tree
                &&& tables@.rev_tree == self@.rev_tree
                &&& tables@.inodes == self@.inodes
                &&& tables@.rev_inodes == self@.rev_inodes
                &&& tables@.directories == self@.directories
            },
    {
        let tables: Pristine = self;
        assert(record_models(tables.changes@) =~= tables@.changes);
        match order_changes(tables.changes) {
            None => None,
            Some(changes) => {
                let ordered = Pristine {
                    changes,
                    tree: tables.tree,
                    rev_tree: tables.rev_tree,
                    inodes: tables.inodes,
                    rev_inodes: tables.rev_inodes,
                    directories: tables.directories,
                };
                proof {
                    assert(record_models(changes@) =~= ordered@.changes);
                    settled_is_dependency_first(ordered@);
                }
                Some(ordered)
            },
        }
    }
}

/// In whatever order changes are listed, a hash has the same number, and a
/// number the same hash.
pub proof fn listing_order_does_not_matter(a: PristineModel, b: PristineModel)
    requires
        a.changes.to_multiset() == b.changes.to_multiset(),
        distinct_hashes(a.changes),
        a.ids().no_duplicates(),
        b.ids().no_duplicates(),
    ensures
        forall|hash: ContentHash| #[trigger] a.internal(hash) == b.internal(hash),
        forall|id: NodeId| #[trigger] a.external(id) == b.external(id),
{
    hashes_stay_distinct(a.changes, b.changes);
    assert forall|hash: ContentHash| #[trigger] a.internal(hash) == b.internal(hash) by {
        a.hashes().index_of_first_ensures(hash);
        b.hashes().index_of_first_ensures(hash);
        if let Some(i) = a.row(hash) {
            assert(a.changes.contains(a.changes[i]));
            rearranged_alike(a.changes, b.changes, a.changes[i]);
            let j = choose|j: int| 0 <= j < b.changes.len() && b.changes[j] == a.changes[i];
            assert(a.hashes()[i] == a.changes[i].hash);
            assert(b.hashes()[j] == hash);
            let k = b.row(hash)->0;
            assert(b.hashes()[k] == b.changes[k].hash);
            if k < j {
                assert(b.changes[k].hash != b.changes[j].hash);
            }
        } else if let Some(j) = b.row(hash) {
            assert(b.changes.contains(b.changes[j]));
            rearranged_alike(a.changes, b.changes, b.changes[j]);
            let i = choose|i: int| 0 <= i < a.changes.len() && a.changes[i] == b.changes[j];
            assert(b.hashes()[j] == b.changes[j].hash);
            assert(a.hashes()[i] == hash);
        }
    }
    assert forall|id: NodeId| #[trigger] a.external(id) == b.external(id) by {
        a.ids().index_of_first_ensures(id);
        b.ids().index_of_first_ensures(id);
        if let Some(i) = a.ids().index_of_first(id) {
            assert(a.changes.contains(a.changes[i]));
            rearranged_alike(a.changes, b.changes, a.changes[i]);
            let j = choose|j: int| 0 <= j < b.changes.len() && b.changes[j] == a.changes[i];
            assert(a.ids()[i] == a.changes[i].id);
            assert(b.ids()[j] == id);
        } else if let Some(j) = b.ids().index_of_first(id) {
            assert(b.changes.contains(b.changes[j]));
            rearranged_alike(a.changes, b.changes, b.changes[j]);
            let i = choose|i: int| 0 <= i < a.changes.len() && a.changes[i] == b.changes[j];
            assert(b.ids()[j] == b.changes[j].id);
            assert(a.ids()[i] == id);
        }
    }
}

} // verus!
