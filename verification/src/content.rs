//! File content and change logs as views show them.

use crate::bytes::dup_bytes;
use crate::collections;
use crate::deferred_tree;
use crate::deferred_tree::{TreeItem, TreeProjection, TreeRefusal};
use crate::error;
use crate::error::RepositoryError;
use crate::pristine::Visibility;
use crate::projection;
use crate::repository;
use crate::repository::{GraphEdge, GraphNode, Repository, ViewState};
use crate::text;
use crate::types::{ContentHash, Inode, NodeId, Position};
use vstd::prelude::*;

verus! {

/// The hashes of a log; entries without one are left out.
pub open spec fn log_hashes(pristine: crate::pristine::PristineModel, log: Seq<NodeId>) -> Seq<
    ContentHash,
>
    decreases log.len(),
{
    if log.len() == 0 {
        Seq::empty()
    } else {
        let rest = log_hashes(pristine, log.drop_last());
        match pristine.external(log.last()) {
            Some(hash) => rest.push(hash),
            None => rest,
        }
    }
}

/// The items of `list` that are in `other`, or are not.
pub open spec fn kept(list: Seq<ContentHash>, other: Seq<ContentHash>, member: bool) -> Seq<
    ContentHash,
> {
    list.filter(|hash: ContentHash| other.contains(hash) == member)
}

fn keep(list: &Vec<ContentHash>, other: &Vec<ContentHash>, member: bool) -> (left: Vec<ContentHash>)
    ensures
        left@ == kept(list@, other@, member),
{
    let ghost wanted = |hash: ContentHash| other@.contains(hash) == member;
    let mut left: Vec<ContentHash> = Vec::new();
    let mut i: usize = 0;
    proof {
        reveal(Seq::filter);
        assert(left@ =~= list@.take(0).filter(wanted));
    }
    while i < list.len()
        invariant
            i <= list.len(),
            wanted == (|hash: ContentHash| other@.contains(hash) == member),
            left@ == list@.take(i as int).filter(wanted),
        decreases list.len() - i,
    {
        proof {
            reveal(Seq::filter);
            assert(list@.take(i + 1).drop_last() =~= list@.take(i as int));
        }
        if collections::contains(other, list[i]) == member {
            left.push(list[i]);
        }
        i = i + 1;
    }
    assert(list@.take(i as int) =~= list@);
    left
}

/// Filtering by membership splits a list in two.
proof fn membership_splits(list: Seq<ContentHash>, other: Seq<ContentHash>)
    ensures
        list.to_multiset() == kept(list, other, false).to_multiset().add(
            kept(list, other, true).to_multiset(),
        ),
        forall|h: ContentHash|
            kept(list, other, true).contains(h) <==> list.contains(h) && other.contains(h),
        forall|h: ContentHash|
            kept(list, other, false).contains(h) <==> list.contains(h) && !other.contains(h),
    decreases list.len(),
{
    broadcast use vstd::seq_lib::group_to_multiset_ensures;

    reveal(Seq::filter);
    let out = kept(list, other, false);
    let inn = kept(list, other, true);
    if list.len() > 0 {
        let rest = list.drop_last();
        let last = list.last();
        membership_splits(rest, other);
        assert(list =~= rest.push(last));
        let out0 = kept(rest, other, false);
        let inn0 = kept(rest, other, true);
        if other.contains(last) {
            assert(inn == inn0.push(last));
            assert(out == out0);
        } else {
            assert(out == out0.push(last));
            assert(inn == inn0);
        }
        assert(list.to_multiset() =~= out.to_multiset().add(inn.to_multiset()));
        assert forall|h: ContentHash| inn.contains(h) <==> list.contains(h) && other.contains(h) by {
            rest.lemma_push_to_set_commute(last);
            inn0.lemma_push_to_set_commute(last);
            assert(list.to_set().contains(h) == (rest.to_set().contains(h) || h == last));
            assert(inn0.push(last).to_set().contains(h) == (inn0.to_set().contains(h) || h == last));
            assert(inn0.contains(h) == inn0.to_set().contains(h));
        }
        assert forall|h: ContentHash| out.contains(h) <==> list.contains(h) && !other.contains(
            h,
        ) by {
            rest.lemma_push_to_set_commute(last);
            out0.lemma_push_to_set_commute(last);
            assert(list.to_set().contains(h) == (rest.to_set().contains(h) || h == last));
            assert(out0.push(last).to_set().contains(h) == (out0.to_set().contains(h) || h == last));
            assert(out0.contains(h) == out0.to_set().contains(h));
        }
    } else {
        assert(out =~= Seq::empty());
        assert(inn =~= Seq::empty());
        assert(list.to_multiset() =~= out.to_multiset().add(inn.to_multiset()));
    }
}

/// A view diff splits each log without loss: what is only in A together with
/// what is common is A's log, nothing is both, and what A and B have in common
/// is the same whichever of them comes first.
pub proof fn diff_partitions_logs(a: Seq<ContentHash>, b: Seq<ContentHash>)
    ensures
        a.to_multiset() == kept(a, b, false).to_multiset().add(kept(a, b, true).to_multiset()),
        kept(a, b, false).to_set().disjoint(kept(a, b, true).to_set()),
        kept(a, b, false).to_set().disjoint(kept(b, a, false).to_set()),
        kept(a, b, true).to_set() == kept(b, a, true).to_set(),
{
    membership_splits(a, b);
    membership_splits(b, a);
    assert(kept(a, b, true).to_set() =~= kept(b, a, true).to_set());
}

/// Where no log repeats a change, the common parts of a view diff taken both
/// ways are permutations of each other.
pub proof fn common_parts_are_permutations(a: Seq<ContentHash>, b: Seq<ContentHash>)
    requires
        a.no_duplicates(),
        b.no_duplicates(),
    ensures
        kept(a, b, true).to_multiset() == kept(b, a, true).to_multiset(),
{
    diff_partitions_logs(a, b);
    diff_partitions_logs(b, a);
    a.lemma_multiset_has_no_duplicates();
    b.lemma_multiset_has_no_duplicates();
    let ours = kept(a, b, true);
    let theirs = kept(b, a, true);
    assert forall|x: ContentHash|
        ours.to_multiset().count(x) == theirs.to_multiset().count(x) by {
        vstd::seq_lib::to_multiset_contains(ours, x);
        vstd::seq_lib::to_multiset_contains(theirs, x);
        assert(ours.to_set().contains(x) <==> theirs.to_set().contains(x));
        assert(a.to_multiset().count(x) <= 1) by {
            if a.to_multiset().count(x) > 0 {
                assert(a.to_multiset().contains(x));
            }
        }
        assert(b.to_multiset().count(x) <= 1) by {
            if b.to_multiset().count(x) > 0 {
                assert(b.to_multiset().contains(x));
            }
        }
    }
    assert(ours.to_multiset() =~= theirs.to_multiset());
}

/// Whether a triple is what view `a` alone, view `b` alone and both have in
/// their logs, each in log order.
pub open spec fn is_diff(
    repo: Repository,
    a: int,
    b: int,
    found: (Seq<ContentHash>, Seq<ContentHash>, Seq<ContentHash>),
) -> bool {
    &&& found.0 == kept(repo.log(a), repo.log(b), false)
    &&& found.1 == kept(repo.log(b), repo.log(a), false)
    &&& found.2 == kept(repo.log(a), repo.log(b), true)
}

proof fn kept_of_itself(list: Seq<ContentHash>, all: Seq<ContentHash>)
    requires
        forall|k: int| 0 <= k < list.len() ==> all.contains(#[trigger] list[k]),
    ensures
        kept(list, all, true) == list,
        kept(list, all, false).len() == 0,
    decreases list.len(),
{
    reveal(Seq::filter);
    if list.len() > 0 {
        let rest = list.drop_last();
        assert forall|k: int| 0 <= k < rest.len() implies all.contains(#[trigger] rest[k]) by {
            assert(rest[k] == list[k]);
        }
        kept_of_itself(rest, all);
        assert(all.contains(list[list.len() - 1]));
        assert(rest.push(list.last()) =~= list);
    }
}

/// What is only in A, and what is only in B, are the same whichever view is
/// named first; a view differs from itself in nothing, and shares its whole
/// log with itself.
pub proof fn diff_is_symmetric(
    repo: Repository,
    a: int,
    b: int,
    ours: (Seq<ContentHash>, Seq<ContentHash>, Seq<ContentHash>),
    theirs: (Seq<ContentHash>, Seq<ContentHash>, Seq<ContentHash>),
)
    requires
        is_diff(repo, a, b, ours),
        is_diff(repo, b, a, theirs),
    ensures
        ours.0 == theirs.1,
        ours.1 == theirs.0,
        ours.2.to_set() == theirs.2.to_set(),
        a == b ==> ours.0.len() == 0 && ours.1.len() == 0 && ours.2 == repo.log(a),
{
    diff_partitions_logs(repo.log(a), repo.log(b));
    if a == b {
        kept_of_itself(repo.log(a), repo.log(a));
    }
}

impl Repository {
    fn list_log(&self, log: &Vec<NodeId>) -> (hashes: Vec<ContentHash>)
        ensures
            hashes@ == log_hashes(self.pristine@, log@),
    {
        let mut hashes: Vec<ContentHash> = Vec::new();
        let mut i: usize = 0;
        while i < log.len()
            invariant
                i <= log.len(),
                hashes@ == log_hashes(self.pristine@, log@.take(i as int)),
            decreases log.len() - i,
        {
            assert(log@.take(i + 1).drop_last() =~= log@.take(i as int));
            if let Some(hash) = self.pristine.get_external(log[i]) {
                hashes.push(hash);
            }
            i = i + 1;
        }
        assert(log@.take(i as int) =~= log@);
        hashes
    }

    /// The hashes of a view's own log.
    pub open spec fn log(self, view: int) -> Seq<ContentHash> {
        log_hashes(self.pristine@, self.views@[view].changes@)
    }

    /// Compares two views by their logs: the changes only in the first, those
    /// only in the second, and those in both, each in log order.
    pub fn diff_views(&self, view_a: &str, view_b: &str) -> (diff: Result<
        (Vec<ContentHash>, Vec<ContentHash>, Vec<ContentHash>),
        RepositoryError,
    >)
        ensures
            match (self.view_at(view_a@), self.view_at(view_b@)) {
                (None, _) => diff matches Err(RepositoryError::ViewNotFound { name }) && name@
                    == view_a@,
                (Some(_), None) => diff matches Err(RepositoryError::ViewNotFound { name }) && name@
                    == view_b@,
                (Some(a), Some(b)) => diff matches Ok(found) && is_diff(
                    *self,
                    a,
                    b,
                    (found.0@, found.1@, found.2@),
                ),
            },
    {
        let a: usize = match self.find_view(view_a) {
            None => {
                return Err(RepositoryError::ViewNotFound { name: view_a.to_owned() });
            },
            Some(a) => a,
        };
        let b: usize = match self.find_view(view_b) {
            None => {
                return Err(RepositoryError::ViewNotFound { name: view_b.to_owned() });
            },
            Some(b) => b,
        };
        let in_a: Vec<ContentHash> = self.list_log(&self.views[a].changes);
        let in_b: Vec<ContentHash> = self.list_log(&self.views[b].changes);
        Ok((keep(&in_a, &in_b, false), keep(&in_b, &in_a, false), keep(&in_a, &in_b, true)))
    }
}

/// Why content cannot be assembled from the graph.
#[derive(Clone, Copy, Debug, PartialEq, Eq, Structural)]
pub enum ContentFault {
    /// An edge leads to no block.
    BlockNotFound,
    /// A span's change is not registered.
    UnregisteredChange { id: NodeId },
    /// A span's change is not in the store.
    MissingChange { hash: ContentHash },
    /// A span lies outside its change's contents.
    SpanOutside { node: GraphNode },
}

impl ContentFault {
    /// What the fault says.
    pub open spec fn text(self) -> Seq<char> {
        match self {
            ContentFault::BlockNotFound => "content edge leads to no block"@,
            ContentFault::UnregisteredChange { id } => "no external hash for change "@
                + text::numeral(id.0 as nat),
            ContentFault::MissingChange { .. } => "change of a content span is not in the store"@,
            ContentFault::SpanOutside { node } => "content span "@ + text::numeral(
                node.start as nat,
            ) + ".."@ + text::numeral(node.end as nat) + " exceeds its change's contents"@,
        }
    }

    /// What the fault says.
    pub fn message(self) -> (message: String)
        ensures
            message@ == self.text(),
    {
        match self {
            ContentFault::BlockNotFound => "content edge leads to no block".to_owned(),
            ContentFault::UnregisteredChange { id } => {
                let mut m: String = "no external hash for change ".to_owned();
                m.append(text::decimal(id.0).as_str());
                m
            },
            ContentFault::MissingChange { .. } =>
                "change of a content span is not in the store".to_owned(),
            ContentFault::SpanOutside { node } => {
                let mut m: String = "content span ".to_owned();
                m.append(text::decimal(node.start).as_str());
                m.append("..");
                m.append(text::decimal(node.end).as_str());
                m.append(" exceeds its change's contents");
                m
            },
        }
    }
}

/// Whether retrieval may use what a change wrote: the ROOT change, or one
/// that is visible.
pub open spec fn passes(visibility: Visibility, change: NodeId) -> bool {
    change.spec_is_root() || visibility.spec_shows(change)
}

fn does_pass(visibility: &Visibility, change: NodeId) -> (answer: bool)
    ensures
        answer == passes(*visibility, change),
{
    change.is_root() || visibility.shows(change)
}

/// Sorts the successors of a node from the `i`-th edge on into live and
/// deleted ones.
pub open spec fn successors_from(
    edges: Seq<GraphEdge>,
    inode: Inode,
    current: GraphNode,
    visibility: Visibility,
    i: int,
    alive: Seq<GraphNode>,
    deleted: Seq<GraphNode>,
) -> Result<(Seq<GraphNode>, Seq<GraphNode>), ContentFault>
    decreases edges.len() - i,
{
    if i < 0 || i >= edges.len() {
        Ok((alive, deleted))
    } else {
        let edge = edges[i];
        if edge.inode != inode || edge.source != current || edge.structural || !passes(
            visibility,
            edge.introduced_by,
        ) {
            successors_from(edges, inode, current, visibility, i + 1, alive, deleted)
        } else {
            match edge.dest {
                None => Err(ContentFault::BlockNotFound),
                Some(dest) => if !passes(visibility, dest.change) {
                    successors_from(edges, inode, current, visibility, i + 1, alive, deleted)
                } else if edge.deleted {
                    successors_from(
                        edges,
                        inode,
                        current,
                        visibility,
                        i + 1,
                        alive,
                        deleted.push(dest),
                    )
                } else if alive.contains(dest) {
                    successors_from(edges, inode, current, visibility, i + 1, alive, deleted)
                } else {
                    successors_from(
                        edges,
                        inode,
                        current,
                        visibility,
                        i + 1,
                        alive.push(dest),
                        deleted,
                    )
                },
            }
        }
    }
}

/// How a linear content walk goes on.
#[derive(Clone, Copy, Debug, PartialEq, Eq, Structural)]
pub enum LinearStep {
    /// Exactly one live successor.
    Follow(GraphNode),
    /// No successor.
    End,
    /// A fork, or a continuation past a deleted node; only the full graph walk
    /// can render it.
    Bail,
}

/// The next step from a node. A successor that is both alive and deleted is
/// dead: its deletion supersedes the edge that introduced it.
pub open spec fn linear_step(alive: Seq<GraphNode>, deleted: Seq<GraphNode>) -> LinearStep {
    let live = alive.filter(|node: GraphNode| !deleted.contains(node));
    if live.len() == 1 {
        LinearStep::Follow(live[0])
    } else if live.len() == 0 && deleted.len() == 0 {
        LinearStep::End
    } else {
        LinearStep::Bail
    }
}

/// Chooses the single live successor of a node.
fn select_linear_successor(
    edges: &Vec<GraphEdge>,
    inode: Inode,
    current: GraphNode,
    visibility: &Visibility,
) -> (step: Result<LinearStep, ContentFault>)
    ensures
        match successors_from(
            edges@,
            inode,
            current,
            *visibility,
            0,
            Seq::empty(),
            Seq::empty(),
        ) {
            Err(fault) => step == Err::<LinearStep, ContentFault>(fault),
            Ok((alive, deleted)) => step == Ok::<LinearStep, ContentFault>(
                linear_step(alive, deleted),
            ),
        },
        step matches Ok(LinearStep::Follow(node)) ==> exists|i: int|
            0 <= i < edges@.len() && (#[trigger] edges@[i]).dest == Some(node),
{
    let mut alive: Vec<GraphNode> = Vec::new();
    let mut deleted: Vec<GraphNode> = Vec::new();
    let mut i: usize = 0;
    while i < edges.len()
        invariant
            i <= edges.len(),
            forall|k: int|
                0 <= k < alive@.len() ==> exists|e: int|
                    0 <= e < edges@.len() && (#[trigger] edges@[e]).dest == Some(
                        #[trigger] alive@[k],
                    ),
            successors_from(edges@, inode, current, *visibility, 0, Seq::empty(), Seq::empty())
                == successors_from(
                edges@,
                inode,
                current,
                *visibility,
                i as int,
                alive@,
                deleted@,
            ),
        decreases edges.len() - i,
    {
        let edge: GraphEdge = edges[i];
        if edge.inode == inode && edge.source == current && !edge.structural && does_pass(
            visibility,
            edge.introduced_by,
        ) {
            match edge.dest {
                None => {
                    return Err(ContentFault::BlockNotFound);
                },
                Some(dest) => {
                    if does_pass(visibility, dest.change) {
                        if edge.deleted {
                            deleted.push(dest);
                        } else if !collections::contains(&alive, dest) {
                            alive.push(dest);
                            assert(edges@[i as int].dest == Some(dest));
                        }
                    }
                },
            }
        }
        i = i + 1;
    }
    let ghost lives = |node: GraphNode| !deleted@.contains(node);
    let mut live: Vec<GraphNode> = Vec::new();
    let mut k: usize = 0;
    proof {
        reveal(Seq::filter);
        assert(live@ =~= alive@.take(0).filter(lives));
    }
    while k < alive.len()
        invariant
            k <= alive.len(),
            lives == (|node: GraphNode| !deleted@.contains(node)),
            live@ == alive@.take(k as int).filter(lives),
            forall|j: int|
                0 <= j < alive@.len() ==> exists|e: int|
                    0 <= e < edges@.len() && (#[trigger] edges@[e]).dest == Some(
                        #[trigger] alive@[j],
                    ),
            forall|j: int|
                0 <= j < live@.len() ==> exists|e: int|
                    0 <= e < edges@.len() && (#[trigger] edges@[e]).dest == Some(
                        #[trigger] live@[j],
                    ),
        decreases alive.len() - k,
    {
        proof {
            reveal(Seq::filter);
            assert(alive@.take(k + 1).drop_last() =~= alive@.take(k as int));
        }
        if !collections::contains(&deleted, alive[k]) {
            live.push(alive[k]);
        }
        k = k + 1;
    }
    assert(alive@.take(k as int) =~= alive@);
    if live.len() == 1 {
        assert(live@[0] == live[0]);
        Ok(LinearStep::Follow(live[0]))
    } else if live.len() == 0 && deleted.len() == 0 {
        Ok(LinearStep::End)
    } else {
        Ok(LinearStep::Bail)
    }
}

/// Whether a node holds content, rather than marking an inode or the root.
pub open spec fn holds_content(node: GraphNode) -> bool {
    !node.change.spec_is_root() && node.start != node.end
}

/// Follows single live successors from `current` and adds to `spans` those
/// that hold content. A fork, a continuation past a deleted node or a circle
/// gives nothing.
pub open spec fn walk(
    edges: Seq<GraphEdge>,
    inode: Inode,
    visibility: Visibility,
    current: GraphNode,
    visited: Seq<GraphNode>,
    spans: Seq<GraphNode>,
) -> Result<Option<Seq<GraphNode>>, ContentFault>
    decreases edges.len() + 1 - visited.len(),
{
    if visited.contains(current) || visited.len() > edges.len() {
        Ok(None)
    } else {
        match successors_from(edges, inode, current, visibility, 0, Seq::empty(), Seq::empty()) {
            Err(fault) => Err(fault),
            Ok((alive, deleted)) => match linear_step(alive, deleted) {
                LinearStep::Bail => Ok(None),
                LinearStep::End => Ok(Some(spans)),
                LinearStep::Follow(next) => walk(
                    edges,
                    inode,
                    visibility,
                    next,
                    visited.push(current),
                    if holds_content(next) {
                        spans.push(next)
                    } else {
                        spans
                    },
                ),
            },
        }
    }
}

/// The node that marks the inode at a position.
pub open spec fn marker(position: Position) -> GraphNode {
    GraphNode { change: position.change, start: position.pos, end: position.pos }
}

/// Whether `node` is the marker or the destination of some edge.
pub(crate) open spec fn known_node(edges: Seq<GraphEdge>, position: Position, node: GraphNode) -> bool {
    node == marker(position) || exists|i: int|
        0 <= i < edges.len() && (#[trigger] edges[i]).dest == Some(node)
}

/// Distinct known nodes are no more than the edges and the marker.
pub(crate) proof fn known_nodes_are_few(edges: Seq<GraphEdge>, position: Position, nodes: Seq<GraphNode>)
    requires
        nodes.no_duplicates(),
        forall|k: int| 0 <= k < nodes.len() ==> known_node(edges, position, #[trigger] nodes[k]),
    ensures
        nodes.len() <= edges.len() + 1,
{
    let all = edges.map_values(
        |e: GraphEdge|
            match e.dest {
                Some(dest) => dest,
                None => marker(position),
            },
    ).push(marker(position));
    nodes.unique_seq_to_set();
    all.lemma_cardinality_of_set();
    assert forall|n: GraphNode| nodes.to_set().contains(n) implies all.to_set().contains(n) by {
        let k = nodes.index_of(n);
        assert(known_node(edges, position, nodes[k]));
        if n == marker(position) {
            assert(all[edges.len() as int] == n);
        } else {
            let i = choose|i: int| 0 <= i < edges.len() && (#[trigger] edges[i]).dest == Some(n);
            assert(all[i] == n);
        }
    }
    assert(nodes.to_set().subset_of(all.to_set()));
    vstd::set_lib::lemma_len_subset(nodes.to_set(), all.to_set());
}

/// The content spans of a file whose live graph is a single chain.
pub open spec fn linear_spans(
    edges: Seq<GraphEdge>,
    inode: Inode,
    position: Position,
    visibility: Visibility,
) -> Result<Option<Seq<GraphNode>>, ContentFault> {
    walk(edges, inode, visibility, marker(position), Seq::empty(), Seq::empty())
}

fn find_linear_spans(
    edges: &Vec<GraphEdge>,
    inode: Inode,
    position: Position,
    visibility: &Visibility,
) -> (found: Result<Option<Vec<GraphNode>>, ContentFault>)
    ensures
        match linear_spans(edges@, inode, position, *visibility) {
            Err(fault) => found == Err::<Option<Vec<GraphNode>>, ContentFault>(fault),
            Ok(None) => found matches Ok(None),
            Ok(Some(list)) => found matches Ok(Some(spans)) && spans@ == list,
        },
{
    let mut current = GraphNode {
        change: position.change,
        start: position.pos,
        end: position.pos,
    };
    let mut visited: Vec<GraphNode> = Vec::new();
    let mut spans: Vec<GraphNode> = Vec::new();
    loop
        invariant
            visited@.no_duplicates(),
            forall|k: int|
                0 <= k < visited@.len() ==> known_node(edges@, position, #[trigger] visited@[k]),
            known_node(edges@, position, current),
            visited@.len() <= edges@.len() + 1,
            linear_spans(edges@, inode, position, *visibility) == walk(
                edges@,
                inode,
                *visibility,
                current,
                visited@,
                spans@,
            ),
        decreases edges@.len() + 1 - visited@.len(),
    {
        if collections::contains(&visited, current) {
            return Ok(None);
        }
        proof {
            known_nodes_are_few(edges@, position, visited@.push(current));
        }
        match select_linear_successor(edges, inode, current, visibility) {
            Err(fault) => {
                return Err(fault);
            },
            Ok(LinearStep::Bail) => {
                return Ok(None);
            },
            Ok(LinearStep::End) => {
                return Ok(Some(spans));
            },
            Ok(LinearStep::Follow(next)) => {
                visited.push(current);
                if !next.change.is_root() && next.start != next.end {
                    spans.push(next);
                }
                current = next;
            },
        }
    }
}

/// Adds to `content` the bytes of the spans from the `i`-th on.
pub open spec fn bytes_from(
    repo: Repository,
    spans: Seq<GraphNode>,
    i: int,
    content: Seq<u8>,
) -> Result<Seq<u8>, ContentFault>
    decreases spans.len() - i,
{
    if i < 0 || i >= spans.len() {
        Ok(content)
    } else {
        match repo.pristine@.external(spans[i].change) {
            None => Err(ContentFault::UnregisteredChange { id: spans[i].change }),
            Some(hash) => match repo.change_at(hash) {
                None => Err(ContentFault::MissingChange { hash }),
                Some(c) => {
                    let bytes = repo.changes@[c].contents@;
                    if spans[i].start > spans[i].end || spans[i].end > bytes.len() {
                        Err(ContentFault::SpanOutside { node: spans[i] })
                    } else {
                        bytes_from(
                            repo,
                            spans,
                            i + 1,
                            content + bytes.subrange(spans[i].start as int, spans[i].end as int),
                        )
                    }
                },
            },
        }
    }
}

/// The linear content of a file, where it has one.
pub open spec fn linear_content(
    repo: Repository,
    inode: Inode,
    position: Position,
    visibility: Visibility,
) -> Result<Option<Seq<u8>>, ContentFault> {
    if position.change.spec_is_root() && position.pos == 0 {
        Ok(Some(Seq::empty()))
    } else {
        match linear_spans(repo.edges@, inode, position, visibility) {
            Err(fault) => Err(fault),
            Ok(None) => Ok(None),
            Ok(Some(spans)) => match bytes_from(repo, spans, 0, Seq::empty()) {
                Err(fault) => Err(fault),
                Ok(content) => Ok(Some(content)),
            },
        }
    }
}

fn append_span(content: &mut Vec<u8>, bytes: &Vec<u8>, start: usize, end: usize)
    requires
        start <= end <= bytes@.len(),
    ensures
        final(content)@ == old(content)@ + bytes@.subrange(start as int, end as int),
{
    let ghost before = content@;
    let mut k: usize = start;
    assert(content@ =~= before + bytes@.subrange(start as int, k as int));
    while k < end
        invariant
            start <= k <= end <= bytes@.len(),
            content@ == before + bytes@.subrange(start as int, k as int),
        decreases end - k,
    {
        content.push(bytes[k]);
        assert(content@ =~= before + bytes@.subrange(start as int, k + 1));
        k = k + 1;
    }
}

impl Repository {
    fn collect_spans(&self, spans: &Vec<GraphNode>) -> (collected: Result<Vec<u8>, ContentFault>)
        ensures
            match bytes_from(*self, spans@, 0, Seq::empty()) {
                Err(fault) => collected == Err::<Vec<u8>, ContentFault>(fault),
                Ok(bytes) => collected matches Ok(content) && content@ == bytes,
            },
    {
        let mut content: Vec<u8> = Vec::new();
        let mut i: usize = 0;
        while i < spans.len()
            invariant
                i <= spans.len(),
                bytes_from(*self, spans@, 0, Seq::empty()) == bytes_from(
                    *self,
                    spans@,
                    i as int,
                    content@,
                ),
            decreases spans.len() - i,
        {
            let node: GraphNode = spans[i];
            let hash: ContentHash = match self.pristine.get_external(node.change) {
                None => {
                    return Err(ContentFault::UnregisteredChange { id: node.change });
                },
                Some(hash) => hash,
            };
            let change: usize = match self.find_change(hash) {
                None => {
                    return Err(ContentFault::MissingChange { hash });
                },
                Some(change) => change,
            };
            let bytes: &Vec<u8> = &self.changes[change].contents;
            if node.start > node.end || node.end > bytes.len() as u64 {
                return Err(ContentFault::SpanOutside { node });
            }
            append_span(&mut content, bytes, node.start as usize, node.end as usize);
            i = i + 1;
        }
        Ok(content)
    }

    /// Renders a file whose live graph is a single chain; anything else is
    /// left to the full graph walk.
    fn try_retrieve_linear_content_with_filter(
        &self,
        inode: Inode,
        position: Position,
        visibility: &Visibility,
    ) -> (found: Result<Option<Vec<u8>>, ContentFault>)
        ensures
            match linear_content(*self, inode, position, *visibility) {
                Err(fault) => found == Err::<Option<Vec<u8>>, ContentFault>(fault),
                Ok(None) => found matches Ok(None),
                Ok(Some(bytes)) => found matches Ok(Some(content)) && content@ == bytes,
            },
    {
        if position.change.is_root() && position.pos == 0 {
            return Ok(Some(Vec::new()));
        }
        match find_linear_spans(&self.edges, inode, position, visibility) {
            Err(fault) => Err(fault),
            Ok(None) => Ok(None),
            Ok(Some(spans)) => match self.collect_spans(&spans) {
                Err(fault) => Err(fault),
                Ok(content) => Ok(Some(content)),
            },
        }
    }
}

/// Place of what was rendered for a position, from the `i`-th on.
pub open spec fn rendered_from(
    rendered: Seq<crate::pristine::RenderedFile>,
    position: Position,
    i: int,
) -> Option<int>
    decreases rendered.len() - i,
{
    if i < 0 || i >= rendered.len() {
        None
    } else if rendered[i].position == position {
        Some(i)
    } else {
        rendered_from(rendered, position, i + 1)
    }
}

/// A file's bytes and whether a fork had to be resolved for them: the linear
/// content, or else what the full graph walk rendered. A fault is told.
pub open spec fn file_bytes(
    repo: Repository,
    inode: Inode,
    position: Position,
    visibility: Visibility,
) -> Result<(Seq<u8>, bool), Seq<char>> {
    match linear_content(repo, inode, position, visibility) {
        Err(fault) => Err(fault.text()),
        Ok(Some(bytes)) => Ok((bytes, false)),
        Ok(None) => match rendered_from(visibility.rendered@, position, 0) {
            None => Err("file content was not rendered"@),
            Some(i) => match visibility.rendered@[i].content {
                Ok(bytes) => Ok((bytes@, visibility.rendered@[i].had_fork)),
                Err(message) => Err(message@),
            },
        },
    }
}

/// A file of a view, or its absence.
#[derive(Debug)]
#[allow(inconsistent_fields)]
pub enum MaterializedEntry {
    /// No such file; the inode is known where one had or has this path.
    Absent { path: String, inode: Option<Inode> },
    Present { path: String, inode: Inode, bytes: Vec<u8> },
}

/// What a [`MaterializedEntry`] says of its path.
#[allow(inconsistent_fields)]
pub ghost enum EntryModel {
    Absent { inode: Option<Inode> },
    Present { inode: Inode, bytes: Seq<u8> },
}

impl MaterializedEntry {
    /// What the entry says, if it is about `path`.
    pub open spec fn tells(self, path: Seq<char>, model: EntryModel) -> bool {
        match (self, model) {
            (MaterializedEntry::Absent { path: p, inode }, EntryModel::Absent { inode: known }) => p@
                == path && inode == known,
            (
                MaterializedEntry::Present { path: p, inode, bytes },
                EntryModel::Present { inode: known, bytes: content },
            ) => p@ == path && inode == known && bytes@ == content,
            _ => false,
        }
    }
}

/// Why an entry cannot be told.
pub ghost enum EntryError {
    NoView { name: Seq<char> },
    Projection { refusal: TreeRefusal },
    Fault { message: Seq<char> },
}

impl EntryError {
    /// Whether `error` reports this.
    pub open spec fn is_told_by(self, error: RepositoryError) -> bool {
        match self {
            EntryError::NoView { name } => error matches RepositoryError::ViewNotFound {
                name: missing,
            } && missing@ == name,
            EntryError::Projection { refusal } => error::reports(error, refusal),
            EntryError::Fault { message } => error matches RepositoryError::Database(text) && text@
                == message,
        }
    }
}

/// The entry at a path under a visibility. The lifecycle projection decides
/// presence: an empty file is present, a deleted one absent, and a directory
/// is no file.
pub open spec fn entry_under(repo: Repository, path: Seq<char>, visibility: Visibility) -> Result<
    EntryModel,
    EntryError,
> {
    match deferred_tree::projected_tree(
        repo.pristine@,
        deferred_tree::op_models(repo.journal@),
        visibility,
    ) {
        Err(refusal) => Err(EntryError::Projection { refusal }),
        Ok(tree) => if !tree.present.dom().contains(path) {
            Ok(
                EntryModel::Absent {
                    inode: if tree.absent.dom().contains(path) {
                        Some(tree.absent[path])
                    } else {
                        None
                    },
                },
            )
        } else {
            let item = tree.present[path];
            if item.is_directory || item.position is None {
                Ok(EntryModel::Absent { inode: Some(item.inode) })
            } else {
                match file_bytes(repo, item.inode, item.position->0, visibility) {
                    Err(message) => Err(EntryError::Fault { message }),
                    Ok((bytes, _)) => Ok(EntryModel::Present { inode: item.inode, bytes }),
                }
            }
        },
    }
}

/// The entry at a path on a view.
pub open spec fn entry_on_view(repo: Repository, path: Seq<char>, view: Seq<char>) -> Result<
    EntryModel,
    EntryError,
> {
    match repo.view_at(view) {
        None => Err(EntryError::NoView { name: view }),
        Some(i) => match repo.views@[i].visibility {
            Err(message) => Err(EntryError::Fault { message: message@ }),
            Ok(visibility) => entry_under(
                repo,
                crate::paths::forward_slashes(path),
                visibility,
            ),
        },
    }
}

/// What a content lookup gives for an entry.
pub open spec fn content_told(
    found: Result<Option<Vec<u8>>, RepositoryError>,
    entry: Result<EntryModel, EntryError>,
) -> bool {
    match entry {
        Err(reason) => found matches Err(error) && reason.is_told_by(error),
        Ok(EntryModel::Absent { .. }) => found matches Ok(None),
        Ok(EntryModel::Present { bytes, .. }) => found matches Ok(Some(content)) && content@ == bytes,
    }
}

fn entry_content(entry: Result<MaterializedEntry, RepositoryError>) -> (found: Result<
    Option<Vec<u8>>,
    RepositoryError,
>)
    ensures
        match entry {
            Err(error) => found == Err::<Option<Vec<u8>>, RepositoryError>(error),
            Ok(MaterializedEntry::Absent { .. }) => found matches Ok(None),
            Ok(MaterializedEntry::Present { bytes, .. }) => found matches Ok(Some(content))
                && content == bytes,
        },
{
    match entry {
        Err(error) => Err(error),
        Ok(MaterializedEntry::Absent { .. }) => Ok(None),
        Ok(MaterializedEntry::Present { bytes, .. }) => Ok(Some(bytes)),
    }
}

impl Repository {
    /// A file's bytes under a visibility, and whether a fork or circle had to
    /// be resolved for them: such bytes need not match a plain checkout, so
    /// positional diffs must not be taken against them.
    pub fn retrieve_content_with_filter_fast_with_fork_info(
        &self,
        inode: Inode,
        position: Position,
        visibility: &Visibility,
    ) -> (found: Result<(Vec<u8>, bool), RepositoryError>)
        ensures
            match file_bytes(*self, inode, position, *visibility) {
                Err(message) => found matches Err(RepositoryError::Database(text)) && text@
                    == message,
                Ok((bytes, forked)) => found matches Ok(content) && content.0@ == bytes && content.1
                    == forked,
            },
    {
        match self.try_retrieve_linear_content_with_filter(inode, position, visibility) {
            Err(fault) => {
                return Err(RepositoryError::Database(fault.message()));
            },
            Ok(Some(content)) => {
                return Ok((content, false));
            },
            Ok(None) => {},
        }
        let mut i: usize = 0;
        while i < visibility.rendered.len()
            invariant
                i <= visibility.rendered.len(),
                linear_content(*self, inode, position, *visibility) == Ok::<
                    Option<Seq<u8>>,
                    ContentFault,
                >(None),
                rendered_from(visibility.rendered@, position, 0) == rendered_from(
                    visibility.rendered@,
                    position,
                    i as int,
                ),
            decreases visibility.rendered.len() - i,
        {
            if visibility.rendered[i].position == position {
                return match &visibility.rendered[i].content {
                    Ok(bytes) => Ok((dup_bytes(bytes), visibility.rendered[i].had_fork)),
                    Err(message) => Err(RepositoryError::Database(message.clone())),
                };
            }
            i = i + 1;
        }
        Err(RepositoryError::Database("file content was not rendered".to_owned()))
    }

    /// The tree that a visibility projects.
    pub fn project(&self, visibility: &Visibility) -> (projected: Result<TreeProjection, RepositoryError>)
        requires
            self.wf(),
        ensures
            match deferred_tree::projected_tree(
                self.pristine@,
                deferred_tree::op_models(self.journal@),
                *visibility,
            ) {
                Err(refusal) => projected matches Err(error) && error::reports(error, refusal),
                Ok(model) => projected matches Ok(tree) && tree@ == model && tree.wf()
                    && text::increasing(collections::keys(tree.absent.entries@))
                    && text::increasing(collections::keys(tree.absent_metadata.entries@)),
            },
    {
        match deferred_tree::project_tree_for_visibility(&self.pristine, &self.journal, visibility) {
            Err(refusal) => Err(error::projection_error(refusal)),
            Ok(tree) => Ok(tree),
        }
    }

    /// Resolves lifecycle presence and renders bytes under a visibility.
    pub fn get_materialized_entry_with_visibility(
        &self,
        path: &str,
        visibility: &Visibility,
    ) -> (found: Result<MaterializedEntry, RepositoryError>)
        requires
            self.wf(),
        ensures
            match entry_under(*self, path@, *visibility) {
                Err(reason) => found matches Err(error) && reason.is_told_by(error),
                Ok(model) => found matches Ok(entry) && entry.tells(path@, model),
            },
    {
        let tree: TreeProjection = match self.project(visibility) {
            Err(error) => {
                return Err(error);
            },
            Ok(tree) => tree,
        };
        let item: TreeItem = match tree.present.get(path) {
            None => {
                return Ok(
                    MaterializedEntry::Absent {
                        path: path.to_owned(),
                        inode: tree.absent.get(path),
                    },
                );
            },
            Some(item) => item,
        };
        match item.position {
            Some(position) => if item.is_directory {
                Ok(MaterializedEntry::Absent { path: path.to_owned(), inode: Some(item.inode) })
            } else {
                match self.retrieve_content_with_filter_fast_with_fork_info(
                    item.inode,
                    position,
                    visibility,
                ) {
                    Err(error) => Err(error),
                    Ok((bytes, _)) => Ok(
                        MaterializedEntry::Present {
                            path: path.to_owned(),
                            inode: item.inode,
                            bytes,
                        },
                    ),
                }
            },
            None => Ok(
                MaterializedEntry::Absent { path: path.to_owned(), inode: Some(item.inode) },
            ),
        }
    }

    /// Resolves a file as an explicit present or absent entry on a view.
    pub fn get_materialized_entry_on_view(&self, path: &str, view_name: &str) -> (found: Result<
        MaterializedEntry,
        RepositoryError,
    >)
        requires
            self.wf(),
        ensures
            match entry_on_view(*self, path@, view_name@) {
                Err(reason) => found matches Err(error) && reason.is_told_by(error),
                Ok(model) => found matches Ok(entry) && entry.tells(
                    crate::paths::forward_slashes(path@),
                    model,
                ),
            },
    {
        let path: String = crate::paths::to_forward_slashes(path);
        match self.find_view(view_name) {
            None => Err(RepositoryError::ViewNotFound { name: view_name.to_owned() }),
            Some(i) => match &self.views[i].visibility {
                Err(message) => Err(RepositoryError::Database(message.clone())),
                Ok(visibility) => self.get_materialized_entry_with_visibility(
                    path.as_str(),
                    visibility,
                ),
            },
        }
    }

    /// The recorded content of a tracked file on a view, or nothing where the
    /// view has no such file. Nothing is switched or written.
    pub fn get_file_content_on_view(&self, path: &str, view_name: &str) -> (found: Result<
        Option<Vec<u8>>,
        RepositoryError,
    >)
        requires
            self.wf(),
        ensures
            content_told(found, entry_on_view(*self, path@, view_name@)),
    {
        entry_content(self.get_materialized_entry_on_view(path, view_name))
    }

    /// The recorded content of a tracked file on the current view.
    pub fn get_file_content(&self, path: &str) -> (found: Result<Option<Vec<u8>>, RepositoryError>)
        requires
            self.wf(),
        ensures
            content_told(found, entry_on_view(*self, path@, self.current_view@)),
    {
        entry_content(self.get_materialized_entry_on_view(path, self.current_view.as_str()))
    }

    /// The recorded content of a tracked file on the current view, through the
    /// canonical view-aware retrieval.
    pub fn get_file_content_via_crdt(&self, path: &str) -> (found: Result<
        Option<Vec<u8>>,
        RepositoryError,
    >)
        requires
            self.wf(),
        ensures
            content_told(found, entry_on_view(*self, path@, self.current_view@)),
    {
        self.get_file_content(path)
    }
}

/// The changes that a view had just before a change, or with it: a prefix of
/// its visible changes, or nothing where the view does not show the change.
pub open spec fn membership(
    repo: Repository,
    view: Seq<char>,
    change: ContentHash,
    inclusive: bool,
) -> Result<Option<Seq<NodeId>>, EntryError> {
    match repo.view_at(view) {
        None => Err(EntryError::NoView { name: view }),
        Some(i) => match repo.pristine@.internal(change) {
            None => Ok(None),
            Some(id) => match repo.views@[i].visibility {
                Err(message) => Err(EntryError::Fault { message: message@ }),
                Ok(visibility) => match visibility.changes@.index_of_first(id) {
                    None => Ok(None),
                    Some(k) => Ok(
                        Some(
                            visibility.changes@.take(
                                if inclusive {
                                    k + 1
                                } else {
                                    k
                                },
                            ),
                        ),
                    ),
                },
            },
        },
    }
}

/// What the first changes in the log of a view come to, those with a sequence
/// number below `max_sequence`: they and everything they depend on,
/// dependencies first. None where a change or its dependencies are missing.
pub open spec fn members_at_sequence(repo: Repository, view: ViewState, max_sequence: u64) -> Option<
    Seq<NodeId>,
> {
    let log = view.changes@;
    projection::closure_from(
        repo.pristine@,
        log.take(
            if max_sequence < log.len() {
                max_sequence as int
            } else {
                log.len() as int
            },
        ),
        0,
        Seq::empty(),
    )
}

/// Where a lookup of historic content stands.
#[derive(Debug)]
pub enum Lookup {
    /// No such content.
    Absent,
    /// What these changes show has to be worked out first.
    NeedsVisibility { membership: Vec<NodeId> },
    Content { bytes: Vec<u8> },
}

/// What a lookup gives where a path has this entry.
pub open spec fn entry_looked_up(
    found: Result<Lookup, RepositoryError>,
    entry: Result<EntryModel, EntryError>,
) -> bool {
    match entry {
        Err(reason) => found matches Err(error) && reason.is_told_by(error),
        Ok(EntryModel::Absent { .. }) => found matches Ok(Lookup::Absent),
        Ok(EntryModel::Present { bytes, .. }) => found matches Ok(Lookup::Content { bytes: content })
            && content@ == bytes,
    }
}

/// What a lookup of historic content gives where the view has these members:
/// the entry under a visibility that shows exactly them, or their names where
/// no such visibility was handed in.
pub open spec fn members_looked_up(
    found: Result<Lookup, RepositoryError>,
    repo: Repository,
    path: Seq<char>,
    ids: Seq<NodeId>,
    visibility: Option<&Visibility>,
) -> bool {
    match visibility {
        Some(shown) => if shown.changes@ == ids {
            entry_looked_up(
                found,
                entry_under(repo, crate::paths::forward_slashes(path), *shown),
            )
        } else {
            found matches Ok(Lookup::NeedsVisibility { membership }) && membership@ == ids
        },
        None => found matches Ok(Lookup::NeedsVisibility { membership }) && membership@ == ids,
    }
}

/// What a lookup of historic content gives: nothing where the view lacks the
/// change, the members whose visibility is still wanted, or the entry there.
pub open spec fn lookup_told(
    found: Result<Lookup, RepositoryError>,
    repo: Repository,
    path: Seq<char>,
    members: Result<Option<Seq<NodeId>>, EntryError>,
    visibility: Option<&Visibility>,
) -> bool {
    match members {
        Err(reason) => found matches Err(error) && reason.is_told_by(error),
        Ok(None) => found matches Ok(Lookup::Absent),
        Ok(Some(ids)) => members_looked_up(found, repo, path, ids, visibility),
    }
}

fn look_up(entry: Result<MaterializedEntry, RepositoryError>) -> (found: Result<
    Lookup,
    RepositoryError,
>)
    ensures
        match entry {
            Err(error) => found == Err::<Lookup, RepositoryError>(error),
            Ok(MaterializedEntry::Absent { .. }) => found matches Ok(Lookup::Absent),
            Ok(MaterializedEntry::Present { bytes, .. }) => found matches Ok(
                Lookup::Content { bytes: content },
            ) && content == bytes,
        },
{
    match entry {
        Err(error) => Err(error),
        Ok(MaterializedEntry::Absent { .. }) => Ok(Lookup::Absent),
        Ok(MaterializedEntry::Present { bytes, .. }) => Ok(Lookup::Content { bytes }),
    }
}

fn take_changes(changes: &Vec<NodeId>, end: usize) -> (taken: Vec<NodeId>)
    requires
        end <= changes@.len(),
    ensures
        taken@ == changes@.take(end as int),
{
    let mut taken: Vec<NodeId> = Vec::new();
    let mut i: usize = 0;
    while i < end
        invariant
            i <= end <= changes@.len(),
            taken@ == changes@.take(i as int),
        decreases end - i,
    {
        taken.push(changes[i]);
        assert(changes@.take(i + 1) =~= changes@.take(i as int).push(changes@[i as int]));
        i = i + 1;
    }
    taken
}

fn find_id(changes: &Vec<NodeId>, id: NodeId) -> (found: Option<usize>)
    ensures
        match found {
            Some(i) => i < changes.len() && changes@.index_of_first(id) == Some(i as int),
            None => changes@.index_of_first(id) is None,
        },
{
    proof {
        changes@.index_of_first_ensures(id);
    }
    let mut i: usize = 0;
    while i < changes.len()
        invariant
            i <= changes.len(),
            forall|j: int| 0 <= j < i ==> changes@[j] != id,
            match changes@.index_of_first(id) {
                Some(k) => 0 <= k < changes@.len() && changes@[k] == id && forall|j: int|
                    0 <= j < k ==> changes@[j] != id,
                None => forall|j: int| 0 <= j < changes@.len() ==> changes@[j] != id,
            },
        decreases changes.len() - i,
    {
        if changes[i] == id {
            return Some(i);
        }
        i = i + 1;
    }
    None
}

/// What an archive is made of.
#[derive(Debug)]
pub struct ArchiveOptions {
    /// The state to archive; nothing stands for the current one.
    pub state: Option<ContentHash>,
}

/// Place of the first tag with this name, from the `i`-th on.
pub open spec fn tag_from(tags: Seq<repository::Tag>, name: Seq<char>, i: int) -> Option<int>
    decreases tags.len() - i,
{
    if i < 0 || i >= tags.len() {
        None
    } else if tags[i].name@ == name {
        Some(i)
    } else {
        tag_from(tags, name, i + 1)
    }
}

impl Repository {
    /// The changes that the current view had just before a change, or with it.
    pub fn graph_visibility_at_change(&self, change: ContentHash, inclusive: bool) -> (found: Result<
        Option<Vec<NodeId>>,
        RepositoryError,
    >)
        ensures
            match membership(*self, self.current_view@, change, inclusive) {
                Err(reason) => found matches Err(error) && reason.is_told_by(error),
                Ok(None) => found matches Ok(None),
                Ok(Some(ids)) => found matches Ok(Some(list)) && list@ == ids,
            },
    {
        let view: usize = match self.find_view(self.current_view.as_str()) {
            None => {
                return Err(RepositoryError::ViewNotFound { name: self.current_view.clone() });
            },
            Some(view) => view,
        };
        let id: NodeId = match self.pristine.get_internal(change) {
            None => {
                return Ok(None);
            },
            Some(id) => id,
        };
        match &self.views[view].visibility {
            Err(message) => Err(RepositoryError::Database(message.clone())),
            Ok(visibility) => match find_id(&visibility.changes, id) {
                None => Ok(None),
                Some(k) => {
                    let end: usize = if inclusive {
                        k + 1
                    } else {
                        k
                    };
                    Ok(Some(take_changes(&visibility.changes, end)))
                },
            },
        }
    }

    fn content_of_members(
        &self,
        path: &str,
        membership: Vec<NodeId>,
        visibility: Option<&Visibility>,
    ) -> (found: Result<Lookup, RepositoryError>)
        requires
            self.wf(),
        ensures
            members_looked_up(found, *self, path@, membership@, visibility),
    {
        match visibility {
            None => Ok(Lookup::NeedsVisibility { membership }),
            Some(shown) => {
                if !collections::same_list(&shown.changes, &membership) {
                    return Ok(Lookup::NeedsVisibility { membership });
                }
                let path: String = crate::paths::to_forward_slashes(path);
                look_up(self.get_materialized_entry_with_visibility(path.as_str(), shown))
            },
        }
    }

    fn content_at_change(
        &self,
        path: &str,
        change: ContentHash,
        inclusive: bool,
        visibility: Option<&Visibility>,
    ) -> (found: Result<Lookup, RepositoryError>)
        requires
            self.wf(),
        ensures
            lookup_told(
                found,
                *self,
                path@,
                membership(*self, self.current_view@, change, inclusive),
                visibility,
            ),
    {
        match self.graph_visibility_at_change(change, inclusive) {
            Err(error) => Err(error),
            Ok(None) => Ok(Lookup::Absent),
            Ok(Some(membership)) => self.content_of_members(path, membership, visibility),
        }
    }

    /// File content on the current view as it was before a change. Without the
    /// visibility of the changes before it, these are named.
    pub fn get_file_content_before_change(
        &self,
        path: &str,
        change: ContentHash,
        visibility: Option<&Visibility>,
    ) -> (found: Result<Lookup, RepositoryError>)
        requires
            self.wf(),
        ensures
            lookup_told(
                found,
                *self,
                path@,
                membership(*self, self.current_view@, change, false),
                visibility,
            ),
    {
        self.content_at_change(path, change, false, visibility)
    }

    /// File content on the current view as it was after a change.
    pub fn get_file_content_after_change(
        &self,
        path: &str,
        change: ContentHash,
        visibility: Option<&Visibility>,
    ) -> (found: Result<Lookup, RepositoryError>)
        requires
            self.wf(),
        ensures
            lookup_told(
                found,
                *self,
                path@,
                membership(*self, self.current_view@, change, true),
                visibility,
            ),
    {
        self.content_at_change(path, change, true, visibility)
    }

    /// File content on the current view without a change and what came after
    /// it: the state that the change was applied to. Where the view does not
    /// show the change there is nothing to leave out, and the content is that of
    /// the view.
    pub fn get_file_content_excluding(
        &self,
        path: &str,
        excluded: ContentHash,
        visibility: Option<&Visibility>,
    ) -> (found: Result<Lookup, RepositoryError>)
        requires
            self.wf(),
        ensures
            match membership(*self, self.current_view@, excluded, false) {
                Err(reason) => found matches Err(error) && reason.is_told_by(error),
                Ok(None) => entry_looked_up(
                    found,
                    entry_on_view(*self, path@, self.current_view@),
                ),
                Ok(Some(ids)) => members_looked_up(found, *self, path@, ids, visibility),
            },
    {
        match self.graph_visibility_at_change(excluded, false) {
            Err(error) => Err(error),
            Ok(None) => look_up(
                self.get_materialized_entry_on_view(path, self.current_view.as_str()),
            ),
            Ok(Some(membership)) => self.content_of_members(path, membership, visibility),
        }
    }

    /// File content on the current view after the first `max_sequence` changes of
    /// its log. Without the visibility of what these come to, that is named.
    pub fn get_file_content_at_sequence(
        &self,
        path: &str,
        max_sequence: u64,
        visibility: Option<&Visibility>,
    ) -> (found: Result<Lookup, RepositoryError>)
        requires
            self.wf(),
        ensures
            match self.view_at(self.current_view@) {
                None => found matches Err(RepositoryError::ViewNotFound { name }) && name@
                    == self.current_view@,
                Some(i) => match members_at_sequence(*self, self.views@[i], max_sequence) {
                    None => found matches Err(RepositoryError::Database(message)) && message@
                        == "dependency metadata is missing, incomplete or cyclic"@,
                    Some(ids) => members_looked_up(found, *self, path@, ids, visibility),
                },
            },
    {
        let view: usize = match self.find_view(self.current_view.as_str()) {
            None => {
                return Err(RepositoryError::ViewNotFound { name: self.current_view.clone() });
            },
            Some(view) => view,
        };
        let log: &Vec<NodeId> = &self.views[view].changes;
        let end: usize = if max_sequence < log.len() as u64 {
            max_sequence as usize
        } else {
            log.len()
        };
        match projection::close_members(&self.pristine, &take_changes(log, end)) {
            None => Err(
                RepositoryError::Database(
                    "dependency metadata is missing, incomplete or cyclic".to_owned(),
                ),
            ),
            Some(membership) => self.content_of_members(path, membership, visibility),
        }
    }

    /// Position of a file's content on the current view; nothing where there
    /// is no such file.
    pub open spec fn content_root(self, path: Seq<char>) -> Result<Option<Position>, EntryError> {
        match self.view_at(self.current_view@) {
            None => Err(EntryError::NoView { name: self.current_view@ }),
            Some(i) => match self.views@[i].visibility {
                Err(message) => Err(EntryError::Fault { message: message@ }),
                Ok(visibility) => match deferred_tree::projected_tree(
                    self.pristine@,
                    deferred_tree::op_models(self.journal@),
                    visibility,
                ) {
                    Err(refusal) => Err(EntryError::Projection { refusal }),
                    Ok(tree) => {
                        let at = crate::paths::forward_slashes(path);
                        if !tree.present.dom().contains(at) || tree.present[at].is_directory {
                            Ok(None)
                        } else {
                            Ok(tree.present[at].position)
                        }
                    },
                },
            },
        }
    }

    /// Position from which retrieval with options reads a file's content on
    /// the current view.
    pub fn get_file_content_with_options(&self, path: &str) -> (found: Result<
        Option<Position>,
        RepositoryError,
    >)
        requires
            self.wf(),
        ensures
            match self.content_root(path@) {
                Err(reason) => found matches Err(error) && reason.is_told_by(error),
                Ok(position) => found == Ok::<Option<Position>, RepositoryError>(position),
            },
    {
        let path: String = crate::paths::to_forward_slashes(path);
        let view: usize = match self.find_view(self.current_view.as_str()) {
            None => {
                return Err(RepositoryError::ViewNotFound { name: self.current_view.clone() });
            },
            Some(view) => view,
        };
        match &self.views[view].visibility {
            Err(message) => Err(RepositoryError::Database(message.clone())),
            Ok(visibility) => match self.project(visibility) {
                Err(error) => Err(error),
                Ok(tree) => match tree.present.get(path.as_str()) {
                    None => Ok(None),
                    Some(item) => if item.is_directory {
                        Ok(None)
                    } else {
                        Ok(item.position)
                    },
                },
            },
        }
    }

    /// Whether a tracked file has recorded content on the current view, given
    /// the positions for which retrieval found some.
    pub fn has_recorded_content(&self, path: &str, recorded: &Vec<Position>) -> (found: Result<
        bool,
        RepositoryError,
    >)
        requires
            self.wf(),
        ensures
            match self.content_root(path@) {
                Err(reason) => found matches Err(error) && reason.is_told_by(error),
                Ok(None) => found matches Ok(false),
                Ok(Some(position)) => found == Ok::<bool, RepositoryError>(
                    recorded@.contains(position),
                ),
            },
    {
        match self.get_file_content_with_options(path) {
            Err(error) => Err(error),
            Ok(None) => Ok(false),
            Ok(Some(position)) => Ok(collections::contains(recorded, position)),
        }
    }

    /// The archive request for a tag: the options with the tag's state.
    pub fn archive_tag(&self, tag_name: &str, options: ArchiveOptions) -> (request: Result<
        ArchiveOptions,
        RepositoryError,
    >)
        ensures
            match tag_from(self.tags@, tag_name@, 0) {
                None => request matches Err(RepositoryError::TagNotFound { name }) && name@
                    == tag_name@,
                Some(i) => request == Ok::<ArchiveOptions, RepositoryError>(
                    ArchiveOptions { state: Some(self.tags@[i].state), ..options },
                ),
            },
    {
        let mut i: usize = 0;
        while i < self.tags.len()
            invariant
                i <= self.tags.len(),
                tag_from(self.tags@, tag_name@, 0) == tag_from(self.tags@, tag_name@, i as int),
            decreases self.tags.len() - i,
        {
            if text::same(self.tags[i].name.as_str(), tag_name) {
                let mut request: ArchiveOptions = options;
                request.state = Some(self.tags[i].state);
                return Ok(request);
            }
            i = i + 1;
        }
        Err(RepositoryError::TagNotFound { name: tag_name.to_owned() })
    }
}

/// What a view had after a change is what it had before it and the change.
pub proof fn after_is_before_and_change(
    repo: Repository,
    view: Seq<char>,
    change: ContentHash,
)
    ensures
        match membership(repo, view, change, false) {
            Ok(Some(before)) => membership(repo, view, change, true) == Ok::<
                Option<Seq<NodeId>>,
                EntryError,
            >(Some(before.push(repo.pristine@.internal(change)->0))),
            Ok(None) => membership(repo, view, change, true) == Ok::<
                Option<Seq<NodeId>>,
                EntryError,
            >(None),
            Err(error) => membership(repo, view, change, true) == Err::<
                Option<Seq<NodeId>>,
                EntryError,
            >(error),
        },
{
    if let Ok(Some(before)) = membership(repo, view, change, false) {
        let shown = repo.views@[repo.view_at(view)->0].visibility->Ok_0.changes@;
        let id = repo.pristine@.internal(change)->0;
        shown.index_of_first_ensures(id);
        let k = shown.index_of_first(id)->0;
        assert(shown.take(k + 1) =~= shown.take(k).push(id));
    }
}

} // verus!
