//! What a file's content is read from.

use crate::content;
use crate::content::{EntryModel, Lookup};
use crate::deferred_tree;
use crate::deferred_tree::{ProjectionModel, TreeRefusal};
use crate::error::RepositoryError;
use crate::pristine::Visibility;
use crate::projection;
use crate::repository;
use crate::repository::{GraphEdge, GraphNode, Repository, ViewState};
use crate::types::{ContentHash, Inode, NodeId, Position};
use vstd::prelude::*;

verus! {

/// Whether content may come from a change: from the ROOT change, or from one
/// that is visible.
pub open spec fn counts(visibility: Visibility, change: NodeId) -> bool {
    change.0 == 0 || visibility.changes@.contains(change)
}

/// Whether an edge leads on from a node of an inode, as far as the visible
/// changes say.
pub open spec fn leads_on(
    edge: GraphEdge,
    inode: Inode,
    from: GraphNode,
    visibility: Visibility,
) -> bool {
    edge.inode == inode && edge.source == from && !edge.structural && counts(
        visibility,
        edge.introduced_by,
    )
}

/// Whether a visible edge from one node to another stands, or is deleted.
pub open spec fn joins(
    edges: Seq<GraphEdge>,
    inode: Inode,
    visibility: Visibility,
    from: GraphNode,
    to: GraphNode,
    deleted: bool,
) -> bool {
    counts(visibility, to.change) && exists|e: int|
        0 <= e < edges.len() && leads_on(#[trigger] edges[e], inode, from, visibility)
            && edges[e].dest == Some(to) && edges[e].deleted == deleted
}

/// Whether one node follows another: an edge between them stands, and none
/// between them is deleted.
pub open spec fn follows(
    edges: Seq<GraphEdge>,
    inode: Inode,
    visibility: Visibility,
    from: GraphNode,
    to: GraphNode,
) -> bool {
    joins(edges, inode, visibility, from, to, false) && !joins(
        edges,
        inode,
        visibility,
        from,
        to,
        true,
    )
}

/// Whether every edge that leads on from a node leads to some block.
pub open spec fn is_whole(
    edges: Seq<GraphEdge>,
    inode: Inode,
    visibility: Visibility,
    from: GraphNode,
) -> bool {
    forall|e: int|
        0 <= e < edges.len() && leads_on(#[trigger] edges[e], inode, from, visibility)
            ==> edges[e].dest is Some
}

/// Whether one node is all that follows another.
pub open spec fn only_follower(
    edges: Seq<GraphEdge>,
    inode: Inode,
    visibility: Visibility,
    from: GraphNode,
    next: GraphNode,
) -> bool {
    forall|to: GraphNode| #[trigger] follows(edges, inode, visibility, from, to) <==> to == next
}

/// Whether a list of nodes is the one way from its first to an end: every node
/// but the last has the next one as its only follower, and from the last no
/// edge leads on at all.
pub open spec fn is_chain(
    edges: Seq<GraphEdge>,
    inode: Inode,
    visibility: Visibility,
    nodes: Seq<GraphNode>,
) -> bool {
    &&& nodes.len() > 0
    &&& nodes.no_duplicates()
    &&& forall|k: int|
        0 <= k < nodes.len() ==> is_whole(edges, inode, visibility, #[trigger] nodes[k])
    &&& forall|k: int|
        0 <= k < nodes.len() - 1 ==> only_follower(
            edges,
            inode,
            visibility,
            #[trigger] nodes[k],
            nodes[k + 1],
        )
    &&& forall|to: GraphNode, deleted: bool|
        !(#[trigger] joins(edges, inode, visibility, nodes.last(), to, deleted))
}

/// The nodes of a list that hold content, in its order: an inode's marker and
/// the nodes of the ROOT change hold none.
pub open spec fn content_nodes(nodes: Seq<GraphNode>) -> Seq<GraphNode> {
    nodes.filter(|node: GraphNode| node.change.0 != 0 && node.start != node.end)
}

proof fn successors_are_sorted(
    edges: Seq<GraphEdge>,
    inode: Inode,
    from: GraphNode,
    visibility: Visibility,
    i: int,
    alive: Seq<GraphNode>,
    deleted: Seq<GraphNode>,
)
    requires
        0 <= i <= edges.len(),
        alive.no_duplicates(),
        forall|to: GraphNode|
            #![trigger alive.contains(to)]
            alive.contains(to) <==> joins(edges.take(i), inode, visibility, from, to, false),
        forall|to: GraphNode|
            #![trigger deleted.contains(to)]
            deleted.contains(to) <==> joins(edges.take(i), inode, visibility, from, to, true),
        is_whole(edges.take(i), inode, visibility, from),
    ensures
        content::successors_from(edges, inode, from, visibility, i, alive, deleted) is Ok
            <==> is_whole(edges, inode, visibility, from),
        content::successors_from(edges, inode, from, visibility, i, alive, deleted) matches Ok(
            (stand, gone),
        ) ==> {
            &&& stand.no_duplicates()
            &&& forall|to: GraphNode|
                #![trigger stand.contains(to)]
                stand.contains(to) <==> joins(edges, inode, visibility, from, to, false)
            &&& forall|to: GraphNode|
                #![trigger gone.contains(to)]
                gone.contains(to) <==> joins(edges, inode, visibility, from, to, true)
        },
    decreases edges.len() - i,
{
    if i == edges.len() {
        assert(edges.take(i) =~= edges);
    } else {
        let edge = edges[i];
        let head = edges.take(i);
        let next = edges.take(i + 1);
        assert(next =~= head.push(edge));
        let used = leads_on(edge, inode, from, visibility);
        assert forall|to: GraphNode, kind: bool| #[trigger]
            joins(next, inode, visibility, from, to, kind) <==> (joins(
                head,
                inode,
                visibility,
                from,
                to,
                kind,
            ) || (used && edge.dest == Some(to) && edge.deleted == kind && counts(
                visibility,
                to.change,
            ))) by {
            if joins(head, inode, visibility, from, to, kind) {
                let e = choose|e: int|
                    0 <= e < head.len() && leads_on(#[trigger] head[e], inode, from, visibility)
                        && head[e].dest == Some(to) && head[e].deleted == kind;
                assert(next[e] == head[e]);
            }
            if joins(next, inode, visibility, from, to, kind) {
                let e = choose|e: int|
                    0 <= e < next.len() && leads_on(#[trigger] next[e], inode, from, visibility)
                        && next[e].dest == Some(to) && next[e].deleted == kind;
                if e < i {
                    assert(head[e] == next[e]);
                }
            }
            assert(next[i] == edge);
        }
        if used && edge.dest is None {
            assert(leads_on(edges[i], inode, from, visibility));
            assert(!is_whole(edges, inode, visibility, from));
        } else {
            assert(is_whole(next, inode, visibility, from)) by {
                assert forall|e: int|
                    0 <= e < next.len() && leads_on(
                        #[trigger] next[e],
                        inode,
                        from,
                        visibility,
                    ) implies next[e].dest is Some by {
                    if e < i {
                        assert(head[e] == next[e]);
                    }
                }
            }
            let fits = used && counts(visibility, (edge.dest->0).change);
            let alive2 = if fits && !edge.deleted && !alive.contains(edge.dest->0) {
                alive.push(edge.dest->0)
            } else {
                alive
            };
            let deleted2 = if fits && edge.deleted {
                deleted.push(edge.dest->0)
            } else {
                deleted
            };
            assert forall|to: GraphNode| #[trigger] alive2.contains(to) <==> joins(
                next,
                inode,
                visibility,
                from,
                to,
                false,
            ) by {
                pushed_holds(alive, edge.dest->0, to);
                assert(alive.contains(to) <==> joins(head, inode, visibility, from, to, false));
            }
            assert forall|to: GraphNode| #[trigger] deleted2.contains(to) <==> joins(
                next,
                inode,
                visibility,
                from,
                to,
                true,
            ) by {
                pushed_holds(deleted, edge.dest->0, to);
                assert(deleted.contains(to) <==> joins(head, inode, visibility, from, to, true));
            }
            successors_are_sorted(edges, inode, from, visibility, i + 1, alive2, deleted2);
        }
    }
}

proof fn pushed_holds<T>(list: Seq<T>, last: T, x: T)
    ensures
        list.push(last).contains(x) <==> list.contains(x) || x == last,
{
    if list.contains(x) {
        let at = list.index_of(x);
        assert(list.push(last)[at] == x);
    }
    if x == last {
        assert(list.push(last)[list.len() as int] == x);
    }
    if list.push(last).contains(x) && x != last {
        let at = list.push(last).index_of(x);
        assert(list[at] == x);
    }
}

/// What the step from a node is, in terms of its followers.
proof fn step_is_exact(
    edges: Seq<GraphEdge>,
    inode: Inode,
    from: GraphNode,
    visibility: Visibility,
)
    ensures
        match content::successors_from(
            edges,
            inode,
            from,
            visibility,
            0,
            Seq::empty(),
            Seq::empty(),
        ) {
            Err(_) => !is_whole(edges, inode, visibility, from),
            Ok((alive, deleted)) => is_whole(edges, inode, visibility, from)
                && match content::linear_step(alive, deleted) {
                content::LinearStep::Follow(next) => only_follower(
                    edges,
                    inode,
                    visibility,
                    from,
                    next,
                ),
                content::LinearStep::End => forall|to: GraphNode, kind: bool|
                    !(#[trigger] joins(edges, inode, visibility, from, to, kind)),
                content::LinearStep::Bail => {
                    &&& exists|to: GraphNode, kind: bool| #[trigger]
                        joins(edges, inode, visibility, from, to, kind)
                    &&& forall|next: GraphNode|
                        !(#[trigger] only_follower(edges, inode, visibility, from, next))
                },
            },
        },
{
    broadcast use vstd::seq_lib::group_filter_ensures;

    assert(edges.take(0).len() == 0);
    successors_are_sorted(edges, inode, from, visibility, 0, Seq::empty(), Seq::empty());
    if let Ok((alive, deleted)) = content::successors_from(
        edges,
        inode,
        from,
        visibility,
        0,
        Seq::empty(),
        Seq::empty(),
    ) {
        let keep = |node: GraphNode| !deleted.contains(node);
        let live = alive.filter(keep);
        kept_once(alive, keep);
        assert forall|to: GraphNode| #[trigger] live.contains(to) <==> follows(
            edges,
            inode,
            visibility,
            from,
            to,
        ) by {
            assert(alive.contains(to) <==> joins(edges, inode, visibility, from, to, false));
            assert(deleted.contains(to) <==> joins(edges, inode, visibility, from, to, true));
            kept_holds(alive, keep, to);
        }
        match content::linear_step(alive, deleted) {
            content::LinearStep::Follow(next) => {
                assert forall|to: GraphNode| #[trigger]
                    follows(edges, inode, visibility, from, to) <==> to == next by {
                    assert(live.contains(to) <==> follows(edges, inode, visibility, from, to));
                    if live.contains(to) {
                        let at = live.index_of(to);
                        assert(live[at] == to);
                    }
                    assert(live[0] == next);
                    assert(live.contains(next));
                }
            },
            content::LinearStep::End => {
                assert forall|to: GraphNode, kind: bool|
                    !(#[trigger] joins(edges, inode, visibility, from, to, kind)) by {
                    assert(alive.contains(to) <==> joins(edges, inode, visibility, from, to, false));
                    assert(deleted.contains(to) <==> joins(edges, inode, visibility, from, to, true));
                    kept_holds(alive, keep, to);
                }
            },
            content::LinearStep::Bail => {
                if live.len() == 0 {
                    assert(deleted.contains(deleted[0]));
                    assert(joins(edges, inode, visibility, from, deleted[0], true));
                } else {
                    assert(live.contains(live[0]));
                    assert(follows(edges, inode, visibility, from, live[0]));
                    assert(joins(edges, inode, visibility, from, live[0], false));
                }
                assert forall|next: GraphNode|
                    !(#[trigger] only_follower(edges, inode, visibility, from, next)) by {
                    if live.len() == 0 {
                        assert(!live.contains(next));
                        assert(follows(edges, inode, visibility, from, next) != (next == next));
                    } else {
                        assert(live.contains(live[0]));
                        assert(live.contains(live[1]));
                        assert(live[0] != live[1]);
                        assert(follows(edges, inode, visibility, from, live[0]));
                        assert(follows(edges, inode, visibility, from, live[1]));
                    }
                }
            },
        }
    }
}

proof fn kept_holds<T>(list: Seq<T>, keep: spec_fn(T) -> bool, x: T)
    ensures
        list.filter(keep).contains(x) <==> list.contains(x) && keep(x),
    decreases list.len(),
{
    reveal(Seq::filter);
    if list.len() > 0 {
        let rest = list.drop_last();
        kept_holds(rest, keep, x);
        pushed_holds(rest, list.last(), x);
        pushed_holds(rest.filter(keep), list.last(), x);
        assert(list =~= rest.push(list.last()));
    }
}

proof fn kept_once<T>(list: Seq<T>, keep: spec_fn(T) -> bool)
    requires
        list.no_duplicates(),
    ensures
        list.filter(keep).no_duplicates(),
    decreases list.len(),
{
    reveal(Seq::filter);
    if list.len() > 0 {
        let rest = list.drop_last();
        kept_once(rest, keep);
        kept_holds(rest, keep, list.last());
        assert(!rest.contains(list.last()));
        let kept = rest.filter(keep);
        let more = kept.push(list.last());
        assert forall|i: int, j: int| 0 <= i < j < more.len() implies more[i] != more[j] by {
            if j == kept.len() {
                assert(kept.contains(kept[i]));
            }
        }
    }
}

/// The part of the walk from the `k`-th node of a chain on.
proof fn walked_chain(
    edges: Seq<GraphEdge>,
    inode: Inode,
    position: Position,
    visibility: Visibility,
    visited: Seq<GraphNode>,
    current: GraphNode,
)
    requires
        visited.push(current)[0] == content::marker(position),
        visited.push(current).no_duplicates(),
        forall|k: int|
            0 <= k < visited.len() ==> is_whole(edges, inode, visibility, #[trigger] visited[k]),
        forall|k: int|
            0 <= k < visited.len() ==> only_follower(
                edges,
                inode,
                visibility,
                #[trigger] visited[k],
                visited.push(current)[k + 1],
            ),
    ensures
        content::walk(
            edges,
            inode,
            visibility,
            current,
            visited,
            content_nodes(visited.push(current)),
        ) matches Ok(Some(list)) ==> exists|nodes: Seq<GraphNode>| #[trigger]
            is_chain(edges, inode, visibility, nodes) && nodes[0] == content::marker(position)
                && list == content_nodes(nodes),
    decreases edges.len() + 1 - visited.len(),
{
    let so_far = visited.push(current);
    let spans = content_nodes(so_far);
    step_is_exact(edges, inode, current, visibility);
    if visited.contains(current) || visited.len() > edges.len() {
    } else if let Ok((alive, deleted)) = content::successors_from(
        edges,
        inode,
        current,
        visibility,
        0,
        Seq::empty(),
        Seq::empty(),
    ) {
        match content::linear_step(alive, deleted) {
            content::LinearStep::Bail => {},
            content::LinearStep::End => {
                assert(so_far.last() == current);
                assert forall|k: int| 0 <= k < so_far.len() - 1 implies only_follower(
                    edges,
                    inode,
                    visibility,
                    #[trigger] so_far[k],
                    so_far[k + 1],
                ) by {
                    assert(so_far[k] == visited[k]);
                }
                assert forall|k: int| 0 <= k < so_far.len() implies is_whole(
                    edges,
                    inode,
                    visibility,
                    #[trigger] so_far[k],
                ) by {
                    if k < visited.len() {
                        assert(so_far[k] == visited[k]);
                    }
                }
                assert(is_chain(edges, inode, visibility, so_far));
            },
            content::LinearStep::Follow(next) => {
                reveal(Seq::filter);
                assert(so_far.push(next).drop_last() =~= so_far);
                let grown = if content::holds_content(next) {
                    spans.push(next)
                } else {
                    spans
                };
                assert(grown == content_nodes(so_far.push(next)));
                if so_far.contains(next) {
                    assert(content::walk(edges, inode, visibility, next, so_far, grown) is Ok);
                } else {
                    assert forall|k: int| 0 <= k < so_far.len() implies is_whole(
                        edges,
                        inode,
                        visibility,
                        #[trigger] so_far[k],
                    ) by {
                        if k < visited.len() {
                            assert(so_far[k] == visited[k]);
                        }
                    }
                    assert forall|k: int| 0 <= k < so_far.len() implies only_follower(
                        edges,
                        inode,
                        visibility,
                        #[trigger] so_far[k],
                        so_far.push(next)[k + 1],
                    ) by {
                        if k < visited.len() {
                            assert(so_far[k] == visited[k]);
                            assert(so_far.push(next)[k + 1] == so_far[k + 1]);
                        }
                    }
                    walked_chain(edges, inode, position, visibility, so_far, next);
                }
            },
        }
    }
}

/// Where a file's spans are read in line, they are the content of the one way
/// from the inode's marker to its end, in the order of that way.
pub proof fn linear_spans_are_the_chain(
    edges: Seq<GraphEdge>,
    inode: Inode,
    position: Position,
    visibility: Visibility,
)
    ensures
        content::linear_spans(edges, inode, position, visibility) matches Ok(Some(list))
            ==> exists|nodes: Seq<GraphNode>| #[trigger]
            is_chain(edges, inode, visibility, nodes) && nodes[0] == (GraphNode {
                change: position.change,
                start: position.pos,
                end: position.pos,
            }) && list == content_nodes(nodes),
{
    reveal_with_fuel(Seq::filter, 2);
    let start = content::marker(position);
    let none = Seq::<GraphNode>::empty();
    assert(none.push(start).drop_last() =~= none);
    assert(content_nodes(none.push(start)) =~= none);
    walked_chain(edges, inode, position, visibility, none, start);
}


proof fn chain_is_walked(
    edges: Seq<GraphEdge>,
    inode: Inode,
    position: Position,
    visibility: Visibility,
    nodes: Seq<GraphNode>,
    k: int,
)
    requires
        is_chain(edges, inode, visibility, nodes),
        nodes[0] == content::marker(position),
        nodes.len() <= edges.len() + 1,
        0 <= k < nodes.len(),
    ensures
        content::walk(
            edges,
            inode,
            visibility,
            nodes[k],
            nodes.take(k),
            content_nodes(nodes.take(k + 1)),
        ) == Ok::<Option<Seq<GraphNode>>, content::ContentFault>(Some(content_nodes(nodes))),
    decreases nodes.len() - k,
{
    reveal(Seq::filter);
    step_is_exact(edges, inode, nodes[k], visibility);
    if nodes.take(k).contains(nodes[k]) {
        let j = nodes.take(k).index_of(nodes[k]);
        assert(nodes[j] == nodes[k]);
    }
    if k == nodes.len() - 1 {
        assert(nodes.take(k + 1) =~= nodes);
        assert(nodes[k] == nodes.last());
        let (alive, deleted) = content::successors_from(
            edges,
            inode,
            nodes[k],
            visibility,
            0,
            Seq::empty(),
            Seq::empty(),
        )->Ok_0;
        if let content::LinearStep::Follow(to) = content::linear_step(alive, deleted) {
            assert(follows(edges, inode, visibility, nodes[k], to));
            assert(joins(edges, inode, visibility, nodes.last(), to, false));
        }
        assert(content::linear_step(alive, deleted) is End);
    } else {
        let next = nodes[k + 1];
        assert(only_follower(edges, inode, visibility, nodes[k], next));
        assert(follows(edges, inode, visibility, nodes[k], next));
        assert(joins(edges, inode, visibility, nodes[k], next, false));
        assert(nodes.take(k + 2).drop_last() =~= nodes.take(k + 1));
        assert(nodes.take(k + 1) =~= nodes.take(k).push(nodes[k]));
        chain_is_walked(edges, inode, position, visibility, nodes, k + 1);
    }
}

/// A file with one way from its marker to its end has the content of that way
/// as its spans, in the order of that way.
pub proof fn chains_are_read(
    edges: Seq<GraphEdge>,
    inode: Inode,
    position: Position,
    visibility: Visibility,
    nodes: Seq<GraphNode>,
)
    requires
        is_chain(edges, inode, visibility, nodes),
        nodes[0] == (GraphNode {
            change: position.change,
            start: position.pos,
            end: position.pos,
        }),
    ensures
        content::linear_spans(edges, inode, position, visibility) == Ok::<
            Option<Seq<GraphNode>>,
            content::ContentFault,
        >(Some(content_nodes(nodes))),
{
    reveal_with_fuel(Seq::filter, 2);
    assert forall|k: int| 0 <= k < nodes.len() implies content::known_node(
        edges,
        position,
        #[trigger] nodes[k],
    ) by {
        if k > 0 {
            let from = nodes[k - 1];
            assert(only_follower(edges, inode, visibility, nodes[k - 1], nodes[k]));
            assert(follows(edges, inode, visibility, from, nodes[k]));
            let e = choose|e: int|
                0 <= e < edges.len() && leads_on(#[trigger] edges[e], inode, from, visibility)
                    && edges[e].dest == Some(nodes[k]) && edges[e].deleted == false;
            assert(edges[e].dest == Some(nodes[k]));
        }
    }
    content::known_nodes_are_few(edges, position, nodes);
    chain_is_walked(edges, inode, position, visibility, nodes, 0);
    assert(nodes.take(0) =~= Seq::empty());
    assert(nodes.take(1).drop_last() =~= Seq::empty());
    assert(content_nodes(nodes.take(1)) =~= Seq::empty());
}

/// The bytes that a node stands for: the part from its start to its end of
/// what the change of its number holds in the store.
pub open spec fn bytes_at(repo: Repository, node: GraphNode) -> Option<Seq<u8>> {
    match repo.pristine@.external(node.change) {
        None => None,
        Some(hash) => match repo.change_at(hash) {
            None => None,
            Some(c) => if node.start <= node.end <= repo.changes@[c].contents@.len() {
                Some(repo.changes@[c].contents@.subrange(node.start as int, node.end as int))
            } else {
                None
            },
        },
    }
}

proof fn spans_are_joined(
    repo: Repository,
    spans: Seq<GraphNode>,
    parts: Seq<Seq<u8>>,
    i: int,
    so_far: Seq<u8>,
)
    requires
        0 <= i <= spans.len(),
        parts.len() == spans.len(),
        forall|k: int|
            0 <= k < spans.len() ==> bytes_at(repo, #[trigger] spans[k]) == Some(parts[k]),
    ensures
        content::bytes_from(repo, spans, i, so_far) == Ok::<Seq<u8>, content::ContentFault>(
            so_far + parts.skip(i).flatten(),
        ),
    decreases spans.len() - i,
{
    if i == spans.len() {
        assert(parts.skip(i) =~= Seq::empty());
        assert(so_far + parts.skip(i).flatten() =~= so_far);
    } else {
        assert(bytes_at(repo, spans[i]) == Some(parts[i]));
        spans_are_joined(repo, spans, parts, i + 1, so_far + parts[i]);
        assert(parts.skip(i).drop_first() =~= parts.skip(i + 1));
        assert(parts.skip(i).first() == parts[i]);
        assert(so_far + parts.skip(i).flatten() =~= so_far + parts[i] + parts.skip(i + 1).flatten());
    }
}

/// A file that a view shows and that has one way from its marker to its end is
/// read as the bytes of that way's spans, one after the other.
pub proof fn files_are_read_along_their_chain(
    repo: Repository,
    path: Seq<char>,
    visibility: Visibility,
    tree: ProjectionModel,
    nodes: Seq<GraphNode>,
    parts: Seq<Seq<u8>>,
)
    requires
        deferred_tree::projected_tree(
            repo.pristine@,
            deferred_tree::op_models(repo.journal@),
            visibility,
        ) == Ok::<ProjectionModel, TreeRefusal>(tree),
        tree.present.dom().contains(path),
        !tree.present[path].is_directory,
        tree.present[path].position matches Some(position) && (position.change.0 != 0
            || position.pos != 0) && nodes[0] == (GraphNode {
            change: position.change,
            start: position.pos,
            end: position.pos,
        }),
        is_chain(repo.edges@, tree.present[path].inode, visibility, nodes),
        parts.len() == content_nodes(nodes).len(),
        forall|k: int|
            0 <= k < parts.len() ==> bytes_at(repo, #[trigger] content_nodes(nodes)[k]) == Some(
                parts[k],
            ),
    ensures
        content::entry_under(repo, path, visibility) == Ok::<EntryModel, content::EntryError>(
            EntryModel::Present { inode: tree.present[path].inode, bytes: parts.flatten() },
        ),
{
    let position = tree.present[path].position->0;
    chains_are_read(repo.edges@, tree.present[path].inode, position, visibility, nodes);
    spans_are_joined(repo, content_nodes(nodes), parts, 0, Seq::empty());
    assert(parts.skip(0) =~= parts);
    assert(Seq::<u8>::empty() + parts.flatten() =~= parts.flatten());
}

/// Whatever is read in line is what some way from the marker to its end holds:
/// its spans' bytes, one after the other.
pub proof fn content_is_that_of_a_chain(
    repo: Repository,
    inode: Inode,
    position: Position,
    visibility: Visibility,
)
    requires
        position.change.0 != 0 || position.pos != 0,
    ensures
        content::linear_content(repo, inode, position, visibility) matches Ok(Some(bytes))
            ==> exists|nodes: Seq<GraphNode>, parts: Seq<Seq<u8>>|
            #![trigger is_chain(repo.edges@, inode, visibility, nodes), parts.flatten()]
            is_chain(repo.edges@, inode, visibility, nodes) && nodes[0] == (GraphNode {
                change: position.change,
                start: position.pos,
                end: position.pos,
            }) && parts.len() == content_nodes(nodes).len() && bytes == parts.flatten() && forall|
                k: int,
            |
                0 <= k < parts.len() ==> bytes_at(repo, #[trigger] content_nodes(nodes)[k])
                    == Some(parts[k]),
{
    if let Ok(Some(bytes)) = content::linear_content(repo, inode, position, visibility) {
        linear_spans_are_the_chain(repo.edges@, inode, position, visibility);
        let spans = content::linear_spans(repo.edges@, inode, position, visibility)->Ok_0->0;
        let nodes = choose|nodes: Seq<GraphNode>| #[trigger]
            is_chain(repo.edges@, inode, visibility, nodes) && nodes[0] == (GraphNode {
                change: position.change,
                start: position.pos,
                end: position.pos,
            }) && spans == content_nodes(nodes);
        let parts = spans.map_values(|node: GraphNode| bytes_at(repo, node)->0);
        read_spans_are_there(repo, spans, 0, Seq::empty());
        spans_are_joined(repo, spans, parts, 0, Seq::empty());
        assert(parts.skip(0) =~= parts);
        assert(Seq::<u8>::empty() + parts.flatten() =~= parts.flatten());
    }
}

proof fn read_spans_are_there(repo: Repository, spans: Seq<GraphNode>, i: int, so_far: Seq<u8>)
    requires
        0 <= i <= spans.len(),
        content::bytes_from(repo, spans, i, so_far) is Ok,
    ensures
        forall|k: int| i <= k < spans.len() ==> bytes_at(repo, #[trigger] spans[k]) is Some,
    decreases spans.len() - i,
{
    if i < spans.len() {
        let bytes = bytes_at(repo, spans[i])->0;
        read_spans_are_there(repo, spans, i + 1, so_far + bytes);
    }
}

/// A path has content under a visibility exactly when the projected tree shows
/// a file there that can be read; a directory and a path that the tree does not
/// show have none, and a file's absence is told with its inode.
pub proof fn only_shown_files_have_content(
    repo: Repository,
    path: Seq<char>,
    visibility: Visibility,
    tree: ProjectionModel,
    entry: EntryModel,
)
    requires
        deferred_tree::projected_tree(
            repo.pristine@,
            deferred_tree::op_models(repo.journal@),
            visibility,
        ) == Ok::<ProjectionModel, TreeRefusal>(tree),
        content::entry_under(repo, path, visibility) == Ok::<EntryModel, content::EntryError>(entry),
    ensures
        entry is Present <==> tree.present.dom().contains(path) && !tree.present[path].is_directory
            && tree.present[path].position is Some,
        entry matches EntryModel::Present { inode, .. } ==> inode == tree.present[path].inode,
        entry matches EntryModel::Absent { inode } ==> inode == (if tree.present.dom().contains(
            path,
        ) {
            Some(tree.present[path].inode)
        } else if tree.absent.dom().contains(path) {
            Some(tree.absent[path])
        } else {
            None
        }),
{
}

/// What a view had before a change: the changes that it shows ahead of it, none
/// of which is the change itself; what comes after plays no part.
pub proof fn history_ends_at_the_change(
    repo: Repository,
    view: Seq<char>,
    change: ContentHash,
    inclusive: bool,
    members: Seq<NodeId>,
)
    requires
        content::membership(repo, view, change, inclusive) == Ok::<
            Option<Seq<NodeId>>,
            content::EntryError,
        >(Some(members)),
    ensures
        repo.view_at(view) matches Some(v) && repo.views@[v].visibility matches Ok(shown)
            && repo.pristine@.internal(change) matches Some(id) && ({
            let before = if inclusive {
                members.len() - 1
            } else {
                members.len() as int
            };
            &&& 0 <= before < shown.changes@.len()
            &&& shown.changes@[before] == id
            &&& forall|k: int| 0 <= k < before ==> (#[trigger] members[k]) == shown.changes@[k]
                && members[k] != id
            &&& inclusive ==> members.last() == id
        }),
{
    let shown = repo.views@[repo.view_at(view)->0].visibility->Ok_0;
    let id = repo.pristine@.internal(change)->0;
    shown.changes@.index_of_first_ensures(id);
}


/// What reading a path on a view gives: nothing where the view shows no file at
/// the path with its backslashes turned, the file's bytes where it shows one
/// that can be read, and an error that names the view where there is none.
pub proof fn reading_gives_what_the_view_shows(
    found: Result<Option<Vec<u8>>, RepositoryError>,
    repo: Repository,
    path: Seq<char>,
    view: Seq<char>,
    asked: Seq<char>,
    tree: ProjectionModel,
)
    requires
        content::content_told(found, content::entry_on_view(repo, path, view)),
        asked.len() == path.len(),
        forall|k: int|
            0 <= k < path.len() ==> #[trigger] asked[k] == (if path[k] == '\\' {
                '/'
            } else {
                path[k]
            }),
        repo.view_at(view) matches Some(v) ==> (repo.views@[v].visibility matches Ok(shown)
            ==> deferred_tree::projected_tree(
            repo.pristine@,
            deferred_tree::op_models(repo.journal@),
            shown,
        ) == Ok::<ProjectionModel, TreeRefusal>(tree)),
    ensures
        match repo.view_at(view) {
            None => found matches Err(RepositoryError::ViewNotFound { name }) && name@ == view,
            Some(v) => match repo.views@[v].visibility {
                Err(cause) => found matches Err(RepositoryError::Database(message)) && message@
                    == cause@,
                Ok(shown) => {
                    let file = tree.present.dom().contains(asked)
                        && !tree.present[asked].is_directory && tree.present[asked].position
                        is Some;
                    &&& !file ==> (found matches Ok(None))
                    &&& file ==> match content::file_bytes(
                        repo,
                        tree.present[asked].inode,
                        tree.present[asked].position->0,
                        shown,
                    ) {
                        Ok((bytes, _)) => found matches Ok(Some(content)) && content@ == bytes,
                        Err(cause) => found matches Err(RepositoryError::Database(message))
                            && message@ == cause,
                    }
                },
            },
        },
{
    assert(crate::paths::forward_slashes(path) =~= asked);
}

/// A file without one way through its graph is what the full walk rendered for
/// its position; one with such a way never is.
pub proof fn forked_files_are_read_as_rendered(
    repo: Repository,
    inode: Inode,
    position: Position,
    visibility: Visibility,
    k: int,
)
    requires
        content::linear_content(repo, inode, position, visibility) == Ok::<
            Option<Seq<u8>>,
            content::ContentFault,
        >(None),
        0 <= k < visibility.rendered@.len(),
        visibility.rendered@[k].position == position,
        forall|j: int| 0 <= j < k ==> (#[trigger] visibility.rendered@[j]).position != position,
    ensures
        match visibility.rendered@[k].content {
            Ok(bytes) => content::file_bytes(repo, inode, position, visibility) == Ok::<
                (Seq<u8>, bool),
                Seq<char>,
            >((bytes@, visibility.rendered@[k].had_fork)),
            Err(cause) => content::file_bytes(repo, inode, position, visibility) == Err::<
                (Seq<u8>, bool),
                Seq<char>,
            >(cause@),
        },
{
    rendering_is_found(visibility, position, 0, k);
}

proof fn rendering_is_found(visibility: Visibility, position: Position, i: int, k: int)
    requires
        0 <= i <= k < visibility.rendered@.len(),
        visibility.rendered@[k].position == position,
        forall|j: int| i <= j < k ==> (#[trigger] visibility.rendered@[j]).position != position,
    ensures
        content::rendered_from(visibility.rendered@, position, i) == Some(k),
    decreases k - i,
{
    if i < k {
        rendering_is_found(visibility, position, i + 1, k);
    }
}

/// What a lookup at a change gives: nothing where the view does not show the
/// change, the changes up to it where what they show is not at hand, and else
/// what a path has under exactly these changes.
pub proof fn lookups_give_history(
    found: Result<Lookup, RepositoryError>,
    repo: Repository,
    path: Seq<char>,
    view: Seq<char>,
    change: ContentHash,
    inclusive: bool,
    visibility: Option<&Visibility>,
)
    requires
        content::lookup_told(
            found,
            repo,
            path,
            content::membership(repo, view, change, inclusive),
            visibility,
        ),
        repo.view_at(view) is Some,
        repo.views@[repo.view_at(view)->0].visibility is Ok,
    ensures
        ({
            let shown = repo.views@[repo.view_at(view)->0].visibility->Ok_0.changes@;
            let id = repo.pristine@.internal(change);
            &&& id is None || !shown.contains(id->0) ==> (found matches Ok(Lookup::Absent))
            &&& id is Some && shown.contains(id->0) ==> exists|n: int|
                0 <= n < shown.len() && #[trigger] shown[n] == id->0 && !shown.take(n).contains(
                    id->0,
                ) && ({
                    let members = shown.take(
                        if inclusive {
                            n + 1
                        } else {
                            n
                        },
                    );
                    if visibility is Some && visibility->0.changes@ == members {
                        match content::entry_under(
                            repo,
                            crate::paths::forward_slashes(path),
                            *visibility->0,
                        ) {
                            Ok(EntryModel::Present { bytes, .. }) => found matches Ok(
                                Lookup::Content { bytes: content },
                            ) && content@ == bytes,
                            Ok(EntryModel::Absent { .. }) => found matches Ok(Lookup::Absent),
                            Err(_) => found is Err,
                        }
                    } else {
                        found matches Ok(Lookup::NeedsVisibility { membership }) && membership@
                            == members
                    }
                })
        }),
{
    let shown = repo.views@[repo.view_at(view)->0].visibility->Ok_0.changes@;
    if let Some(id) = repo.pristine@.internal(change) {
        shown.index_of_first_ensures(id);
        if shown.contains(id) {
            let n = shown.index_of_first(id)->0;
            if shown.take(n).contains(id) {
                let k = shown.take(n).index_of(id);
                assert(shown[k] == id);
            }
            assert(shown[n] == id);
        }
    }
}

/// What the first changes of a log come to is their closure: all of them,
/// everything they depend on, dependencies first, and nothing else.
pub proof fn sequences_are_closed(
    repo: Repository,
    view: ViewState,
    max_sequence: u64,
    list: Seq<NodeId>,
)
    requires
        content::members_at_sequence(repo, view, max_sequence) == Some(list),
    ensures
        exists|first: Seq<NodeId>|
            first.is_prefix_of(view.changes@) && (first.len() == max_sequence || first
                == view.changes@ && first.len() < max_sequence)
                && #[trigger] projection::is_closure(repo.pristine@, first, list),
{
    let log = view.changes@;
    let first = log.take(
        if max_sequence < log.len() {
            max_sequence as int
        } else {
            log.len() as int
        },
    );
    projection::closure_from_is_closed(repo.pristine@, first, 0, Seq::empty());
    assert(log.take(log.len() as int) =~= log);
    assert(first.is_prefix_of(log));
}

/// A tag is archived at the state that the first tag of its name has.
pub proof fn tags_are_found(tags: Seq<repository::Tag>, name: Seq<char>, i: int)
    requires
        0 <= i <= tags.len(),
    ensures
        match content::tag_from(tags, name, i) {
            Some(k) => i <= k < tags.len() && tags[k].name@ == name && forall|j: int|
                i <= j < k ==> (#[trigger] tags[j]).name@ != name,
            None => forall|j: int| i <= j < tags.len() ==> (#[trigger] tags[j]).name@ != name,
        },
    decreases tags.len() - i,
{
    if i < tags.len() && tags[i].name@ != name {
        tags_are_found(tags, name, i + 1);
    }
}

/// A file's content starts where the view has the file, whichever way its
/// slashes are written; a directory, and a path that the view does not show,
/// have none. The file whose content starts at the root is empty.
pub proof fn content_starts_where_the_file_is(
    repo: Repository,
    i: int,
    visibility: Visibility,
    tree: ProjectionModel,
    path: Seq<char>,
    given: Seq<char>,
    inode: Inode,
)
    requires
        repo.view_at(repo.current_view@) == Some(i),
        repo.views@[i].visibility == Ok::<Visibility, String>(visibility),
        deferred_tree::projected_tree(
            repo.pristine@,
            deferred_tree::op_models(repo.journal@),
            visibility,
        ) == Ok::<ProjectionModel, TreeRefusal>(tree),
        given.len() == path.len(),
        !path.contains('\\'),
        forall|k: int|
            0 <= k < path.len() ==> (#[trigger] given[k] == path[k] || (given[k] == '\\' && path[k]
                == '/')),
    ensures
        tree.present.dom().contains(path) && !tree.present[path].is_directory
            ==> repo.content_root(given) == Ok::<Option<Position>, content::EntryError>(
            tree.present[path].position,
        ),
        !tree.present.dom().contains(path) || tree.present[path].is_directory ==> repo.content_root(
            given,
        ) == Ok::<Option<Position>, content::EntryError>(None),
        content::linear_content(repo, inode, Position { change: NodeId(0), pos: 0 }, visibility)
            == Ok::<Option<Seq<u8>>, content::ContentFault>(Some(Seq::empty())),
{
    assert(crate::paths::forward_slashes(given) =~= path) by {
        assert forall|k: int| 0 <= k < path.len() implies crate::paths::forward_slashes(given)[k]
            == path[k] by {
            assert(given[k] == path[k] || (given[k] == '\\' && path[k] == '/'));
            if path[k] == '\\' {
                assert(path.contains(path[k]));
            }
        }
    }
}

} // verus!
