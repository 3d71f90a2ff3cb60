//! Graphs without a way back: when no walk along the references of a graph
//! comes to a node twice, its resolution never runs out of depth. So
//! [`SceneError::Cycle`] is reported only of graphs that lead back into
//! themselves, and a graph that does not, with every reference in range,
//! resolves.
use crate::loader::scene_depth;
use crate::voxel_scene::{
    accumulated_name, name_view, resolve_child, resolve_children, resolve_node, SceneError,
    SceneNode,
};
use vstd::prelude::*;
use vstd::set_lib::{lemma_int_range, lemma_len_subset, set_int_range};

verus! {

/// The node at place `i` names the node at place `j`: as the child of a
/// transform node, or as one of the children of a group.
pub open spec fn refers(graph: Seq<SceneNode>, i: int, j: int) -> bool {
    match graph[i] {
        SceneNode::Transform { child, .. } => child == j,
        SceneNode::Group { children } => exists|k: int|
            0 <= k < children@.len() && #[trigger] children@[k] == j,
        SceneNode::Shape { .. } => false,
    }
}

/// A walk: places of the graph, each named by the one before it.
pub open spec fn is_walk(graph: Seq<SceneNode>, walk: Seq<int>) -> bool {
    &&& walk.len() > 0
    &&& forall|k: int| 0 <= k < walk.len() ==> 0 <= #[trigger] walk[k] < graph.len()
    &&& forall|k: int| 0 <= k < walk.len() - 1 ==> refers(graph, #[trigger] walk[k], walk[k + 1])
}

/// No walk that starts at `start` comes to a place twice.
pub open spec fn no_walk_repeats(graph: Seq<SceneNode>, start: int) -> bool {
    forall|walk: Seq<int>| #[trigger]
        is_walk(graph, walk) && walk[0] == start ==> walk.no_duplicates()
}

/// Every reference in the graph names a node that the graph has.
pub open spec fn references_in_range(graph: Seq<SceneNode>) -> bool {
    forall|i: int, j: int|
        0 <= i < graph.len() && #[trigger] refers(graph, i, j) ==> 0 <= j < graph.len()
}

/// The outcome is not the report of a way back, and it is a success when
/// every reference is in range.
pub open spec fn runs_through<T>(graph: Seq<SceneNode>, outcome: Result<T, SceneError>) -> bool {
    &&& outcome matches Err(e) ==> !(e is Cycle)
    &&& references_in_range(graph) ==> outcome is Ok
}

/// A walk that comes to no place twice has no more places than the graph.
proof fn lemma_walk_is_short(graph: Seq<SceneNode>, walk: Seq<int>)
    requires
        is_walk(graph, walk),
        walk.no_duplicates(),
    ensures
        walk.len() <= graph.len(),
{
    let all = set_int_range(0, graph.len() as int);
    lemma_int_range(0, graph.len() as int);
    walk.unique_seq_to_set();
    assert forall|i: int| walk.to_set().contains(i) implies all.contains(i) by {
        let k = choose|k: int| 0 <= k < walk.len() && walk[k] == i;
        assert(0 <= walk[k] < graph.len());
    }
    lemma_len_subset(walk.to_set(), all);
}

/// A walk with one more place that its last place names is a walk.
proof fn lemma_walk_push(graph: Seq<SceneNode>, walk: Seq<int>, next: int)
    requires
        is_walk(graph, walk),
        refers(graph, walk.last(), next),
        0 <= next < graph.len(),
    ensures
        is_walk(graph, walk.push(next)),
        walk.push(next)[0] == walk[0],
        walk.push(next).last() == next,
{
    let longer = walk.push(next);
    assert forall|k: int| 0 <= k < longer.len() - 1 implies refers(
        graph,
        #[trigger] longer[k],
        longer[k + 1],
    ) by {
        if k < walk.len() - 1 {
            assert(longer[k] == walk[k] && longer[k + 1] == walk[k + 1]);
        }
    }
    assert forall|k: int| 0 <= k < longer.len() implies 0 <= #[trigger] longer[k]
        < graph.len() by {
        if k < walk.len() {
            assert(longer[k] == walk[k]);
        }
    }
}

/// The resolution of the node at the end of a walk does not run out of
/// depth when the depth and the walk together reach past the graph.
proof fn lemma_acyclic_node(
    graph: Seq<SceneNode>,
    index: u32,
    parent: Option<Seq<char>>,
    depth: nat,
    walk: Seq<int>,
)
    requires
        is_walk(graph, walk),
        walk.last() == index,
        no_walk_repeats(graph, walk[0]),
        depth + walk.len() >= graph.len() + 1,
    ensures
        runs_through(graph, resolve_node(graph, index, parent, depth).outcome),
    decreases depth, 0nat, 0nat,
{
    lemma_walk_is_short(graph, walk);
    match graph[index as int] {
        SceneNode::Transform { name, hidden, frames, child, layer_id } => {
            assert(refers(graph, index as int, child as int));
            if child < graph.len() {
                lemma_walk_push(graph, walk, child as int);
                lemma_acyclic_child(
                    graph,
                    child,
                    accumulated_name(parent, name_view(name)),
                    (depth - 1) as nat,
                    walk.push(child as int),
                );
            }
        },
        _ => {
            lemma_acyclic_child(graph, index, parent, (depth - 1) as nat, walk);
        },
    }
}

/// The resolution of the children of the group at the end of a walk does
/// not run out of depth.
proof fn lemma_acyclic_children(
    graph: Seq<SceneNode>,
    children: Seq<u32>,
    parent: Option<Seq<char>>,
    depth: nat,
    walk: Seq<int>,
    n: nat,
)
    requires
        is_walk(graph, walk),
        no_walk_repeats(graph, walk[0]),
        forall|k: int| 0 <= k < children.len() ==> refers(graph, walk.last(), #[trigger] children[k] as int),
        depth + walk.len() >= graph.len(),
        n <= children.len(),
    ensures
        runs_through(graph, resolve_children(graph, children, parent, depth, n).outcome),
    decreases depth, 1nat, n,
{
    if n > 0 {
        lemma_acyclic_children(graph, children, parent, depth, walk, (n - 1) as nat);
        let child = children[n - 1];
        assert(refers(graph, walk.last(), child as int));
        if child < graph.len() {
            lemma_walk_push(graph, walk, child as int);
            lemma_acyclic_node(graph, child, parent, depth, walk.push(child as int));
        }
    }
}

/// The resolution of what is below a transform node, at the end of a walk,
/// does not run out of depth.
proof fn lemma_acyclic_child(
    graph: Seq<SceneNode>,
    index: u32,
    parent: Option<Seq<char>>,
    depth: nat,
    walk: Seq<int>,
)
    requires
        is_walk(graph, walk),
        walk.last() == index,
        no_walk_repeats(graph, walk[0]),
        depth + walk.len() >= graph.len(),
        graph[index as int] is Transform ==> depth + walk.len() >= graph.len() + 1,
    ensures
        runs_through(graph, resolve_child(graph, index, parent, depth).outcome),
    decreases depth, 2nat, 0nat,
{
    match graph[index as int] {
        SceneNode::Transform { .. } => {
            lemma_acyclic_node(graph, index, parent, depth, walk);
        },
        SceneNode::Group { children } => {
            lemma_acyclic_children(graph, children@, parent, depth, walk, children@.len());
        },
        SceneNode::Shape { .. } => {},
    }
}

/// A scene is reported as leading back into itself only when it does:
/// when no walk from node 0 comes to a node twice, the resolution of the
/// scene does not fail with [`SceneError::Cycle`]; and when moreover every
/// reference is in range and the graph has a node 0, it succeeds.
pub proof fn lemma_cycle_only_for_cycles(graph: Seq<SceneNode>)
    requires
        no_walk_repeats(graph, 0),
    ensures
        resolve_node(graph, 0, None, scene_depth(graph)).outcome matches Err(e) ==> !(e is Cycle),
        references_in_range(graph) && graph.len() > 0 ==> resolve_node(
            graph,
            0,
            None,
            scene_depth(graph),
        ).outcome is Ok,
{
    if graph.len() > 0 {
        let walk = seq![0int];
        assert(is_walk(graph, walk));
        lemma_acyclic_node(graph, 0, None, scene_depth(graph), walk);
    }
}

} // verus!
