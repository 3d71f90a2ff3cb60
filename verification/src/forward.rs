//! Graphs that point forward: when every node names only nodes that come
//! after it in the graph, no walk comes back to a node, and the resolution
//! of the graph cannot fail. Whether a graph points forward is quickly
//! checked.
use crate::loader::scene_depth;
use crate::acyclic::{
    is_walk, lemma_cycle_only_for_cycles, no_walk_repeats, references_in_range, refers,
};
use crate::voxel_scene::{resolve_node, SceneNode};
use vstd::prelude::*;

verus! {

/// The references of the node at place `i` name later nodes of the graph.
pub open spec fn node_points_forward(graph: Seq<SceneNode>, i: int) -> bool {
    match graph[i] {
        SceneNode::Transform { child, .. } => i < child < graph.len(),
        SceneNode::Group { children } => forall|k: int|
            0 <= k < children@.len() ==> i < #[trigger] children@[k] < graph.len(),
        SceneNode::Shape { .. } => true,
    }
}

/// Every reference in the graph names a node that the graph has, and one
/// that comes after the node that makes the reference.
pub open spec fn points_forward(graph: Seq<SceneNode>) -> bool {
    forall|i: int| 0 <= i < graph.len() ==> #[trigger] node_points_forward(graph, i)
}

/// Along a walk in a graph that points forward the places rise.
proof fn lemma_walk_rises(graph: Seq<SceneNode>, walk: Seq<int>, i: int, j: int)
    requires
        points_forward(graph),
        is_walk(graph, walk),
        0 <= i < j < walk.len(),
    ensures
        walk[i] < walk[j],
    decreases j - i,
{
    assert(node_points_forward(graph, walk[j - 1]));
    assert(refers(graph, walk[j - 1], walk[j - 1 + 1]));
    if i < j - 1 {
        lemma_walk_rises(graph, walk, i, j - 1);
    }
}

/// A graph that points forward has every reference in range, and no walk
/// in it comes to a place twice.
pub proof fn lemma_forward_is_acyclic(graph: Seq<SceneNode>, start: int)
    requires
        points_forward(graph),
    ensures
        references_in_range(graph),
        no_walk_repeats(graph, start),
{
    assert forall|i: int, j: int|
        0 <= i < graph.len() && #[trigger] refers(graph, i, j) implies 0 <= j < graph.len() by {
        assert(node_points_forward(graph, i));
    }
    assert forall|walk: Seq<int>| #[trigger]
        is_walk(graph, walk) && walk[0] == start implies walk.no_duplicates() by {
        assert forall|i: int, j: int|
            0 <= i < walk.len() && 0 <= j < walk.len() && i != j implies walk[i] != walk[j] by {
            if i < j {
                lemma_walk_rises(graph, walk, i, j);
            } else {
                lemma_walk_rises(graph, walk, j, i);
            }
        }
    }
}

/// A graph that points forward and has a first node resolves from that
/// node as a scene.
pub proof fn lemma_forward_scene(graph: Seq<SceneNode>)
    requires
        points_forward(graph),
        graph.len() > 0,
    ensures
        resolve_node(graph, 0, None, scene_depth(graph)).outcome is Ok,
{
    lemma_forward_is_acyclic(graph, 0);
    lemma_cycle_only_for_cycles(graph);
}

/// Whether every reference in the graph names a later node of the graph.
pub fn is_forward(graph: &Vec<SceneNode>) -> (r: bool)
    ensures
        r == points_forward(graph@),
{
    let mut i: usize = 0;
    while i < graph.len()
        invariant
            i <= graph@.len(),
            forall|j: int| 0 <= j < i ==> node_points_forward(graph@, j),
        decreases graph@.len() - i,
    {
        match &graph[i] {
            SceneNode::Transform { child, .. } => {
                if *child as usize <= i || *child as usize >= graph.len() {
                    assert(!node_points_forward(graph@, i as int));
                    return false;
                }
            },
            SceneNode::Group { children } => {
                let mut k: usize = 0;
                while k < children.len()
                    invariant
                        k <= children@.len(),
                        i < graph@.len(),
                        graph@[i as int] == (SceneNode::Group { children: *children }),
                        forall|j: int| 0 <= j < i ==> node_points_forward(graph@, j),
                        forall|m: int|
                            0 <= m < k ==> i < #[trigger] children@[m] < graph@.len(),
                    decreases children@.len() - k,
                {
                    let child = children[k] as usize;
                    if child <= i || child >= graph.len() {
                        assert(!(i < children@[k as int] < graph@.len()));
                        assert(graph@[i as int]->Group_children@[k as int] == children@[k as int]);
                        assert(!node_points_forward(graph@, i as int));
                        return false;
                    }
                    k += 1;
                }
            },
            SceneNode::Shape { .. } => {},
        }
        i += 1;
    }
    true
}

} // verus!
