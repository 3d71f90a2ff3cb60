//! The names of a resolved tree: the name of a node is the path of the
//! names on the way to it, and asking for that path gives the node back.
use crate::loader::scene_depth;
use crate::slice::{lemma_slice_round_trip, node_at, slice_of};
use crate::voxel_scene::{
    accumulated_name, name_view, resolve_child, resolve_children, resolve_node, resolved_name,
    NodeView, SceneError, SceneNode,
};
use vstd::prelude::*;

verus! {

/// The name that the graph's node at a place has of its own: the `_name`
/// of a transform node.
pub open spec fn own_name(graph: Seq<SceneNode>, place: int) -> Option<Seq<char>> {
    match graph[place] {
        SceneNode::Transform { name, .. } => name_view(name),
        _ => None,
    }
}

/// The place in the graph of child `k` of the tree node that the graph's
/// node at `place` resolves to: below a transform node, child `k` of its
/// group, or the nested transform node itself; below a group at the entry,
/// its child `k`.
pub open spec fn child_place(graph: Seq<SceneNode>, place: int, k: int) -> int {
    match graph[place] {
        SceneNode::Transform { child, .. } => match graph[child as int] {
            SceneNode::Group { children } => children@[k] as int,
            _ => child as int,
        },
        SceneNode::Group { children } => children@[k] as int,
        SceneNode::Shape { .. } => place,
    }
}

/// The names of the named graph nodes on the way from the node at `place`
/// down to the node that `way` leads to, in that order, both ends
/// included.
pub open spec fn names_on(graph: Seq<SceneNode>, place: int, way: Seq<int>) -> Seq<Seq<char>>
    decreases way.len(),
{
    let own = match own_name(graph, place) {
        Some(name) => seq![name],
        None => Seq::empty(),
    };
    if way.len() == 0 {
        own
    } else {
        own + names_on(graph, child_place(graph, place, way[0]), way.drop_first())
    }
}

/// The names of a list joined by slashes and put after the path `parent`
/// and a slash, if there is such a path.
pub open spec fn join_from(parent: Option<Seq<char>>, names: Seq<Seq<char>>) -> Option<Seq<char>>
    decreases names.len(),
{
    if names.len() == 0 {
        parent
    } else {
        join_from(accumulated_name(parent, Some(names[0])), names.drop_first())
    }
}

/// When the children of a group resolve, there is one node for each, and
/// it is what the child resolves to.
proof fn lemma_children_resolved(
    graph: Seq<SceneNode>,
    children: Seq<u32>,
    parent: Option<Seq<char>>,
    depth: nat,
    n: nat,
    k: int,
)
    requires
        n <= children.len(),
        resolve_children(graph, children, parent, depth, n).outcome is Ok,
        0 <= k < n,
    ensures
        resolve_children(graph, children, parent, depth, n).outcome->Ok_0.len() == n,
        resolve_node(graph, children[k], parent, depth).outcome == Ok::<NodeView, SceneError>(
            resolve_children(graph, children, parent, depth, n).outcome->Ok_0[k],
        ),
    decreases n,
{
    lemma_children_count(graph, children, parent, depth, n);
    if k < n - 1 {
        lemma_children_count(graph, children, parent, depth, (n - 1) as nat);
        lemma_children_resolved(graph, children, parent, depth, (n - 1) as nat, k);
    } else {
        lemma_children_count(graph, children, parent, depth, (n - 1) as nat);
    }
}

/// When the first `n` children of a group resolve, they give `n` nodes.
proof fn lemma_children_count(
    graph: Seq<SceneNode>,
    children: Seq<u32>,
    parent: Option<Seq<char>>,
    depth: nat,
    n: nat,
)
    requires
        n <= children.len(),
        resolve_children(graph, children, parent, depth, n).outcome is Ok,
    ensures
        resolve_children(graph, children, parent, depth, n).outcome->Ok_0.len() == n,
        n > 0 ==> resolve_children(graph, children, parent, depth, (n - 1) as nat).outcome is Ok,
    decreases n,
{
    if n > 0 {
        lemma_children_count(graph, children, parent, depth, (n - 1) as nat);
    }
}

/// A resolved node has the name that its own name and the path from above
/// give it.
pub proof fn lemma_node_name(
    graph: Seq<SceneNode>,
    index: u32,
    parent: Option<Seq<char>>,
    depth: nat,
)
    requires
        resolve_node(graph, index, parent, depth).outcome is Ok,
    ensures
        resolve_node(graph, index, parent, depth).outcome->Ok_0.name == resolved_name(
            parent,
            own_name(graph, index as int),
        ),
{
}

/// Child `k` of a resolved node is what the graph's node at its place
/// resolves to, below the name path that the node hands down.
proof fn lemma_node_child(
    graph: Seq<SceneNode>,
    index: u32,
    parent: Option<Seq<char>>,
    depth: nat,
    k: int,
)
    requires
        resolve_node(graph, index, parent, depth).outcome is Ok,
        0 <= k < resolve_node(graph, index, parent, depth).outcome->Ok_0.children.len(),
    ensures
        depth > 0,
        0 <= child_place(graph, index as int, k) <= u32::MAX,
        resolve_node(
            graph,
            child_place(graph, index as int, k) as u32,
            accumulated_name(parent, own_name(graph, index as int)),
            (depth - 1) as nat,
        ).outcome == Ok::<NodeView, SceneError>(
            resolve_node(graph, index, parent, depth).outcome->Ok_0.children[k],
        ),
{
    let below_depth = (depth - 1) as nat;
    let path = accumulated_name(parent, own_name(graph, index as int));
    match graph[index as int] {
        SceneNode::Transform { name, hidden, frames, child, layer_id } => {
            let below = resolve_child(graph, child, path, below_depth);
            assert(below.outcome is Ok);
            match graph[child as int] {
                SceneNode::Group { children } => {
                    lemma_children_count(graph, children@, path, below_depth, children@.len());
                    lemma_children_resolved(
                        graph,
                        children@,
                        path,
                        below_depth,
                        children@.len(),
                        k,
                    );
                },
                SceneNode::Transform { .. } => {},
                SceneNode::Shape { .. } => {},
            }
        },
        SceneNode::Group { children } => {
            lemma_children_count(graph, children@, path, below_depth, children@.len());
            lemma_children_resolved(graph, children@, path, below_depth, children@.len(), k);
        },
        SceneNode::Shape { .. } => {},
    }
}

/// The name of a node of a resolved tree is the join, with slashes, of the
/// names of the named graph nodes on the way to it, its own name last,
/// after the path that the tree was resolved under.
pub proof fn lemma_name_is_join(
    graph: Seq<SceneNode>,
    index: u32,
    parent: Option<Seq<char>>,
    depth: nat,
    way: Seq<int>,
    path: Seq<char>,
)
    requires
        resolve_node(graph, index, parent, depth).outcome matches Ok(root) && node_at(root, way)
            matches Some(node) && node.name == Some(path),
    ensures
        join_from(parent, names_on(graph, index as int, way)) == Some(path),
        own_name(graph, index as int) is Some || way.len() > 0,
    decreases way.len(),
{
    let root = resolve_node(graph, index, parent, depth).outcome->Ok_0;
    let own = own_name(graph, index as int);
    let down = accumulated_name(parent, own);
    lemma_node_name(graph, index, parent, depth);
    if way.len() == 0 {
        let names = names_on(graph, index as int, way);
        assert(names.drop_first() =~= Seq::<Seq<char>>::empty());
        assert(join_from(down, names.drop_first()) == down);
    } else {
        let k = way[0];
        let place = child_place(graph, index as int, k);
        let rest = names_on(graph, place, way.drop_first());
        lemma_node_child(graph, index, parent, depth, k);
        lemma_name_is_join(graph, place as u32, down, (depth - 1) as nat, way.drop_first(), path);
        match own {
            Some(name) => {
                assert((seq![name] + rest).drop_first() =~= rest);
            },
            None => {
                assert(Seq::<Seq<char>>::empty() + rest =~= rest);
            },
        }
    }
}

/// Every named node of a resolved scene is found again by its name: the
/// name is the join of the names on the way from the root to the node, and
/// unless it is the empty path, which stands for the whole scene, the
/// slice for it exists and has that name at its root.
pub proof fn lemma_scene_round_trip(graph: Seq<SceneNode>, way: Seq<int>, path: Seq<char>)
    requires
        resolve_node(graph, 0, None, scene_depth(graph)).outcome matches Ok(root) && node_at(
            root,
            way,
        ) matches Some(node) && node.name == Some(path),
    ensures
        join_from(None, names_on(graph, 0, way)) == Some(path),
        path.len() > 0 ==> (slice_of(
            resolve_node(graph, 0, None, scene_depth(graph)).outcome->Ok_0,
            path,
        ) matches Some(found) && found.name == Some(path)),
{
    lemma_name_is_join(graph, 0, None, scene_depth(graph), way, path);
    if path.len() > 0 {
        lemma_slice_round_trip(
            resolve_node(graph, 0, None, scene_depth(graph)).outcome->Ok_0,
            way,
            path,
        );
    }
}

} // verus!
