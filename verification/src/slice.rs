//! Slices of a scene: the node that a name path leads to, with all that is
//! below it.
use crate::voxel_scene::{lemma_children_view, NodeView, SceneError, VoxelNode};
use vstd::prelude::*;

verus! {

/// The first node with the name `path`, looking at a node before its
/// children and at the children in order.
pub open spec fn find_first(node: NodeView, path: Seq<char>) -> Option<NodeView>
    decreases node,
{
    if node.name == Some(path) {
        Some(node)
    } else {
        find_among(node.children, path, 0)
    }
}

/// The first node with the name `path` in the trees of a list, from the
/// tree at `from` on.
pub open spec fn find_among(nodes: Seq<NodeView>, path: Seq<char>, from: nat) -> Option<NodeView>
    decreases nodes, nodes.len() - from,
{
    if from >= nodes.len() {
        None
    } else {
        match find_first(nodes[from as int], path) {
            Some(node) => Some(node),
            None => find_among(nodes, path, from + 1),
        }
    }
}

/// The slice of a scene that a path asks for: the whole scene for the
/// empty path, else the first node of that name.
pub open spec fn slice_of(root: NodeView, path: Seq<char>) -> Option<NodeView> {
    if path.len() == 0 {
        Some(root)
    } else {
        find_first(root, path)
    }
}

/// The node that is reached from `root` by going to the child of each
/// number in turn.
pub open spec fn node_at(root: NodeView, way: Seq<int>) -> Option<NodeView>
    decreases way.len(),
{
    if way.len() == 0 {
        Some(root)
    } else if 0 <= way[0] < root.children.len() {
        node_at(root.children[way[0]], way.drop_first())
    } else {
        None
    }
}

/// Looks for the first node with the name `path`.
pub fn find_node<'a>(node: &'a VoxelNode, path: &String) -> (found: Option<&'a VoxelNode>)
    ensures
        match found {
            Some(n) => find_first(node@, path@) == Some(n@),
            None => find_first(node@, path@) is None,
        },
    decreases node,
{
    if let Some(name) = &node.name {
        if *name == *path {
            return Some(node);
        }
    }
    proof {
        lemma_children_view(*node);
    }
    let mut i: usize = 0;
    while i < node.children.len()
        invariant
            i <= node.children@.len(),
            node@.name != Some(path@),
            node@.children.len() == node.children@.len(),
            forall|k: int|
                0 <= k < node.children@.len() ==> #[trigger] node@.children[k]
                    == node.children@[k]@,
            find_among(node@.children, path@, 0) == find_among(node@.children, path@, i as nat),
        decreases node.children@.len() - i,
    {
        match find_node(&node.children[i], path) {
            Some(n) => {
                assert(node@.children[i as int] == node.children@[i as int]@);
                return Some(n);
            },
            None => {
                assert(node@.children[i as int] == node.children@[i as int]@);
            },
        }
        i += 1;
    }
    None
}

/// Cuts the slice that `path` asks for out of a scene: a copy of the first
/// node with that name and of all below it, or of the whole scene when the
/// path is empty. Fails when the scene has no node of that name.
pub fn slice_scene(root: &VoxelNode, path: &String) -> (r: Result<VoxelNode, SceneError>)
    ensures
        match r {
            Ok(node) => slice_of(root@, path@) == Some(node@),
            Err(e) => e == SceneError::NotFound && slice_of(root@, path@) is None,
        },
{
    if path.as_str().unicode_len() == 0 {
        return Ok(root.deep_copy());
    }
    match find_node(root, path) {
        Some(node) => Ok(node.deep_copy()),
        None => Err(SceneError::NotFound),
    }
}

/// A node that the search finds has the name that was looked for.
pub proof fn lemma_found_has_name(node: NodeView, path: Seq<char>)
    ensures
        find_first(node, path) matches Some(found) ==> found.name == Some(path),
    decreases node, 0nat,
{
    if node.name != Some(path) {
        lemma_found_among_has_name(node.children, path, 0);
    }
}

/// A node that the search finds in a list has the name that was looked
/// for.
pub proof fn lemma_found_among_has_name(nodes: Seq<NodeView>, path: Seq<char>, from: nat)
    ensures
        find_among(nodes, path, from) matches Some(found) ==> found.name == Some(path),
    decreases nodes, nodes.len() - from,
{
    if from < nodes.len() {
        lemma_found_has_name(nodes[from as int], path);
        lemma_found_among_has_name(nodes, path, from + 1);
    }
}

/// When the search succeeds in one tree of a list, it succeeds in the
/// list from any earlier place on.
proof fn lemma_find_among_reaches(nodes: Seq<NodeView>, path: Seq<char>, from: nat, k: int)
    requires
        from <= k < nodes.len(),
        find_first(nodes[k], path) is Some,
    ensures
        find_among(nodes, path, from) is Some,
    decreases k - from,
{
    if from < k && find_first(nodes[from as int], path) is None {
        lemma_find_among_reaches(nodes, path, from + 1, k);
    }
}

/// Every name in a tree is found: when some node of the tree has the name
/// `path`, the search for `path` gives a node with that name.
pub proof fn lemma_name_is_found(root: NodeView, way: Seq<int>, path: Seq<char>)
    requires
        node_at(root, way) matches Some(node) && node.name == Some(path),
    ensures
        find_first(root, path) matches Some(found) && found.name == Some(path),
    decreases way.len(),
{
    lemma_found_has_name(root, path);
    if root.name != Some(path) {
        lemma_name_is_found(root.children[way[0]], way.drop_first(), path);
        lemma_find_among_reaches(root.children, path, 0, way[0]);
    }
}

/// Looking a node up by its name gives a slice with that name at its
/// root: when some node of a scene has the name `path`, and `path` is not
/// the empty path that stands for the whole scene, the slice for `path`
/// exists and its root has the name `path`.
pub proof fn lemma_slice_round_trip(root: NodeView, way: Seq<int>, path: Seq<char>)
    requires
        node_at(root, way) matches Some(node) && node.name == Some(path),
        path.len() > 0,
    ensures
        slice_of(root, path) matches Some(found) && found.name == Some(path),
{
    lemma_name_is_found(root, way, path);
}

/// The characters of each string of a list.
pub open spec fn strings_view(list: Seq<String>) -> Seq<Seq<char>> {
    Seq::new(list.len(), |i: int| list[i]@)
}

/// The names of the named nodes of a tree, a node before its children and
/// the children in order.
pub open spec fn names_in(node: NodeView) -> Seq<Seq<char>>
    decreases node,
{
    let own = match node.name {
        Some(name) => seq![name],
        None => Seq::empty(),
    };
    own + names_among(node.children, node.children.len())
}

/// The names of the named nodes of the first `n` trees of a list.
pub open spec fn names_among(nodes: Seq<NodeView>, n: nat) -> Seq<Seq<char>>
    decreases nodes, n,
{
    if n == 0 || n > nodes.len() {
        Seq::empty()
    } else {
        names_among(nodes, (n - 1) as nat) + names_in(nodes[n - 1])
    }
}

/// The first `n` names of a list without those that came before.
pub open spec fn first_of_each(names: Seq<Seq<char>>, n: nat) -> Seq<Seq<char>>
    decreases n,
{
    if n == 0 {
        Seq::empty()
    } else {
        let before = first_of_each(names, (n - 1) as nat);
        if before.contains(names[n - 1]) {
            before
        } else {
            before.push(names[n - 1])
        }
    }
}

/// The names that a tree can be sliced at: those of its named nodes in the
/// order of the tree, each once.
pub open spec fn slice_names(root: NodeView) -> Seq<Seq<char>> {
    first_of_each(names_in(root), names_in(root).len())
}

fn collect_names(node: &VoxelNode, out: &mut Vec<String>)
    ensures
        strings_view(final(out)@) == strings_view(old(out)@) + names_in(node@),
    decreases node,
{
    let ghost start = strings_view(out@);
    let ghost own = match node@.name {
        Some(name) => seq![name],
        None => Seq::<Seq<char>>::empty(),
    };
    if let Some(name) = &node.name {
        let ghost before = out@;
        out.push(name.clone());
        assert(strings_view(out@) =~= strings_view(before).push(name@));
    }
    assert(strings_view(out@) =~= start + own);
    proof {
        lemma_children_view(*node);
    }
    let mut i: usize = 0;
    while i < node.children.len()
        invariant
            i <= node.children@.len(),
            node@.children.len() == node.children@.len(),
            forall|k: int|
                0 <= k < node.children@.len() ==> #[trigger] node@.children[k]
                    == node.children@[k]@,
            strings_view(out@) == start + own + names_among(node@.children, i as nat),
        decreases node.children@.len() - i,
    {
        let ghost before = strings_view(out@);
        assert(node@.children[i as int] == node.children@[i as int]@);
        collect_names(&node.children[i], out);
        assert(strings_view(out@) =~= start + own + names_among(
            node@.children,
            (i + 1) as nat,
        ));
        i += 1;
    }
    assert(strings_view(out@) =~= start + names_in(node@));
}

fn holds_name(list: &Vec<String>, name: &String) -> (r: bool)
    ensures
        r == strings_view(list@).contains(name@),
{
    let mut i: usize = 0;
    while i < list.len()
        invariant
            i <= list@.len(),
            forall|k: int| 0 <= k < i ==> list@[k]@ != name@,
        decreases list@.len() - i,
    {
        if list[i] == *name {
            assert(strings_view(list@)[i as int] == name@);
            return true;
        }
        i += 1;
    }
    assert forall|k: int| 0 <= k < strings_view(list@).len() implies strings_view(list@)[k]
        != name@ by {
        assert(strings_view(list@)[k] == list@[k]@);
    }
    false
}

/// Lists the names that a tree can be sliced at: those of its named nodes
/// in the order of the tree, each once.
pub fn node_names(root: &VoxelNode) -> (names: Vec<String>)
    ensures
        strings_view(names@) == slice_names(root@),
{
    let mut all: Vec<String> = Vec::new();
    assert(strings_view(all@) =~= Seq::<Seq<char>>::empty());
    collect_names(root, &mut all);
    assert(strings_view(all@) =~= names_in(root@));
    let mut names: Vec<String> = Vec::new();
    assert(strings_view(names@) =~= Seq::<Seq<char>>::empty());
    let mut i: usize = 0;
    while i < all.len()
        invariant
            i <= all@.len(),
            strings_view(all@) == names_in(root@),
            strings_view(names@) == first_of_each(names_in(root@), i as nat),
        decreases all@.len() - i,
    {
        assert(strings_view(all@)[i as int] == all@[i as int]@);
        if !holds_name(&names, &all[i]) {
            let ghost before = names@;
            names.push(all[i].clone());
            assert(strings_view(names@) =~= strings_view(before).push(all@[i as int]@));
        }
        i += 1;
    }
    names
}

} // verus!
