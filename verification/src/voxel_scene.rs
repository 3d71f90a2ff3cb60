//! Scenes: the flat graph of a file, and the tree of nodes that it resolves
//! to.
use vstd::prelude::*;
use vstd::string::*;

verus! {

/// A translation in whole cells.
#[derive(Clone, Copy, Debug, PartialEq, Eq, Structural)]
pub struct Position {
    pub x: i32,
    pub y: i32,
    pub z: i32,
}

/// One frame of a transform node: where the node stands and how it is
/// turned, the latter as the rotation byte of the file format.
#[derive(Clone, Copy, Debug, PartialEq, Eq, Structural)]
pub struct Frame {
    pub position: Option<Position>,
    pub orientation: Option<u8>,
}

/// A node of the flat scene graph. Nodes name each other by their place in
/// the graph's sequence.
#[derive(Clone, Debug, PartialEq, Eq)]
pub enum SceneNode {
    /// Places its one child. `name` and `hidden` are the node's `_name` and
    /// `_hidden` attributes as the file gives them.
    Transform {
        name: Option<String>,
        hidden: Option<String>,
        frames: Vec<Frame>,
        child: u32,
        layer_id: u32,
    },
    /// Holds several children.
    Group { children: Vec<u32> },
    /// Shows models, named by their numbers.
    Shape { models: Vec<u32> },
}

/// A translation in the axes of the tree, `y` pointing up.
#[derive(Clone, Copy, Debug, PartialEq, Eq, Structural)]
pub struct Translation {
    pub x: i64,
    pub y: i64,
    pub z: i64,
}

/// The placement of a node relative to its parent: a translation, and the
/// rotation byte of the frame it came from, if it had one. The host makes
/// the matrix of it.
#[derive(Clone, Copy, Debug, PartialEq, Eq, Structural)]
pub struct LocalTransform {
    pub translation: Translation,
    pub rotation: Option<u8>,
}

/// A node of the resolved tree.
#[derive(Debug, PartialEq, Eq)]
pub struct VoxelNode {
    pub name: Option<String>,
    pub transform: LocalTransform,
    pub children: Vec<VoxelNode>,
    pub model_id: Option<usize>,
    pub is_hidden: bool,
    pub layer_id: u32,
}

/// What a node of the resolved tree holds, names as sequences of
/// characters.
pub struct NodeView {
    pub name: Option<Seq<char>>,
    pub transform: LocalTransform,
    pub children: Seq<NodeView>,
    pub model_id: Option<usize>,
    pub is_hidden: bool,
    pub layer_id: u32,
}

/// The characters of a name, if there is one.
pub open spec fn name_view(name: Option<String>) -> Option<Seq<char>> {
    match name {
        Some(s) => Some(s@),
        None => None,
    }
}

/// What a node holds.
pub open spec fn node_view(node: VoxelNode) -> NodeView
    decreases node, 0nat,
{
    NodeView {
        name: name_view(node.name),
        transform: node.transform,
        children: nodes_view(node.children, node.children@.len()),
        model_id: node.model_id,
        is_hidden: node.is_hidden,
        layer_id: node.layer_id,
    }
}

/// What the first `n` nodes of a list hold.
pub open spec fn nodes_view(nodes: Vec<VoxelNode>, n: nat) -> Seq<NodeView>
    decreases nodes, n,
{
    if n == 0 || n > nodes@.len() {
        Seq::empty()
    } else {
        nodes_view(nodes, (n - 1) as nat).push(node_view(nodes@[n - 1]))
    }
}

impl View for VoxelNode {
    type V = NodeView;

    open spec fn view(&self) -> NodeView {
        node_view(*self)
    }
}

/// The view of a list of nodes holds the view of each node at its place.
pub proof fn lemma_nodes_view(nodes: Vec<VoxelNode>, n: nat)
    requires
        n <= nodes@.len(),
    ensures
        nodes_view(nodes, n).len() == n,
        forall|k: int| 0 <= k < n ==> #[trigger] nodes_view(nodes, n)[k] == nodes@[k]@,
    decreases n,
{
    if n > 0 {
        lemma_nodes_view(nodes, (n - 1) as nat);
    }
}

/// The children of a node's view are the views of its children.
pub proof fn lemma_children_view(node: VoxelNode)
    ensures
        node@.children.len() == node.children@.len(),
        forall|k: int|
            0 <= k < node.children@.len() ==> #[trigger] node@.children[k] == node.children@[k]@,
{
    lemma_nodes_view(node.children, node.children@.len());
}

/// Copies a name.
pub fn copy_name(name: &Option<String>) -> (copy: Option<String>)
    ensures
        name_view(copy) == name_view(*name),
{
    match name {
        Some(s) => Some(s.clone()),
        None => None,
    }
}

impl VoxelNode {
    /// Copies a node with all that is below it.
    pub fn deep_copy(&self) -> (copy: VoxelNode)
        ensures
            copy@ == self@,
        decreases self,
    {
        let mut children: Vec<VoxelNode> = Vec::new();
        let mut i: usize = 0;
        while i < self.children.len()
            invariant
                i <= self.children@.len(),
                children@.len() == i,
                forall|k: int| 0 <= k < i ==> (#[trigger] children@[k])@ == self.children@[k]@,
            decreases self.children@.len() - i,
        {
            let child = self.children[i].deep_copy();
            children.push(child);
            i += 1;
        }
        let copy = VoxelNode {
            name: copy_name(&self.name),
            transform: self.transform,
            children,
            model_id: self.model_id,
            is_hidden: self.is_hidden,
            layer_id: self.layer_id,
        };
        proof {
            lemma_children_view(copy);
            lemma_children_view(*self);
            assert(copy@.children =~= self@.children);
        }
        copy
    }
}

impl Clone for VoxelNode {
    fn clone(&self) -> (copy: VoxelNode)
        ensures
            copy@ == self@,
    {
        self.deep_copy()
    }
}

/// Why a scene could not be resolved or sliced.
#[derive(Clone, Copy, Debug, PartialEq, Eq, Structural)]
pub enum SceneError {
    /// A node is named by a number that the graph does not have.
    BadReference { node: u32 },
    /// The graph leads from this node back to itself.
    Cycle { node: u32 },
    /// No node of the tree has the name that was asked for.
    NotFound,
}

/// Something odd in a scene graph that did not stop its resolution.
#[derive(Clone, Copy, Debug, PartialEq, Eq, Structural)]
pub enum Diagnostic {
    /// A group or shape node was met without a transform node above it.
    OrphanNode { node: u32 },
    /// A transform node is the child of a transform node.
    NestedTransform { node: u32 },
    /// The `_hidden` attribute of a transform node is neither `0` nor `1`.
    InvalidBoolean { node: u32 },
    /// A shape node names several models; only the first is shown.
    ExtraModels { node: u32 },
    /// The `_hidden` attribute of a layer is neither `0` nor `1`.
    InvalidLayerBoolean { layer: usize },
}

/// The outcome of resolving a part of a graph, and the diagnostics that it
/// gave rise to.
pub struct Resolved<T> {
    pub outcome: Result<T, SceneError>,
    pub log: Seq<Diagnostic>,
}

/// What a transform node gets from the node below it.
pub struct Contents {
    pub children: Seq<NodeView>,
    pub model_id: Option<usize>,
}

/// The characters of a borrowed name, if there is one.
pub open spec fn name_chars(name: Option<&String>) -> Option<Seq<char>> {
    match name {
        Some(s) => Some(s@),
        None => None,
    }
}

/// The name path that a node hands down to the nodes below it: the path
/// from above, a slash and the node's own name; or the one of them that
/// there is.
pub open spec fn accumulated_name(parent: Option<Seq<char>>, own: Option<Seq<char>>) -> Option<
    Seq<char>,
> {
    match (parent, own) {
        (None, None) => None,
        (None, Some(name)) => Some(name),
        (Some(path), None) => Some(path),
        (Some(path), Some(name)) => Some(path + seq!['/'] + name),
    }
}

/// The name that a node gets: its path, if it has a name of its own.
pub open spec fn resolved_name(parent: Option<Seq<char>>, own: Option<Seq<char>>) -> Option<
    Seq<char>,
> {
    match own {
        None => None,
        Some(_) => accumulated_name(parent, own),
    }
}

/// What an attribute says when it is read as a truth value: true for `1`,
/// false for anything else and for no attribute at all.
pub open spec fn bool_value(value: Option<Seq<char>>) -> bool {
    value == Some(seq!['1'])
}

/// The attribute is there and is neither `0` nor `1`.
pub open spec fn bool_invalid(value: Option<Seq<char>>) -> bool {
    value matches Some(text) && text != seq!['0'] && text != seq!['1']
}

/// The transform without effect.
pub open spec fn identity_transform() -> LocalTransform {
    LocalTransform { translation: Translation { x: 0, y: 0, z: 0 }, rotation: None }
}

/// The placement that a frame stands for. The file's `z` points up and the
/// tree's `y` does, so the second and third axes change places and the
/// first changes its sign. Each part stands by itself: a frame without a
/// position moves nothing and still turns, and a frame without an
/// orientation does not turn.
pub open spec fn frame_transform(frame: Frame) -> LocalTransform {
    LocalTransform {
        translation: match frame.position {
            None => Translation { x: 0, y: 0, z: 0 },
            Some(p) => Translation { x: (-p.x) as i64, y: p.z as i64, z: p.y as i64 },
        },
        rotation: frame.orientation,
    }
}

/// The placement of a transform node: that of its first frame.
pub open spec fn frames_transform(frames: Seq<Frame>) -> LocalTransform {
    if frames.len() == 0 {
        identity_transform()
    } else {
        frame_transform(frames[0])
    }
}

/// The node that stands for nothing yet: no name, no placement, nothing
/// below it.
pub open spec fn default_node() -> NodeView {
    NodeView {
        name: None,
        transform: identity_transform(),
        children: Seq::empty(),
        model_id: None,
        is_hidden: false,
        layer_id: 0,
    }
}

/// A node with what the node below it gave.
pub open spec fn filled(node: NodeView, contents: Contents) -> NodeView {
    NodeView {
        name: node.name,
        transform: node.transform,
        children: contents.children,
        model_id: contents.model_id,
        is_hidden: node.is_hidden,
        layer_id: node.layer_id,
    }
}

/// The node that the graph's node `index` resolves to, below a node whose
/// name path is `parent`. `depth` bounds how far down the resolution may
/// go.
///
/// A transform node becomes a node with its name, placement, visibility and
/// layer, and hands its name path down to its child. A group or shape node
/// met here has no transform above it: it gets a node without a name or a
/// placement, and a diagnostic.
pub open spec fn resolve_node(
    graph: Seq<SceneNode>,
    index: u32,
    parent: Option<Seq<char>>,
    depth: nat,
) -> Resolved<NodeView>
    decreases depth, 0nat, 0nat,
{
    if index >= graph.len() {
        Resolved { outcome: Err(SceneError::BadReference { node: index }), log: Seq::empty() }
    } else if depth == 0 {
        Resolved { outcome: Err(SceneError::Cycle { node: index }), log: Seq::empty() }
    } else {
        match graph[index as int] {
            SceneNode::Transform { name, hidden, frames, child, layer_id } => {
                let own = name_view(name);
                let flag = name_view(hidden);
                let node = NodeView {
                    name: resolved_name(parent, own),
                    transform: frames_transform(frames@),
                    children: Seq::empty(),
                    model_id: None,
                    is_hidden: bool_value(flag),
                    layer_id,
                };
                let first = if bool_invalid(flag) {
                    seq![Diagnostic::InvalidBoolean { node: index }]
                } else {
                    Seq::empty()
                };
                let below = resolve_child(
                    graph,
                    child,
                    accumulated_name(parent, own),
                    (depth - 1) as nat,
                );
                Resolved {
                    outcome: match below.outcome {
                        Ok(contents) => Ok(filled(node, contents)),
                        Err(e) => Err(e),
                    },
                    log: first + below.log,
                }
            },
            _ => {
                let below = resolve_child(graph, index, parent, (depth - 1) as nat);
                Resolved {
                    outcome: match below.outcome {
                        Ok(contents) => Ok(filled(default_node(), contents)),
                        Err(e) => Err(e),
                    },
                    log: seq![Diagnostic::OrphanNode { node: index }] + below.log,
                }
            },
        }
    }
}

/// The nodes that the first `n` of the children of a group resolve to, all
/// below the same name path. The first child that fails fails them all.
pub open spec fn resolve_children(
    graph: Seq<SceneNode>,
    children: Seq<u32>,
    parent: Option<Seq<char>>,
    depth: nat,
    n: nat,
) -> Resolved<Seq<NodeView>>
    decreases depth, 1nat, n,
{
    if n == 0 || n > children.len() {
        Resolved { outcome: Ok(Seq::empty()), log: Seq::empty() }
    } else {
        let before = resolve_children(graph, children, parent, depth, (n - 1) as nat);
        match before.outcome {
            Err(e) => before,
            Ok(nodes) => {
                let last = resolve_node(graph, children[n - 1], parent, depth);
                Resolved {
                    outcome: match last.outcome {
                        Ok(node) => Ok(nodes.push(node)),
                        Err(e) => Err(e),
                    },
                    log: before.log + last.log,
                }
            },
        }
    }
}

/// What the graph's node `index` gives to the transform node above it,
/// whose name path is `parent`.
///
/// A group gives its children, resolved in order and without a path segment
/// of its own. A shape gives the number of its first model. A transform
/// node met here is nested in another; it is resolved as the only child,
/// with a diagnostic.
pub open spec fn resolve_child(
    graph: Seq<SceneNode>,
    index: u32,
    parent: Option<Seq<char>>,
    depth: nat,
) -> Resolved<Contents>
    decreases depth, 2nat, 0nat,
{
    if index >= graph.len() {
        Resolved { outcome: Err(SceneError::BadReference { node: index }), log: Seq::empty() }
    } else {
        match graph[index as int] {
            SceneNode::Transform { .. } => {
                let nested = resolve_node(graph, index, parent, depth);
                Resolved {
                    outcome: match nested.outcome {
                        Ok(node) => Ok(Contents { children: seq![node], model_id: None }),
                        Err(e) => Err(e),
                    },
                    log: seq![Diagnostic::NestedTransform { node: index }] + nested.log,
                }
            },
            SceneNode::Group { children } => {
                let all = resolve_children(graph, children@, parent, depth, children@.len());
                Resolved {
                    outcome: match all.outcome {
                        Ok(nodes) => Ok(Contents { children: nodes, model_id: None }),
                        Err(e) => Err(e),
                    },
                    log: all.log,
                }
            },
            SceneNode::Shape { models } => Resolved {
                outcome: Ok(
                    Contents {
                        children: Seq::empty(),
                        model_id: if models@.len() == 0 {
                            None
                        } else {
                            Some(models@[0] as usize)
                        },
                    },
                ),
                log: if models@.len() > 1 {
                    seq![Diagnostic::ExtraModels { node: index }]
                } else {
                    Seq::empty()
                },
            },
        }
    }
}

/// What a transform node gets from the node below it.
pub struct NodeContents {
    pub children: Vec<VoxelNode>,
    pub model_id: Option<usize>,
}

impl View for NodeContents {
    type V = Contents;

    open spec fn view(&self) -> Contents {
        Contents {
            children: nodes_view(self.children, self.children@.len()),
            model_id: self.model_id,
        }
    }
}

impl Default for VoxelNode {
    fn default() -> (node: VoxelNode)
        ensures
            node@ == default_node(),
    {
        let node = VoxelNode {
            name: None,
            transform: LocalTransform {
                translation: Translation { x: 0, y: 0, z: 0 },
                rotation: None,
            },
            children: Vec::new(),
            model_id: None,
            is_hidden: false,
            layer_id: 0,
        };
        proof {
            lemma_children_view(node);
            assert(node@.children =~= default_node().children);
        }
        node
    }
}

/// The name path that a node hands down, and the name that it gets itself.
///
/// A node without a name of its own hands the path from above down
/// unchanged and stays without a name. A named node gets the path from
/// above, a slash and its name, and hands that down; below no path, it
/// gets and hands down its own name.
pub fn get_accumulated_and_node_name(parent_name: Option<&String>, node_name: Option<&String>) -> (names:
    (Option<String>, Option<String>))
    ensures
        name_view(names.0) == accumulated_name(name_chars(parent_name), name_chars(node_name)),
        name_view(names.1) == resolved_name(name_chars(parent_name), name_chars(node_name)),
{
    match (parent_name, node_name) {
        (None, None) => (None, None),
        (None, Some(node_name)) => (Some(node_name.clone()), Some(node_name.clone())),
        (Some(parent_name), None) => (Some(parent_name.clone()), None),
        (Some(parent_name), Some(node_name)) => {
            let mut accumulated = parent_name.clone();
            accumulated.append("/");
            accumulated.append(node_name.as_str());
            proof {
                reveal_strlit("/");
                assert("/"@ =~= seq!['/']);
            }
            (Some(accumulated.clone()), Some(accumulated))
        },
    }
}

/// Reads an attribute as a truth value: `1` is true, `0` and no attribute
/// are false, and anything else is false and adds `invalid` to the
/// diagnostics.
pub fn parse_bool(value: Option<&String>, invalid: Diagnostic, diagnostics: &mut Vec<Diagnostic>) -> (b:
    bool)
    ensures
        b == bool_value(name_chars(value)),
        final(diagnostics)@ == old(diagnostics)@ + if bool_invalid(name_chars(value)) {
            seq![invalid]
        } else {
            Seq::empty()
        },
{
    match value {
        None => {
            assert(diagnostics@ =~= diagnostics@ + Seq::<Diagnostic>::empty());
            false
        },
        Some(text) => {
            let text = text.as_str();
            if text.unicode_len() == 1 {
                let c = text.get_char(0);
                if c == '1' {
                    assert(text@ =~= seq!['1']);
                    assert(diagnostics@ =~= diagnostics@ + Seq::<Diagnostic>::empty());
                    return true;
                }
                if c == '0' {
                    assert(text@ =~= seq!['0']);
                    assert(diagnostics@ =~= diagnostics@ + Seq::<Diagnostic>::empty());
                    return false;
                }
            }
            assert(text@ != seq!['0'] && text@ != seq!['1']) by {
                if text@.len() == 1 {
                    assert(seq!['0'][0] == '0');
                    assert(seq!['1'][0] == '1');
                }
            }
            diagnostics.push(invalid);
            false
        },
    }
}

/// The placement that a frame stands for.
pub fn transform_from_frame(frame: &Frame) -> (transform: LocalTransform)
    ensures
        transform == frame_transform(*frame),
{
    let translation = match frame.position {
        None => Translation { x: 0, y: 0, z: 0 },
        Some(position) => Translation {
            x: -(position.x as i64),
            y: position.z as i64,
            z: position.y as i64,
        },
    };
    LocalTransform { translation, rotation: frame.orientation }
}

/// Resolves the graph's node `index` into a node of the tree, below a node
/// whose name path is `parent_name`, going at most `depth` nodes down.
///
/// A reference to a node that the graph does not have fails the
/// resolution, and so does a graph that needs more than `depth` nodes on
/// one way down. What is only odd is written to `diagnostics`.
pub fn parse_xform_node(
    graph: &Vec<SceneNode>,
    index: u32,
    parent_name: Option<&String>,
    depth: usize,
    diagnostics: &mut Vec<Diagnostic>,
) -> (r: Result<VoxelNode, SceneError>)
    ensures
        final(diagnostics)@ == old(diagnostics)@ + resolve_node(
            graph@,
            index,
            name_chars(parent_name),
            depth as nat,
        ).log,
        match r {
            Ok(node) => resolve_node(graph@, index, name_chars(parent_name), depth as nat).outcome
                == Ok::<NodeView, SceneError>(node@),
            Err(e) => resolve_node(graph@, index, name_chars(parent_name), depth as nat).outcome
                == Err::<NodeView, SceneError>(e),
        },
    decreases depth, 0nat, 0nat,
{
    let ghost start = diagnostics@;
    assert(start =~= start + Seq::<Diagnostic>::empty());
    if index as usize >= graph.len() {
        return Err(SceneError::BadReference { node: index });
    }
    if depth == 0 {
        return Err(SceneError::Cycle { node: index });
    }
    match &graph[index as usize] {
        SceneNode::Transform { name, hidden, frames, child, layer_id } => {
            let names = get_accumulated_and_node_name(parent_name, name.as_ref());
            let is_hidden = parse_bool(
                hidden.as_ref(),
                Diagnostic::InvalidBoolean { node: index },
                diagnostics,
            );
            let transform = if frames.len() == 0 {
                LocalTransform { translation: Translation { x: 0, y: 0, z: 0 }, rotation: None }
            } else {
                transform_from_frame(&frames[0])
            };
            let below = parse_xform_child(graph, *child, names.0.as_ref(), depth - 1, diagnostics);
            proof {
                let first = if bool_invalid(name_view(*hidden)) {
                    seq![Diagnostic::InvalidBoolean { node: index }]
                } else {
                    Seq::empty()
                };
                let log = resolve_child(
                    graph@,
                    *child,
                    accumulated_name(name_chars(parent_name), name_view(*name)),
                    (depth - 1) as nat,
                ).log;
                assert(diagnostics@ =~= start + (first + log));
            }
            match below {
                Ok(contents) => {
                    let node = VoxelNode {
                        name: names.1,
                        transform,
                        children: contents.children,
                        model_id: contents.model_id,
                        is_hidden,
                        layer_id: *layer_id,
                    };
                    proof {
                        lemma_children_view(node);
                    }
                    Ok(node)
                },
                Err(e) => Err(e),
            }
        },
        _ => {
            diagnostics.push(Diagnostic::OrphanNode { node: index });
            let below = parse_xform_child(graph, index, parent_name, depth - 1, diagnostics);
            proof {
                let log = resolve_child(
                    graph@,
                    index,
                    name_chars(parent_name),
                    (depth - 1) as nat,
                ).log;
                assert(diagnostics@ =~= start + (seq![Diagnostic::OrphanNode { node: index }]
                    + log));
            }
            match below {
                Ok(contents) => {
                    let node = VoxelNode {
                        name: None,
                        transform: LocalTransform {
                            translation: Translation { x: 0, y: 0, z: 0 },
                            rotation: None,
                        },
                        children: contents.children,
                        model_id: contents.model_id,
                        is_hidden: false,
                        layer_id: 0,
                    };
                    proof {
                        lemma_children_view(node);
                    }
                    Ok(node)
                },
                Err(e) => Err(e),
            }
        },
    }
}

/// Resolves what the graph's node `index` gives to the transform node
/// above it, whose name path is `parent_name`.
pub fn parse_xform_child(
    graph: &Vec<SceneNode>,
    index: u32,
    parent_name: Option<&String>,
    depth: usize,
    diagnostics: &mut Vec<Diagnostic>,
) -> (r: Result<NodeContents, SceneError>)
    ensures
        final(diagnostics)@ == old(diagnostics)@ + resolve_child(
            graph@,
            index,
            name_chars(parent_name),
            depth as nat,
        ).log,
        match r {
            Ok(contents) => resolve_child(
                graph@,
                index,
                name_chars(parent_name),
                depth as nat,
            ).outcome == Ok::<Contents, SceneError>(contents@),
            Err(e) => resolve_child(graph@, index, name_chars(parent_name), depth as nat).outcome
                == Err::<Contents, SceneError>(e),
        },
    decreases depth, 2nat, 0nat,
{
    let ghost start = diagnostics@;
    let ghost parent = name_chars(parent_name);
    assert(start =~= start + Seq::<Diagnostic>::empty());
    if index as usize >= graph.len() {
        return Err(SceneError::BadReference { node: index });
    }
    match &graph[index as usize] {
        SceneNode::Transform { .. } => {
            diagnostics.push(Diagnostic::NestedTransform { node: index });
            let nested = parse_xform_node(graph, index, parent_name, depth, diagnostics);
            proof {
                let log = resolve_node(graph@, index, parent, depth as nat).log;
                assert(diagnostics@ =~= start + (seq![Diagnostic::NestedTransform { node: index }]
                    + log));
            }
            match nested {
                Ok(node) => {
                    let mut children: Vec<VoxelNode> = Vec::new();
                    children.push(node);
                    let contents = NodeContents { children, model_id: None };
                    proof {
                        lemma_nodes_view(contents.children, 1);
                        assert(contents@.children =~= seq![node@]);
                    }
                    Ok(contents)
                },
                Err(e) => Err(e),
            }
        },
        SceneNode::Group { children } => {
            let mut nodes: Vec<VoxelNode> = Vec::new();
            let mut i: usize = 0;
            proof {
                lemma_nodes_view(nodes, 0);
            }
            while i < children.len()
                invariant
                    i <= children@.len(),
                    parent == name_chars(parent_name),
                    start == old(diagnostics)@,
                    index < graph@.len(),
                    graph@[index as int] == (SceneNode::Group { children: *children }),
                    nodes@.len() == i,
                    resolve_children(graph@, children@, parent, depth as nat, i as nat).outcome
                        == Ok::<Seq<NodeView>, SceneError>(nodes_view(nodes, i as nat)),
                    diagnostics@ == start + resolve_children(
                        graph@,
                        children@,
                        parent,
                        depth as nat,
                        i as nat,
                    ).log,
                decreases children@.len() - i,
            {
                let ghost before = resolve_children(
                    graph@,
                    children@,
                    parent,
                    depth as nat,
                    i as nat,
                );
                let ghost last = resolve_node(graph@, children@[i as int], parent, depth as nat);
                let ghost sofar = nodes;
                let child = parse_xform_node(graph, children[i], parent_name, depth, diagnostics);
                assert(diagnostics@ =~= start + (before.log + last.log));
                match child {
                    Ok(node) => {
                        nodes.push(node);
                        proof {
                            lemma_nodes_view(sofar, i as nat);
                            lemma_nodes_view(nodes, (i + 1) as nat);
                            assert(nodes_view(nodes, (i + 1) as nat) =~= nodes_view(
                                sofar,
                                i as nat,
                            ).push(node@));
                        }
                    },
                    Err(e) => {
                        proof {
                            lemma_children_fail(
                                graph@,
                                children@,
                                parent,
                                depth as nat,
                                (i + 1) as nat,
                                children@.len(),
                            );
                        }
                        return Err(e);
                    },
                }
                i += 1;
            }
            Ok(NodeContents { children: nodes, model_id: None })
        },
        SceneNode::Shape { models } => {
            if models.len() > 1 {
                diagnostics.push(Diagnostic::ExtraModels { node: index });
            }
            let model_id = if models.len() == 0 {
                None
            } else {
                Some(models[0] as usize)
            };
            let contents = NodeContents { children: Vec::new(), model_id };
            proof {
                lemma_nodes_view(contents.children, 0);
                assert(contents@.children =~= Seq::<NodeView>::empty());
            }
            Ok(contents)
        },
    }
}

/// Once a child of a group has failed, the children after it change
/// nothing.
proof fn lemma_children_fail(
    graph: Seq<SceneNode>,
    children: Seq<u32>,
    parent: Option<Seq<char>>,
    depth: nat,
    n: nat,
    m: nat,
)
    requires
        n <= m <= children.len(),
        resolve_children(graph, children, parent, depth, n).outcome is Err,
    ensures
        resolve_children(graph, children, parent, depth, m) == resolve_children(
            graph,
            children,
            parent,
            depth,
            n,
        ),
    decreases m,
{
    if n < m {
        lemma_children_fail(graph, children, parent, depth, n, (m - 1) as nat);
    }
}

} // verus!
