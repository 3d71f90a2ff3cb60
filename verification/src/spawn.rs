//! Layers, visibility, and the list of what a host has to create for a
//! tree of nodes.
use crate::voxel_scene::{
    bool_invalid, bool_value, copy_name, lemma_children_view, name_view, parse_bool, Diagnostic,
    LocalTransform, NodeView, VoxelNode,
};
use vstd::prelude::*;

verus! {

/// A layer as the file gives it: its `_name` and `_hidden` attributes.
#[derive(Clone, Debug, PartialEq, Eq)]
pub struct Layer {
    pub name: Option<String>,
    pub hidden: Option<String>,
}

/// What is known of a layer: its name, and whether all on it is hidden.
#[derive(Clone, Debug, PartialEq, Eq)]
pub struct LayerInfo {
    pub name: Option<String>,
    pub is_hidden: bool,
}

/// The tag of a node that a layer is known for: the layer's number and
/// name.
#[derive(Clone, Debug, PartialEq, Eq)]
pub struct VoxelLayer {
    pub id: u32,
    pub name: Option<String>,
}

/// The number of the layer that a node is on.
#[derive(Clone, Copy, Debug, PartialEq, Eq, Structural)]
pub struct LayerData(pub u32);

/// What is known of a layer, names as sequences of characters.
pub struct LayerInfoView {
    pub name: Option<Seq<char>>,
    pub is_hidden: bool,
}

impl View for LayerInfo {
    type V = LayerInfoView;

    open spec fn view(&self) -> LayerInfoView {
        LayerInfoView { name: name_view(self.name), is_hidden: self.is_hidden }
    }
}

/// What is known of the layers of a list.
pub open spec fn layer_views(layers: Seq<LayerInfo>) -> Seq<LayerInfoView> {
    Seq::new(layers.len(), |i: int| layers[i]@)
}

/// What a layer of the file says.
pub open spec fn layer_info_of(layer: Layer) -> LayerInfoView {
    LayerInfoView { name: name_view(layer.name), is_hidden: bool_value(name_view(layer.hidden)) }
}

/// The diagnostics of the first `n` layers of a file: one for each layer
/// whose `_hidden` attribute is neither `0` nor `1`.
pub open spec fn layer_log(layers: Seq<Layer>, n: nat) -> Seq<Diagnostic>
    decreases n,
{
    if n == 0 {
        Seq::empty()
    } else {
        let before = layer_log(layers, (n - 1) as nat);
        if bool_invalid(name_view(layers[n - 1].hidden)) {
            before.push(Diagnostic::InvalidLayerBoolean { layer: (n - 1) as usize })
        } else {
            before
        }
    }
}

/// Reads the layers of a file. A layer is hidden when its `_hidden`
/// attribute is `1`; an attribute that is neither `0` nor `1` counts as
/// not hidden and is written to `diagnostics`.
pub fn read_layers(layers: &Vec<Layer>, diagnostics: &mut Vec<Diagnostic>) -> (infos: Vec<LayerInfo>)
    ensures
        infos@.len() == layers@.len(),
        forall|i: int| 0 <= i < layers@.len() ==> (#[trigger] infos@[i])@ == layer_info_of(layers@[i]),
        final(diagnostics)@ == old(diagnostics)@ + layer_log(layers@, layers@.len()),
{
    let ghost start = diagnostics@;
    let mut infos: Vec<LayerInfo> = Vec::new();
    let mut i: usize = 0;
    assert(start =~= start + layer_log(layers@, 0));
    while i < layers.len()
        invariant
            i <= layers@.len(),
            infos@.len() == i,
            forall|k: int| 0 <= k < i ==> (#[trigger] infos@[k])@ == layer_info_of(layers@[k]),
            diagnostics@ == start + layer_log(layers@, i as nat),
        decreases layers@.len() - i,
    {
        let layer = &layers[i];
        let ghost before = layer_log(layers@, i as nat);
        let is_hidden = parse_bool(
            layer.hidden.as_ref(),
            Diagnostic::InvalidLayerBoolean { layer: i },
            diagnostics,
        );
        infos.push(LayerInfo { name: copy_name(&layer.name), is_hidden });
        assert(diagnostics@ =~= start + layer_log(layers@, (i + 1) as nat));
        i += 1;
    }
    infos
}

/// A node is hidden when it is hidden itself or when its layer is. A node
/// on a layer of which nothing is known is not hidden by it.
pub open spec fn effectively_hidden(node: NodeView, layers: Seq<LayerInfoView>) -> bool {
    node.is_hidden || (node.layer_id < layers.len() && layers[node.layer_id as int].is_hidden)
}

/// Whether a node is hidden, by itself or by its layer.
pub fn is_effectively_hidden(node: &VoxelNode, layers: &Vec<LayerInfo>) -> (hidden: bool)
    ensures
        hidden == effectively_hidden(node@, layer_views(layers@)),
{
    if node.is_hidden {
        return true;
    }
    let id = node.layer_id as usize;
    if id < layers.len() {
        layers[id].is_hidden
    } else {
        false
    }
}

/// A hidden layer hides every node on it, whatever the node says of
/// itself.
pub proof fn lemma_hidden_layer_dominates(node: NodeView, layers: Seq<LayerInfoView>)
    requires
        node.layer_id < layers.len(),
        layers[node.layer_id as int].is_hidden,
    ensures
        effectively_hidden(node, layers),
{
}

/// A layer of which nothing is known hides nothing: a node on it that is
/// not hidden itself is visible.
pub proof fn lemma_unknown_layer_is_visible(node: NodeView, layers: Seq<LayerInfoView>)
    requires
        node.layer_id >= layers.len(),
        !node.is_hidden,
    ensures
        !effectively_hidden(node, layers),
{
}

/// What a host has to create for one node of a tree.
#[derive(Clone, Debug, PartialEq, Eq)]
pub struct SpawnDirective {
    /// The number of this object: its place in the list.
    pub id: usize,
    /// The number of the object that this one hangs under; none for the
    /// root.
    pub parent: Option<usize>,
    pub transform: LocalTransform,
    /// The model to show, when the node names one that the scene has.
    pub model: Option<usize>,
    /// The model that the node names and the scene does not have.
    pub missing_model: Option<usize>,
    pub name: Option<String>,
    /// The number of the node's layer.
    pub layer_id: LayerData,
    /// The layer tag, when the scene knows the node's layer.
    pub layer: Option<VoxelLayer>,
    /// Whether the node or its layer is hidden.
    pub is_hidden: bool,
}

/// What a directive holds, names as sequences of characters.
pub struct DirectiveView {
    pub id: usize,
    pub parent: Option<usize>,
    pub transform: LocalTransform,
    pub model: Option<usize>,
    pub missing_model: Option<usize>,
    pub name: Option<Seq<char>>,
    pub layer_id: LayerData,
    pub layer: Option<(u32, Option<Seq<char>>)>,
    pub is_hidden: bool,
}

impl View for SpawnDirective {
    type V = DirectiveView;

    open spec fn view(&self) -> DirectiveView {
        DirectiveView {
            id: self.id,
            parent: self.parent,
            transform: self.transform,
            model: self.model,
            missing_model: self.missing_model,
            name: name_view(self.name),
            layer_id: self.layer_id,
            layer: match self.layer {
                Some(layer) => Some((layer.id, name_view(layer.name))),
                None => None,
            },
            is_hidden: self.is_hidden,
        }
    }
}

/// What the directives of a list hold.
pub open spec fn directive_views(list: Seq<SpawnDirective>) -> Seq<DirectiveView> {
    Seq::new(list.len(), |i: int| list[i]@)
}

/// The directive for a node that becomes object `id` under `parent`, in a
/// scene with these layers and `models` models.
pub open spec fn directive_of(
    node: NodeView,
    id: usize,
    parent: Option<usize>,
    layers: Seq<LayerInfoView>,
    models: nat,
) -> DirectiveView {
    DirectiveView {
        id,
        parent,
        transform: node.transform,
        model: match node.model_id {
            Some(m) if m < models => Some(m),
            _ => None,
        },
        missing_model: match node.model_id {
            Some(m) if m >= models => Some(m),
            _ => None,
        },
        name: node.name,
        layer_id: LayerData(node.layer_id),
        layer: if node.layer_id < layers.len() {
            Some((node.layer_id, layers[node.layer_id as int].name))
        } else {
            None
        },
        is_hidden: effectively_hidden(node, layers),
    }
}

/// The list `out` with the directives for a node and all below it: the
/// node first, as the object whose number is the length of the list so
/// far, then its children in order, each with all below it.
pub open spec fn emit(
    node: NodeView,
    parent: Option<usize>,
    out: Seq<DirectiveView>,
    layers: Seq<LayerInfoView>,
    models: nat,
) -> Seq<DirectiveView>
    decreases node,
{
    emit_children(
        node.children,
        out.len() as usize,
        out.push(directive_of(node, out.len() as usize, parent, layers, models)),
        layers,
        models,
        node.children.len(),
    )
}

/// The list `out` with the directives for the first `n` nodes of a list
/// and all below them, all of them children of object `parent`.
pub open spec fn emit_children(
    nodes: Seq<NodeView>,
    parent: usize,
    out: Seq<DirectiveView>,
    layers: Seq<LayerInfoView>,
    models: nat,
    n: nat,
) -> Seq<DirectiveView>
    decreases nodes, n,
{
    if n == 0 || n > nodes.len() {
        out
    } else {
        emit(
            nodes[n - 1],
            Some(parent),
            emit_children(nodes, parent, out, layers, models, (n - 1) as nat),
            layers,
            models,
        )
    }
}

/// The directives for a whole tree.
pub open spec fn directives_of(root: NodeView, layers: Seq<LayerInfoView>, models: nat) -> Seq<
    DirectiveView,
> {
    emit(root, None, Seq::empty(), layers, models)
}

fn emit_node(
    node: &VoxelNode,
    parent: Option<usize>,
    layers: &Vec<LayerInfo>,
    models: usize,
    out: &mut Vec<SpawnDirective>,
)
    ensures
        directive_views(final(out)@) == emit(
            node@,
            parent,
            directive_views(old(out)@),
            layer_views(layers@),
            models as nat,
        ),
    decreases node,
{
    let ghost start = directive_views(out@);
    let ghost infos = layer_views(layers@);
    let id = out.len();
    let hidden = is_effectively_hidden(node, layers);
    let layer_id = node.layer_id as usize;
    let layer = if layer_id < layers.len() {
        Some(VoxelLayer { id: node.layer_id, name: copy_name(&layers[layer_id].name) })
    } else {
        None
    };
    let model = match node.model_id {
        Some(m) => if m < models {
            Some(m)
        } else {
            None
        },
        None => None,
    };
    let missing_model = match node.model_id {
        Some(m) => if m >= models {
            Some(m)
        } else {
            None
        },
        None => None,
    };
    let directive = SpawnDirective {
        id,
        parent,
        transform: node.transform,
        model,
        missing_model,
        name: copy_name(&node.name),
        layer_id: LayerData(node.layer_id),
        layer,
        is_hidden: hidden,
    };
    assert(directive@ == directive_of(node@, id, parent, infos, models as nat));
    out.push(directive);
    assert(directive_views(out@) =~= start.push(directive@));
    proof {
        lemma_children_view(*node);
    }
    let mut i: usize = 0;
    while i < node.children.len()
        invariant
            i <= node.children@.len(),
            infos == layer_views(layers@),
            node@.children.len() == node.children@.len(),
            forall|k: int|
                0 <= k < node.children@.len() ==> #[trigger] node@.children[k]
                    == node.children@[k]@,
            directive_views(out@) == emit_children(
                node@.children,
                id,
                start.push(directive_of(node@, id, parent, infos, models as nat)),
                infos,
                models as nat,
                i as nat,
            ),
        decreases node.children@.len() - i,
    {
        assert(node@.children[i as int] == node.children@[i as int]@);
        emit_node(&node.children[i], Some(id), layers, models, out);
        i += 1;
    }
}

/// Lists what a host has to create for a tree, in an order in which every
/// object comes after the one it hangs under.
pub fn spawn_directives(root: &VoxelNode, layers: &Vec<LayerInfo>, models: usize) -> (list: Vec<
    SpawnDirective,
>)
    ensures
        directive_views(list@) == directives_of(root@, layer_views(layers@), models as nat),
        parents_first(directive_views(list@)),
{
    let mut list: Vec<SpawnDirective> = Vec::new();
    assert(directive_views(list@) =~= Seq::<DirectiveView>::empty());
    emit_node(root, None, layers, models, &mut list);
    let count = list.len();
    proof {
        assert(directive_views(list@).len() == count);
        lemma_parents_first(root@, layer_views(layers@), models as nat);
    }
    list
}

/// Every directive of the list has its place as its number, and hangs
/// under an object that stands earlier in the list, if under any.
pub open spec fn parents_first(list: Seq<DirectiveView>) -> bool {
    forall|i: int|
        0 <= i < list.len() ==> {
            &&& (#[trigger] list[i]).id == i
            &&& (list[i].parent matches Some(p) ==> p < i)
        }
}

/// Adding a node and all below it to a list keeps what is there, makes the
/// list longer, and keeps every object after the one it hangs under.
proof fn lemma_emit(
    node: NodeView,
    parent: Option<usize>,
    out: Seq<DirectiveView>,
    layers: Seq<LayerInfoView>,
    models: nat,
)
    requires
        parents_first(out),
        parent matches Some(p) ==> p < out.len(),
        emit(node, parent, out, layers, models).len() <= usize::MAX,
    ensures
        parents_first(emit(node, parent, out, layers, models)),
        out.len() < emit(node, parent, out, layers, models).len(),
        emit(node, parent, out, layers, models).subrange(0, out.len() as int) == out,
        emit(node, parent, out, layers, models)[out.len() as int] == directive_of(
            node,
            out.len() as usize,
            parent,
            layers,
            models,
        ),
    decreases node, 0nat,
{
    let first = out.push(directive_of(node, out.len() as usize, parent, layers, models));
    lemma_emit_children_grows(
        node.children,
        out.len() as usize,
        first,
        layers,
        models,
        node.children.len(),
    );
    lemma_emit_children(
        node.children,
        out.len() as usize,
        first,
        layers,
        models,
        node.children.len(),
    );
    let all = emit(node, parent, out, layers, models);
    assert(all.subrange(0, out.len() as int) =~= all.subrange(0, first.len() as int).subrange(
        0,
        out.len() as int,
    ));
    assert(first.subrange(0, out.len() as int) =~= out);
    assert(all[out.len() as int] == all.subrange(0, first.len() as int)[out.len() as int]);
}

/// Adding nodes to a list never makes it shorter.
proof fn lemma_emit_children_grows(
    nodes: Seq<NodeView>,
    parent: usize,
    out: Seq<DirectiveView>,
    layers: Seq<LayerInfoView>,
    models: nat,
    n: nat,
)
    requires
        n <= nodes.len(),
    ensures
        out.len() <= emit_children(nodes, parent, out, layers, models, n).len(),
        forall|m: nat|
            m <= n ==> (#[trigger] emit_children(nodes, parent, out, layers, models, m)).len()
                <= emit_children(nodes, parent, out, layers, models, n).len(),
    decreases nodes, n,
{
    if n > 0 {
        let before = emit_children(nodes, parent, out, layers, models, (n - 1) as nat);
        lemma_emit_children_grows(nodes, parent, out, layers, models, (n - 1) as nat);
        lemma_emit_grows(nodes[n - 1], Some(parent), before, layers, models);
    }
}

/// Adding a node and all below it to a list makes it longer.
proof fn lemma_emit_grows(
    node: NodeView,
    parent: Option<usize>,
    out: Seq<DirectiveView>,
    layers: Seq<LayerInfoView>,
    models: nat,
)
    ensures
        out.len() < emit(node, parent, out, layers, models).len(),
    decreases node, 0nat,
{
    lemma_emit_children_grows(
        node.children,
        out.len() as usize,
        out.push(directive_of(node, out.len() as usize, parent, layers, models)),
        layers,
        models,
        node.children.len(),
    );
}

/// Adding the first `n` nodes of a list, all under object `parent`, keeps
/// what is there and keeps every object after the one it hangs under.
proof fn lemma_emit_children(
    nodes: Seq<NodeView>,
    parent: usize,
    out: Seq<DirectiveView>,
    layers: Seq<LayerInfoView>,
    models: nat,
    n: nat,
)
    requires
        n <= nodes.len(),
        parents_first(out),
        parent < out.len(),
        emit_children(nodes, parent, out, layers, models, n).len() <= usize::MAX,
    ensures
        parents_first(emit_children(nodes, parent, out, layers, models, n)),
        emit_children(nodes, parent, out, layers, models, n).subrange(0, out.len() as int) == out,
    decreases nodes, n,
{
    if n > 0 {
        let before = emit_children(nodes, parent, out, layers, models, (n - 1) as nat);
        let after = emit_children(nodes, parent, out, layers, models, n);
        lemma_emit_children_grows(nodes, parent, out, layers, models, (n - 1) as nat);
        lemma_emit_grows(nodes[n - 1], Some(parent), before, layers, models);
        lemma_emit_children(nodes, parent, out, layers, models, (n - 1) as nat);
        lemma_emit(nodes[n - 1], Some(parent), before, layers, models);
        assert(after.subrange(0, out.len() as int) =~= after.subrange(
            0,
            before.len() as int,
        ).subrange(0, out.len() as int));
    } else {
        assert(out.subrange(0, out.len() as int) =~= out);
    }
}

/// In the directives of a tree every object has its place in the list as
/// its number, the root comes first and hangs under nothing, and every
/// other object hangs under one that comes before it.
pub proof fn lemma_parents_first(root: NodeView, layers: Seq<LayerInfoView>, models: nat)
    requires
        directives_of(root, layers, models).len() <= usize::MAX,
    ensures
        parents_first(directives_of(root, layers, models)),
        directives_of(root, layers, models).len() > 0,
        directives_of(root, layers, models)[0] == directive_of(root, 0, None, layers, models),
{
    lemma_emit(root, None, Seq::empty(), layers, models);
}

} // verus!
