use vox_scene::get_accumulated_and_node_name;
use vox_scene::voxel_scene::{
    parse_bool, parse_xform_child, parse_xform_node, transform_from_frame, Diagnostic, Frame,
    LocalTransform, Position, SceneError, SceneNode, Translation, VoxelNode,
};

fn s(text: &str) -> String {
    text.to_string()
}

fn transform(name: Option<&str>, child: u32) -> SceneNode {
    SceneNode::Transform {
        name: name.map(s),
        hidden: None,
        frames: vec![Frame { position: None, orientation: None }],
        child,
        layer_id: 0,
    }
}

fn group(children: &[u32]) -> SceneNode {
    SceneNode::Group { children: children.to_vec() }
}

fn shape(models: &[u32]) -> SceneNode {
    SceneNode::Shape { models: models.to_vec() }
}

fn identity() -> LocalTransform {
    LocalTransform { translation: Translation { x: 0, y: 0, z: 0 }, rotation: None }
}

fn study() -> Vec<SceneNode> {
    vec![
        transform(None, 1),
        group(&[2, 11]),
        transform(Some("outer-group"), 3),
        group(&[4, 9, 10]),
        transform(Some("inner-group"), 5),
        group(&[6, 8]),
        SceneNode::Transform {
            name: Some(s("dice")),
            hidden: Some(s("1")),
            frames: vec![
                Frame { position: Some(Position { x: 3, y: -4, z: 5 }), orientation: Some(40) },
                Frame { position: Some(Position { x: 9, y: 9, z: 9 }), orientation: None },
            ],
            child: 7,
            layer_id: 3,
        },
        shape(&[2]),
        transform(None, 7),
        transform(Some("walls"), 7),
        transform(None, 7),
        transform(Some("floor"), 7),
    ]
}

fn resolve(graph: &Vec<SceneNode>, index: u32) -> (Result<VoxelNode, SceneError>, Vec<Diagnostic>) {
    let mut diagnostics = Vec::new();
    let r = parse_xform_node(graph, index, None, graph.len() + 1, &mut diagnostics);
    (r, diagnostics)
}

#[test]
fn names_accumulate_along_the_way_down() {
    let (root, diagnostics) = resolve(&study(), 0);
    let root = root.expect("a tree");
    assert!(diagnostics.is_empty());
    assert_eq!(root.name, None);
    assert_eq!(root.children.len(), 2);
    let outer = &root.children[0];
    assert_eq!(outer.name, Some(s("outer-group")));
    assert_eq!(outer.children.len(), 3);
    let inner = &outer.children[0];
    assert_eq!(inner.name, Some(s("outer-group/inner-group")));
    assert_eq!(inner.children.len(), 2);
    assert_eq!(inner.children[0].name, Some(s("outer-group/inner-group/dice")));
    assert_eq!(inner.children[1].name, None);
    assert_eq!(outer.children[1].name, Some(s("outer-group/walls")));
    assert_eq!(root.children[1].name, Some(s("floor")));
}

#[test]
fn group_adds_no_path_segment() {
    let graph = vec![
        transform(Some("outer"), 1),
        group(&[2]),
        transform(Some("inner"), 3),
        shape(&[0]),
    ];
    let root = resolve(&graph, 0).0.expect("a tree");
    assert_eq!(root.name, Some(s("outer")));
    assert_eq!(root.children.len(), 1);
    assert_eq!(root.children[0].name, Some(s("outer/inner")));
    assert_eq!(root.children[0].model_id, Some(0));
}

#[test]
fn unnamed_node_passes_the_path_down() {
    let graph = vec![
        transform(Some("a"), 1),
        group(&[2]),
        transform(None, 3),
        group(&[4]),
        transform(Some("b"), 5),
        shape(&[1]),
    ];
    let root = resolve(&graph, 0).0.expect("a tree");
    assert_eq!(root.children[0].name, None);
    assert_eq!(root.children[0].children[0].name, Some(s("a/b")));
}

#[test]
fn transform_node_fills_all_fields() {
    let (node, diagnostics) = resolve(&study(), 6);
    let node = node.expect("a tree");
    assert!(diagnostics.is_empty());
    assert_eq!(
        node,
        VoxelNode {
            name: Some(s("dice")),
            transform: LocalTransform {
                translation: Translation { x: -3, y: 5, z: -4 },
                rotation: Some(40),
            },
            children: vec![],
            model_id: Some(2),
            is_hidden: true,
            layer_id: 3,
        }
    );
}

#[test]
fn default_node_is_plain() {
    assert_eq!(
        VoxelNode::default(),
        VoxelNode {
            name: None,
            transform: identity(),
            children: vec![],
            model_id: None,
            is_hidden: false,
            layer_id: 0,
        }
    );
}

#[test]
fn accumulated_and_node_name_in_all_four_cases() {
    let p = s("parent");
    let n = s("node");
    assert_eq!(get_accumulated_and_node_name(None, None), (None, None));
    assert_eq!(get_accumulated_and_node_name(None, Some(&n)), (Some(s("node")), Some(s("node"))));
    assert_eq!(get_accumulated_and_node_name(Some(&p), None), (Some(s("parent")), None));
    assert_eq!(
        get_accumulated_and_node_name(Some(&p), Some(&n)),
        (Some(s("parent/node")), Some(s("parent/node")))
    );
}

#[test]
fn booleans_are_one_and_zero() {
    let invalid = Diagnostic::InvalidBoolean { node: 4 };
    let mut log = Vec::new();
    assert!(parse_bool(Some(&s("1")), invalid, &mut log));
    assert!(!parse_bool(Some(&s("0")), invalid, &mut log));
    assert!(!parse_bool(None, invalid, &mut log));
    assert!(log.is_empty());
    for odd in ["true", "", "2", "11", "é"] {
        let mut log = Vec::new();
        assert!(!parse_bool(Some(&s(odd)), invalid, &mut log));
        assert_eq!(log, vec![invalid]);
    }
}

#[test]
fn frame_swaps_the_up_axis_and_mirrors_x() {
    let frame = Frame { position: Some(Position { x: 1, y: 2, z: 3 }), orientation: Some(4) };
    assert_eq!(
        transform_from_frame(&frame),
        LocalTransform { translation: Translation { x: -1, y: 3, z: 2 }, rotation: Some(4) }
    );
    let far = Frame {
        position: Some(Position { x: i32::MIN, y: i32::MAX, z: i32::MIN }),
        orientation: None,
    };
    assert_eq!(
        transform_from_frame(&far).translation,
        Translation { x: 2147483648, y: -2147483648, z: 2147483647 }
    );
}

#[test]
fn frame_without_position_still_turns() {
    let frame = Frame { position: None, orientation: Some(17) };
    assert_eq!(
        transform_from_frame(&frame),
        LocalTransform { translation: Translation { x: 0, y: 0, z: 0 }, rotation: Some(17) }
    );
}

#[test]
fn frame_without_orientation_only_moves() {
    let frame = Frame { position: Some(Position { x: 4, y: 5, z: 6 }), orientation: None };
    assert_eq!(
        transform_from_frame(&frame),
        LocalTransform { translation: Translation { x: -4, y: 6, z: 5 }, rotation: None }
    );
}

#[test]
fn frame_without_position_or_orientation_places_nothing() {
    let frame = Frame { position: None, orientation: None };
    assert_eq!(transform_from_frame(&frame), identity());
}

#[test]
fn transform_without_frames_places_nothing() {
    let graph = vec![
        SceneNode::Transform { name: None, hidden: None, frames: vec![], child: 1, layer_id: 2 },
        shape(&[]),
    ];
    let node = resolve(&graph, 0).0.expect("a tree");
    assert_eq!(node.transform, identity());
    assert_eq!(node.model_id, None);
    assert_eq!(node.layer_id, 2);
}

#[test]
fn reference_outside_the_graph_fails() {
    let graph = vec![transform(None, 1), group(&[2, 7]), transform(None, 3), shape(&[0])];
    let (r, _) = resolve(&graph, 0);
    assert_eq!(r, Err(SceneError::BadReference { node: 7 }));
    assert_eq!(resolve(&graph, 9).0, Err(SceneError::BadReference { node: 9 }));
    assert_eq!(resolve(&vec![], 0).0, Err(SceneError::BadReference { node: 0 }));
}

#[test]
fn graph_that_leads_back_into_itself_fails() {
    let graph = vec![transform(None, 1), group(&[0])];
    let (r, _) = resolve(&graph, 0);
    assert!(matches!(r, Err(SceneError::Cycle { .. })));
}

#[test]
fn depth_bounds_the_way_down() {
    let graph = vec![transform(None, 1), group(&[2]), transform(None, 3), shape(&[0])];
    let mut log = Vec::new();
    assert_eq!(
        parse_xform_node(&graph, 0, None, 0, &mut log),
        Err(SceneError::Cycle { node: 0 })
    );
    assert_eq!(
        parse_xform_node(&graph, 0, None, 1, &mut log),
        Err(SceneError::Cycle { node: 2 })
    );
    assert!(parse_xform_node(&graph, 0, None, 2, &mut log).is_ok());
}

#[test]
fn group_at_the_entry_gets_a_plain_node_and_a_diagnostic() {
    let (node, diagnostics) = resolve(&study(), 5);
    let node = node.expect("a tree");
    assert_eq!(diagnostics, vec![Diagnostic::OrphanNode { node: 5 }]);
    assert_eq!(node.name, None);
    assert_eq!(node.transform, identity());
    assert_eq!(node.children.len(), 2);
    assert_eq!(node.children[0].name, Some(s("dice")));
}

#[test]
fn shape_at_the_entry_gets_a_plain_node_and_a_diagnostic() {
    let (node, diagnostics) = resolve(&study(), 7);
    let node = node.expect("a tree");
    assert_eq!(diagnostics, vec![Diagnostic::OrphanNode { node: 7 }]);
    assert_eq!(node.model_id, Some(2));
    assert!(node.children.is_empty());
}

#[test]
fn nested_transform_becomes_the_only_child() {
    let graph = vec![transform(Some("a"), 1), transform(Some("b"), 2), shape(&[4])];
    let (node, diagnostics) = resolve(&graph, 0);
    let node = node.expect("a tree");
    assert_eq!(diagnostics, vec![Diagnostic::NestedTransform { node: 1 }]);
    assert_eq!(node.model_id, None);
    assert_eq!(node.children.len(), 1);
    assert_eq!(node.children[0].name, Some(s("a/b")));
    assert_eq!(node.children[0].model_id, Some(4));
}

#[test]
fn only_the_first_model_of_a_shape_counts() {
    let graph = vec![transform(None, 1), shape(&[6, 2, 9])];
    let (node, diagnostics) = resolve(&graph, 0);
    assert_eq!(node.expect("a tree").model_id, Some(6));
    assert_eq!(diagnostics, vec![Diagnostic::ExtraModels { node: 1 }]);
}

#[test]
fn odd_hidden_attribute_counts_as_visible() {
    let graph = vec![
        SceneNode::Transform {
            name: None,
            hidden: Some(s("yes")),
            frames: vec![],
            child: 1,
            layer_id: 0,
        },
        shape(&[0]),
    ];
    let (node, diagnostics) = resolve(&graph, 0);
    assert!(!node.expect("a tree").is_hidden);
    assert_eq!(diagnostics, vec![Diagnostic::InvalidBoolean { node: 0 }]);
}

#[test]
fn diagnostics_come_in_the_order_of_the_walk() {
    let graph = vec![
        group(&[1, 3]),
        SceneNode::Transform {
            name: None,
            hidden: Some(s("x")),
            frames: vec![],
            child: 2,
            layer_id: 0,
        },
        shape(&[0, 1]),
        transform(None, 4),
        transform(None, 2),
    ];
    let mut log = vec![Diagnostic::ExtraModels { node: 77 }];
    let r = parse_xform_node(&graph, 0, None, 9, &mut log);
    assert!(r.is_ok());
    assert_eq!(
        log,
        vec![
            Diagnostic::ExtraModels { node: 77 },
            Diagnostic::OrphanNode { node: 0 },
            Diagnostic::InvalidBoolean { node: 1 },
            Diagnostic::ExtraModels { node: 2 },
            Diagnostic::NestedTransform { node: 4 },
            Diagnostic::ExtraModels { node: 2 },
        ]
    );
}

#[test]
fn child_of_a_transform_gives_its_contents() {
    let graph = study();
    let mut log = Vec::new();
    let parent = s("up");
    let contents = parse_xform_child(&graph, 5, Some(&parent), 5, &mut log).expect("contents");
    assert_eq!(contents.model_id, None);
    assert_eq!(contents.children.len(), 2);
    assert_eq!(contents.children[0].name, Some(s("up/dice")));
    let contents = parse_xform_child(&graph, 7, Some(&parent), 5, &mut log).expect("contents");
    assert_eq!(contents.model_id, Some(2));
    assert!(log.is_empty());
}

#[test]
fn clone_copies_the_whole_tree() {
    let root = resolve(&study(), 0).0.expect("a tree");
    assert_eq!(root.clone(), root);
    assert_eq!(root.deep_copy(), root);
}
