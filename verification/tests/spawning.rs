use std::collections::HashMap;
use vox_scene::face::right_handed_y_up_faces;
use vox_scene::loader::{build_model, load_asset, Asset, ModelError, VoxelModel};
use vox_scene::mesh::{mesh_model, Coloring, Rgba};
use vox_scene::spawn::{
    is_effectively_hidden, read_layers, spawn_directives, Layer, LayerData, LayerInfo, VoxelLayer,
};
use vox_scene::voxel::{load_from_model, Model, ModelSize, ModelVoxel};
use vox_scene::voxel_scene::{
    Diagnostic, Frame, LocalTransform, Position, SceneError, SceneNode, Translation, VoxelNode,
};

fn s(text: &str) -> String {
    text.to_string()
}

fn node(name: Option<&str>, layer_id: u32, is_hidden: bool, children: Vec<VoxelNode>) -> VoxelNode {
    VoxelNode {
        name: name.map(s),
        transform: LocalTransform {
            translation: Translation { x: layer_id as i64, y: 0, z: 0 },
            rotation: None,
        },
        children,
        model_id: None,
        is_hidden,
        layer_id,
    }
}

fn layers(hidden: &[bool]) -> Vec<LayerInfo> {
    hidden
        .iter()
        .enumerate()
        .map(|(i, &is_hidden)| LayerInfo { name: Some(format!("layer{}", i)), is_hidden })
        .collect()
}

fn model(size: (u32, u32, u32), voxels: &[(u8, u8, u8, u8)]) -> Model {
    Model {
        size: ModelSize { x: size.0, y: size.1, z: size.2 },
        voxels: voxels.iter().map(|&(x, y, z, i)| ModelVoxel { x, y, z, i }).collect(),
    }
}

fn transform(name: Option<&str>, child: u32) -> SceneNode {
    SceneNode::Transform {
        name: name.map(s),
        hidden: None,
        frames: vec![Frame { position: Some(Position { x: 1, y: 2, z: 3 }), orientation: None }],
        child,
        layer_id: 1,
    }
}

#[test]
fn hidden_layer_hides_a_visible_node() {
    let layers = layers(&[false, false, false, true]);
    assert!(is_effectively_hidden(&node(None, 3, false, vec![]), &layers));
}

#[test]
fn unknown_layer_hides_nothing() {
    let layers = layers(&[true, true]);
    assert!(!is_effectively_hidden(&node(None, 2, false, vec![]), &layers));
    assert!(!is_effectively_hidden(&node(None, u32::MAX, false, vec![]), &layers));
    assert!(!is_effectively_hidden(&node(None, 0, false, vec![]), &vec![]));
}

#[test]
fn hidden_node_is_hidden_on_any_layer() {
    let layers = layers(&[false]);
    assert!(is_effectively_hidden(&node(None, 0, true, vec![]), &layers));
    assert!(is_effectively_hidden(&node(None, 9, true, vec![]), &layers));
}

#[test]
fn visible_node_on_a_visible_layer_is_visible() {
    let layers = layers(&[true, false]);
    assert!(!is_effectively_hidden(&node(None, 1, false, vec![]), &layers));
    assert!(is_effectively_hidden(&node(None, 0, false, vec![]), &layers));
}

#[test]
fn layers_are_read_from_their_attributes() {
    let file = vec![
        Layer { name: Some(s("scenery")), hidden: None },
        Layer { name: None, hidden: Some(s("1")) },
        Layer { name: Some(s("props")), hidden: Some(s("0")) },
        Layer { name: Some(s("odd")), hidden: Some(s("no")) },
    ];
    let mut log = Vec::new();
    let infos = read_layers(&file, &mut log);
    assert_eq!(
        infos,
        vec![
            LayerInfo { name: Some(s("scenery")), is_hidden: false },
            LayerInfo { name: None, is_hidden: true },
            LayerInfo { name: Some(s("props")), is_hidden: false },
            LayerInfo { name: Some(s("odd")), is_hidden: false },
        ]
    );
    assert_eq!(log, vec![Diagnostic::InvalidLayerBoolean { layer: 3 }]);
}

#[test]
fn directives_list_parents_before_children() {
    let mut leaf = node(Some("a/b/c"), 0, false, vec![]);
    leaf.model_id = Some(1);
    let mut lost = node(None, 7, false, vec![]);
    lost.model_id = Some(2);
    let root = node(
        Some("a"),
        1,
        false,
        vec![node(Some("a/b"), 0, true, vec![leaf]), lost, node(Some("a/d"), 1, false, vec![])],
    );
    let layers = layers(&[false, true]);
    let list = spawn_directives(&root, &layers, 2);
    assert_eq!(list.len(), 5);
    let ids: Vec<usize> = list.iter().map(|d| d.id).collect();
    assert_eq!(ids, vec![0, 1, 2, 3, 4]);
    let parents: Vec<Option<usize>> = list.iter().map(|d| d.parent).collect();
    assert_eq!(parents, vec![None, Some(0), Some(1), Some(0), Some(0)]);
    let names: Vec<Option<String>> = list.iter().map(|d| d.name.clone()).collect();
    assert_eq!(names, vec![Some(s("a")), Some(s("a/b")), Some(s("a/b/c")), None, Some(s("a/d"))]);
    let hidden: Vec<bool> = list.iter().map(|d| d.is_hidden).collect();
    assert_eq!(hidden, vec![true, true, false, false, true]);
    assert_eq!(list[2].model, Some(1));
    assert_eq!(list[2].missing_model, None);
    assert_eq!(list[3].model, None);
    assert_eq!(list[3].missing_model, Some(2));
    assert_eq!(list[0].model, None);
    assert_eq!(list[0].missing_model, None);
    assert_eq!(list[0].layer, Some(VoxelLayer { id: 1, name: Some(s("layer1")) }));
    assert_eq!(list[3].layer, None);
    assert_eq!(list[3].layer_id, LayerData(7));
    assert_eq!(list[0].layer_id, LayerData(1));
    assert_eq!(list[3].transform.translation, Translation { x: 7, y: 0, z: 0 });
    for d in &list {
        if let Some(p) = d.parent {
            assert!(p < d.id);
        }
    }
}

#[test]
fn single_node_gives_a_single_directive() {
    let list = spawn_directives(&VoxelNode::default(), &vec![], 0);
    assert_eq!(list.len(), 1);
    assert_eq!(list[0].id, 0);
    assert_eq!(list[0].parent, None);
    assert_eq!(list[0].layer, None);
    assert!(!list[0].is_hidden);
}

#[test]
fn model_is_laid_out_and_meshed() {
    let faces = right_handed_y_up_faces();
    let mut translucent = HashMap::new();
    translucent.insert(5u8, 1.3f32.to_bits());
    let m = model((2, 1, 1), &[(0, 0, 0, 5)]);
    let built = build_model(&m, &translucent, &faces, &Coloring::Atlas).expect("a model");
    assert_eq!(built.mesh.positions.len(), 24);
    assert_eq!(built.mesh.indices.len(), 36);
    assert_eq!(built.refraction_indices, vec![1.3f32.to_bits()]);
    let (grid, _) = load_from_model(&m, &translucent).expect("a grid");
    assert_eq!(built.mesh, mesh_model(&grid, &faces, &Coloring::Atlas));
}

#[test]
fn model_with_a_palette_is_colored() {
    let faces = right_handed_y_up_faces();
    let palette: Vec<Rgba> = (0..256u32).map(|i| Rgba { r: i as u8, g: 1, b: 2, a: 3 }).collect();
    let m = model((1, 1, 1), &[(0, 0, 0, 200)]);
    let built =
        build_model(&m, &HashMap::new(), &faces, &Coloring::Palette(palette)).expect("a model");
    assert_eq!(built.mesh.colors, vec![Rgba { r: 200, g: 1, b: 2, a: 3 }; 24]);
    assert!(built.mesh.uvs.is_empty());
}

#[test]
fn model_of_bad_size_is_refused() {
    let faces = right_handed_y_up_faces();
    for size in [(0, 1, 1), (1, 0, 1), (1, 1, 0), (257, 1, 1), (1, 300, 1), (1, 1, u32::MAX)] {
        let r = build_model(&model(size, &[]), &HashMap::new(), &faces, &Coloring::Atlas);
        assert_eq!(r, Err(ModelError::BadSize));
    }
}

#[test]
fn model_with_a_voxel_outside_is_refused() {
    let faces = right_handed_y_up_faces();
    let m = model((2, 2, 2), &[(1, 1, 1, 0), (0, 0, 2, 0)]);
    let r = build_model(&m, &HashMap::new(), &faces, &Coloring::Atlas);
    assert_eq!(r, Err(ModelError::VoxelOutOfBounds { voxel: 1 }));
}

#[test]
fn largest_model_is_accepted() {
    let faces = right_handed_y_up_faces();
    let m = model((256, 256, 256), &[(0, 0, 0, 1), (255, 255, 255, 1)]);
    let built = build_model(&m, &HashMap::new(), &faces, &Coloring::Atlas).expect("a model");
    assert_eq!(built.mesh.positions.len(), 48);
    assert_eq!(built.mesh.positions[0].x, 2 * 1 - 258);
}

fn file() -> (Vec<SceneNode>, Vec<Layer>, Vec<VoxelModel>) {
    let graph = vec![
        transform(None, 1),
        SceneNode::Group { children: vec![2, 4] },
        transform(Some("desk"), 3),
        SceneNode::Shape { models: vec![1] },
        transform(Some("lamp"), 5),
        SceneNode::Shape { models: vec![0] },
    ];
    let layers = vec![
        Layer { name: Some(s("scenery")), hidden: Some(s("maybe")) },
        Layer { name: Some(s("props")), hidden: Some(s("1")) },
    ];
    let faces = right_handed_y_up_faces();
    let models = vec![
        build_model(&model((1, 1, 1), &[(0, 0, 0, 1)]), &HashMap::new(), &faces, &Coloring::Atlas)
            .expect("a model"),
        build_model(&model((2, 1, 1), &[(0, 0, 0, 1)]), &HashMap::new(), &faces, &Coloring::Atlas)
            .expect("a model"),
    ];
    (graph, layers, models)
}

#[test]
fn whole_scene_is_loaded_under_its_path() {
    let (graph, layers, models) = file();
    let mut log = Vec::new();
    let asset = load_asset("study.vox", &graph, &layers, models.clone(), &mut log);
    let Ok(Asset::Scene(scene)) = asset else { panic!("a scene") };
    assert_eq!(scene.name, "study.vox");
    assert_eq!(scene.models, models);
    assert_eq!(scene.layers.len(), 2);
    assert_eq!(scene.layers[0].name, Some(s("scenery")));
    assert!(!scene.layers[0].is_hidden);
    assert!(scene.layers[1].is_hidden);
    assert_eq!(scene.root.name, None);
    assert_eq!(scene.root.children.len(), 2);
    assert_eq!(scene.root.children[0].name, Some(s("desk")));
    assert_eq!(scene.root.children[0].transform.translation, Translation { x: -1, y: 3, z: 2 });
    assert_eq!(log, vec![Diagnostic::InvalidLayerBoolean { layer: 0 }]);
    assert!(is_effectively_hidden(&scene.root.children[0], &scene.layers));
}

#[test]
fn slice_is_loaded_under_the_whole_path() {
    let (graph, layers, models) = file();
    let mut log = Vec::new();
    let asset = load_asset("study.vox#lamp", &graph, &layers, models, &mut log);
    let Ok(Asset::Scene(scene)) = asset else { panic!("a scene") };
    assert_eq!(scene.name, "study.vox#lamp");
    assert_eq!(scene.root.name, Some(s("lamp")));
    assert_eq!(scene.root.model_id, Some(0));
    assert_eq!(scene.models.len(), 2);
}

#[test]
fn model_is_loaded_without_the_scene() {
    let (_, layers, models) = file();
    let broken = vec![transform(None, 9)];
    let mut log = Vec::new();
    let asset = load_asset("study.vox#model1", &broken, &layers, models.clone(), &mut log);
    assert_eq!(asset, Ok(Asset::Model(models[1].clone())));
    let asset = load_asset("study.vox#model0", &broken, &layers, models.clone(), &mut log);
    assert_eq!(asset, Ok(Asset::Model(models[0].clone())));
    assert!(log.is_empty());
}

#[test]
fn missing_slice_and_missing_model_are_not_found() {
    let (graph, layers, models) = file();
    let mut log = Vec::new();
    assert_eq!(
        load_asset("study.vox#chair", &graph, &layers, models.clone(), &mut log),
        Err(SceneError::NotFound)
    );
    assert_eq!(
        load_asset("study.vox#model2", &graph, &layers, models, &mut log),
        Err(SceneError::NotFound)
    );
    assert!(log.is_empty());
}

#[test]
fn broken_graph_fails_the_load() {
    let (_, layers, models) = file();
    let broken = vec![transform(None, 9)];
    let mut log = Vec::new();
    assert_eq!(
        load_asset("study.vox", &broken, &layers, models, &mut log),
        Err(SceneError::BadReference { node: 9 })
    );
    assert!(log.is_empty());
}

#[test]
fn label_of_a_model_beats_a_node_of_that_name() {
    let (_, layers, models) = file();
    let graph = vec![
        transform(None, 1),
        SceneNode::Group { children: vec![2] },
        transform(Some("model1"), 3),
        SceneNode::Shape { models: vec![0] },
    ];
    let mut log = Vec::new();
    let asset = load_asset("study.vox#model1", &graph, &layers, models.clone(), &mut log);
    assert_eq!(asset, Ok(Asset::Model(models[1].clone())));
}
