//! From the records of a file to a scene: models become meshes, the graph
//! becomes a tree, and a name path picks the part of the tree that was
//! asked for.
use crate::asset_path::{parse_asset_path, path_target, Target, TargetView};
use crate::face::Face;
use crate::greedy::greedy_groups;
use crate::mesh::{mesh_model, mesh_of, Coloring, MeshBuffers};
use crate::slice::{slice_of, slice_scene};
use crate::spawn::{layer_info_of, layer_log, read_layers, Layer, LayerInfo};
use vstd::string::*;
use crate::voxel::{
    all_hold, load_from_model, placed, refractions, GridError, GridView, Model, ModelSize,
};
use crate::voxel_scene::{parse_xform_node, resolve_node, Diagnostic, SceneError, SceneNode, VoxelNode};
use std::collections::HashMap;
use vstd::prelude::*;

verus! {

/// A model of a scene, ready to be shown: its mesh, and the refraction
/// entries of its translucent voxels.
#[derive(Clone, Debug, PartialEq, Eq)]
pub struct VoxelModel {
    pub mesh: MeshBuffers,
    pub refraction_indices: Vec<u32>,
}

/// A scene: the tree of its nodes, the models that the nodes name by
/// number, and what is known of its layers.
#[derive(Clone, Debug, PartialEq, Eq)]
pub struct VoxelScene {
    pub name: String,
    pub root: VoxelNode,
    pub models: Vec<VoxelModel>,
    pub layers: Vec<LayerInfo>,
}

/// Why a model could not be made ready.
#[derive(Clone, Copy, Debug, PartialEq, Eq, Structural)]
pub enum ModelError {
    /// An axis of the declared size is empty or longer than 256 cells.
    BadSize,
    /// The voxel at this place in the model's list lies outside the
    /// declared size.
    VoxelOutOfBounds { voxel: usize },
}

impl ModelSize {
    /// Every axis has at least one cell and at most 256.
    pub open spec fn meshable(self) -> bool {
        &&& 1 <= self.x <= 256
        &&& 1 <= self.y <= 256
        &&& 1 <= self.z <= 256
    }
}

/// The grid that a model is laid out in.
pub open spec fn model_grid(model: Model, translucent: Map<u8, u32>) -> GridView {
    GridView {
        shape: model.size.grid_shape(),
        cells: placed(model.size, model.voxels@, translucent, model.voxels@.len()),
    }
}

/// Makes a model ready: lays it out in a grid and meshes the grid.
///
/// Fails on a size with an empty or overlong axis, and on a voxel outside
/// the size, naming the first such voxel.
pub fn build_model(
    model: &Model,
    translucent_voxels: &HashMap<u8, u32>,
    faces: &[Face; 6],
    coloring: &Coloring,
) -> (r: Result<VoxelModel, ModelError>)
    requires
        forall|f: int| 0 <= f < 6 ==> (#[trigger] faces@[f]).wf(),
        coloring.wf(),
    ensures
        match r {
            Ok(built) => {
                let grid = model_grid(*model, translucent_voxels@);
                &&& model.size.meshable()
                &&& all_hold(model.size, model.voxels@, model.voxels@.len() as int)
                &&& built.mesh@ == mesh_of(grid, faces@, greedy_groups(grid, faces@), *coloring, 6)
                &&& built.refraction_indices@ == refractions(
                    model.voxels@,
                    translucent_voxels@,
                    model.voxels@.len(),
                )
            },
            Err(ModelError::BadSize) => !model.size.meshable(),
            Err(ModelError::VoxelOutOfBounds { voxel }) => {
                &&& model.size.meshable()
                &&& voxel < model.voxels@.len()
                &&& all_hold(model.size, model.voxels@, voxel as int)
                &&& !model.size.holds(model.voxels@[voxel as int])
            },
        },
{
    let size = model.size;
    if size.x < 1 || size.y < 1 || size.z < 1 || size.x > 256 || size.y > 256 || size.z > 256 {
        return Err(ModelError::BadSize);
    }
    match load_from_model(model, translucent_voxels) {
        Err(GridError::VoxelOutOfBounds { voxel }) => Err(ModelError::VoxelOutOfBounds { voxel }),
        Ok((grid, refraction_indices)) => {
            assert(grid@ == model_grid(*model, translucent_voxels@));
            let mesh = mesh_model(&grid, faces, coloring);
            Ok(VoxelModel { mesh, refraction_indices })
        },
    }
}

/// How far down the resolution of a graph may go: one node more than the
/// graph has, which only a graph that leads back into itself can need.
pub open spec fn scene_depth(graph: Seq<SceneNode>) -> nat {
    if graph.len() < usize::MAX {
        graph.len() + 1
    } else {
        graph.len()
    }
}

/// Resolves the graph of a file from its root, node 0, and cuts out the
/// slice that `path` asks for; the empty path asks for the whole tree.
///
/// Fails when the graph cannot be resolved, and with
/// [`SceneError::NotFound`] when the tree has no node of that name.
pub fn resolve_scene(graph: &Vec<SceneNode>, path: &String, diagnostics: &mut Vec<Diagnostic>) -> (r:
    Result<VoxelNode, SceneError>)
    ensures
        final(diagnostics)@ == old(diagnostics)@ + resolve_node(
            graph@,
            0,
            None,
            scene_depth(graph@),
        ).log,
        match resolve_node(graph@, 0, None, scene_depth(graph@)).outcome {
            Ok(root) => match r {
                Ok(node) => slice_of(root, path@) == Some(node@),
                Err(e) => e == SceneError::NotFound && slice_of(root, path@) is None,
            },
            Err(e) => r == Err::<VoxelNode, SceneError>(e),
        },
{
    let depth = if graph.len() < usize::MAX {
        graph.len() + 1
    } else {
        graph.len()
    };
    match parse_xform_node(graph, 0, None, depth, diagnostics) {
        Ok(root) => slice_scene(&root, path),
        Err(e) => Err(e),
    }
}

/// What an asset path gives: a scene, or the one model that it named.
#[derive(Clone, Debug, PartialEq, Eq)]
pub enum Asset {
    Scene(VoxelScene),
    Model(VoxelModel),
}

/// The name path of the slice that an asset path asks for; the empty path
/// when it asks for the whole scene.
pub open spec fn target_path(target: TargetView) -> Seq<char> {
    match target {
        TargetView::Slice(path) => path,
        _ => Seq::empty(),
    }
}

/// Loads what an asset path asks for from the records of a file.
///
/// A path that names a model gives that model and leaves the graph alone;
/// it fails with [`SceneError::NotFound`] when the file has no such model.
/// Any other path gives a scene under the name of the whole path: the
/// graph is resolved from node 0 and cut to the slice that the path asks
/// for, and the layers are read. The scene keeps all models, whatever the
/// slice shows of them.
pub fn load_asset(
    path: &str,
    graph: &Vec<SceneNode>,
    layers: &Vec<Layer>,
    models: Vec<VoxelModel>,
    diagnostics: &mut Vec<Diagnostic>,
) -> (r: Result<Asset, SceneError>)
    ensures
        match path_target(path@) {
            TargetView::Model(number) => {
                &&& final(diagnostics)@ == old(diagnostics)@
                &&& number < models@.len() ==> r == Ok::<Asset, SceneError>(
                    Asset::Model(models@[number as int]),
                )
                &&& number >= models@.len() ==> r == Err::<Asset, SceneError>(
                    SceneError::NotFound,
                )
            },
            target => {
                let resolved = resolve_node(graph@, 0, None, scene_depth(graph@));
                match resolved.outcome {
                    Err(e) => {
                        &&& r == Err::<Asset, SceneError>(e)
                        &&& final(diagnostics)@ == old(diagnostics)@ + resolved.log
                    },
                    Ok(root) => match slice_of(root, target_path(target)) {
                        None => {
                            &&& r == Err::<Asset, SceneError>(SceneError::NotFound)
                            &&& final(diagnostics)@ == old(diagnostics)@ + resolved.log
                        },
                        Some(node) => {
                            &&& r matches Ok(Asset::Scene(scene))
                            &&& scene.name@ == path@
                            &&& scene.root@ == node
                            &&& scene.models == models
                            &&& scene.layers@.len() == layers@.len()
                            &&& forall|i: int|
                                0 <= i < layers@.len() ==> (#[trigger] scene.layers@[i])@
                                    == layer_info_of(layers@[i])
                            &&& final(diagnostics)@ == old(diagnostics)@ + resolved.log
                                + layer_log(layers@, layers@.len())
                        },
                    },
                }
            },
        },
{
    let (_, target) = parse_asset_path(path);
    let slice = match target {
        Target::Model(number) => {
            let mut models = models;
            assert(diagnostics@ =~= diagnostics@);
            if number < models.len() {
                return Ok(Asset::Model(models.swap_remove(number)));
            }
            return Err(SceneError::NotFound);
        },
        Target::Slice(path) => path,
        Target::Scene => String::new(),
    };
    assert(slice@ == target_path(path_target(path@)));
    let root = match resolve_scene(graph, &slice, diagnostics) {
        Ok(root) => root,
        Err(e) => {
            return Err(e);
        },
    };
    let layer_infos = read_layers(layers, diagnostics);
    Ok(
        Asset::Scene(
            VoxelScene { name: String::from_str(path), root, models, layers: layer_infos },
        ),
    )
}

} // verus!
