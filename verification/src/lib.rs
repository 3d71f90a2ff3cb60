//! Voxel models as meshes and scene graphs as node trees.
//!
//! A model is a sparse list of palette-indexed voxels. [`voxel`] lays it out
//! as a dense, padded grid, [`greedy`] merges the visible faces of a grid
//! into quads, and [`mesh`] turns the quads into vertex and index buffers;
//! [`tiling`] proves that the quads of a direction hold each visible face
//! once. [`voxel_scene`] resolves a flat, index-addressed scene graph into
//! a tree of named nodes, [`slice`] finds a node by its name path,
//! [`spawn`] lists what a host has to create for a tree, [`asset_path`]
//! reads what a path asks for, and [`loader`] puts the steps together.
//! [`names`] proves that the name of a node is the path of the names on
//! the way to it, [`acyclic`] that only a graph that leads back into
//! itself is reported as doing so, and [`forward`] gives a quick check
//! under which a graph cannot fail to resolve.
pub mod acyclic;
pub mod asset_path;
pub mod face;
pub mod forward;
pub mod greedy;
pub mod loader;
pub mod mesh;
pub mod names;
pub mod shape;
pub mod slice;
pub mod spawn;
pub mod tiling;
pub mod voxel;
pub mod voxel_scene;

pub use loader::{VoxelModel, VoxelScene};
pub use spawn::{LayerData, LayerInfo, VoxelLayer};
pub use voxel_scene::{get_accumulated_and_node_name, VoxelNode};
