//! Voxel cells, the dense grid that the mesher reads, and the builder that
//! lays a sparse model out in such a grid.
use crate::shape::{lemma_index_in_range, lemma_volume_bounded, linearize, shape_size, Coord};
use block_mesh::VoxelVisibility;
use std::collections::HashMap;
use vstd::prelude::*;

verus! {

broadcast use vstd::std_specs::hash::group_hash_axioms;

/// The palette index that marks a cell as empty.
pub const EMPTY_INDEX: u8 = 255;

/// One cell of a grid: a palette index, and whether the material at that
/// index lets light through.
#[derive(Clone, Copy, Debug, PartialEq, Eq, Structural)]
pub struct Voxel {
    pub index: u8,
    pub is_translucent: bool,
}

/// The cell that holds nothing.
pub open spec fn empty_voxel() -> Voxel {
    Voxel { index: EMPTY_INDEX, is_translucent: false }
}

/// What `block-mesh` is told of its three kinds of voxel.
#[verifier::external_type_specification]
pub struct ExVoxelVisibility(VoxelVisibility);

impl Voxel {
    /// The cell that holds nothing.
    pub fn empty() -> (v: Voxel)
        ensures
            v == empty_voxel(),
    {
        Voxel { index: EMPTY_INDEX, is_translucent: false }
    }

    /// A cell is empty when it carries the sentinel index, whatever its
    /// translucency flag says.
    pub open spec fn is_empty(self) -> bool {
        self.index == EMPTY_INDEX
    }

    /// The kind of this cell in `block-mesh`'s terms.
    pub open spec fn visibility(self) -> VoxelVisibility {
        if self.is_empty() {
            VoxelVisibility::Empty
        } else if self.is_translucent {
            VoxelVisibility::Translucent
        } else {
            VoxelVisibility::Opaque
        }
    }
}

impl block_mesh::Voxel for Voxel {
    fn get_visibility(&self) -> (r: VoxelVisibility)
        ensures
            r == self.visibility(),
    {
        if self.index == EMPTY_INDEX {
            VoxelVisibility::Empty
        } else if self.is_translucent {
            VoxelVisibility::Translucent
        } else {
            VoxelVisibility::Opaque
        }
    }
}

impl block_mesh::MergeVoxel for Voxel {
    type MergeValue = Voxel;

    fn merge_value(&self) -> (r: Voxel)
        ensures
            r == *self,
    {
        *self
    }
}

/// The extent of a model along its own axes, `z` pointing up.
#[derive(Clone, Copy, Debug, PartialEq, Eq, Structural)]
pub struct ModelSize {
    pub x: u32,
    pub y: u32,
    pub z: u32,
}

/// One voxel of a model: a position and a palette index.
#[derive(Clone, Copy, Debug, PartialEq, Eq, Structural)]
pub struct ModelVoxel {
    pub x: u8,
    pub y: u8,
    pub z: u8,
    pub i: u8,
}

/// A model as the file format gives it: a declared size and the voxels that
/// are set.
#[derive(Clone, Debug, PartialEq, Eq)]
pub struct Model {
    pub size: ModelSize,
    pub voxels: Vec<ModelVoxel>,
}

/// Why a model could not be laid out in a grid.
#[derive(Clone, Copy, Debug, PartialEq, Eq, Structural)]
pub enum GridError {
    /// The voxel at this place in the model's list lies outside the
    /// declared size.
    VoxelOutOfBounds { voxel: usize },
}

/// A dense grid of cells with `y` pointing up, one empty cell of padding on
/// every side.
#[derive(Clone, Debug, PartialEq, Eq)]
pub struct VoxelGrid {
    pub shape: Coord,
    pub cells: Vec<Voxel>,
}

impl ModelSize {
    /// No axis is longer than the 256 cells that the file format allows.
    pub open spec fn valid(self) -> bool {
        self.x <= 256 && self.y <= 256 && self.z <= 256
    }

    /// The voxel lies inside a model of this size.
    pub open spec fn holds(self, v: ModelVoxel) -> bool {
        v.x < self.x && v.y < self.y && v.z < self.z
    }

    /// The extent of the grid for a model of this size: the second and third
    /// axes change places, and every axis grows by the padding.
    pub open spec fn grid_shape(self) -> Coord {
        Coord { x: (self.x + 2) as u32, y: (self.z + 2) as u32, z: (self.y + 2) as u32 }
    }

    /// The grid position of a voxel of a model of this size: mirrored along
    /// `x`, the second and third axes exchanged, shifted past the padding.
    pub open spec fn grid_position(self, v: ModelVoxel) -> Coord {
        Coord { x: (self.x - v.x) as u32, y: (v.z + 1) as u32, z: (v.y + 1) as u32 }
    }
}

/// What a grid holds: its extent and its cells in storage order.
pub struct GridView {
    pub shape: Coord,
    pub cells: Seq<Voxel>,
}

impl View for VoxelGrid {
    type V = GridView;

    open spec fn view(&self) -> GridView {
        GridView { shape: self.shape, cells: self.cells@ }
    }
}

impl GridView {
    /// The storage holds exactly one cell for each position of the shape.
    pub open spec fn wf(self) -> bool {
        &&& self.shape.bounded()
        &&& self.cells.len() == self.shape.volume()
    }

    /// The cell at a position.
    pub open spec fn cell(self, p: Coord) -> Voxel {
        self.cells[p.index_in(self.shape)]
    }

    /// No cell of the grid holds a voxel.
    pub open spec fn is_blank(self) -> bool {
        forall|i: int| 0 <= i < self.cells.len() ==> (#[trigger] self.cells[i]).is_empty()
    }
}

impl VoxelGrid {
    /// Reads the cell at `p`.
    pub fn get(&self, p: Coord) -> (c: Voxel)
        requires
            self@.wf(),
            p.inside(self.shape),
        ensures
            c == self@.cell(p),
    {
        proof {
            lemma_index_in_range(self.shape, p);
        }
        let i = linearize(self.shape, p) as usize;
        self.cells[i]
    }
}

/// The first `n` voxels of the list all lie inside the size.
pub open spec fn all_hold(size: ModelSize, voxels: Seq<ModelVoxel>, n: int) -> bool {
    forall|k: int| 0 <= k < n ==> size.holds(#[trigger] voxels[k])
}

/// The cell that a model voxel becomes: its palette index, translucent when
/// that index has a refraction entry.
pub open spec fn cell_of(v: ModelVoxel, translucent: Map<u8, u32>) -> Voxel {
    Voxel { index: v.i, is_translucent: translucent.contains_key(v.i) }
}

/// The cells of the grid after the first `n` voxels were placed in order
/// into an empty grid; a later voxel replaces an earlier one at its
/// position.
pub open spec fn placed(
    size: ModelSize,
    voxels: Seq<ModelVoxel>,
    translucent: Map<u8, u32>,
    n: nat,
) -> Seq<Voxel>
    decreases n,
{
    if n == 0 {
        Seq::new(size.grid_shape().volume() as nat, |i: int| empty_voxel())
    } else {
        let v = voxels[n - 1];
        placed(size, voxels, translucent, (n - 1) as nat).update(
            size.grid_position(v).index_in(size.grid_shape()),
            cell_of(v, translucent),
        )
    }
}

/// The refraction entries of the translucent ones among the first `n`
/// voxels, in the order of the voxels.
pub open spec fn refractions(voxels: Seq<ModelVoxel>, translucent: Map<u8, u32>, n: nat) -> Seq<
    u32,
>
    decreases n,
{
    if n == 0 {
        Seq::empty()
    } else {
        let rest = refractions(voxels, translucent, (n - 1) as nat);
        let v = voxels[n - 1];
        if translucent.contains_key(v.i) {
            rest.push(translucent[v.i])
        } else {
            rest
        }
    }
}

/// Lays a model out as a dense grid.
///
/// `translucent_voxels` maps each translucent palette index to its
/// refraction index, kept as the bits of the number. The grid comes with the
/// refraction entries of the translucent voxels in the order in which the
/// model lists them. A voxel outside the declared size fails the whole
/// model, and the error names the first such voxel.
pub fn load_from_model(model: &Model, translucent_voxels: &HashMap<u8, u32>) -> (r: Result<
    (VoxelGrid, Vec<u32>),
    GridError,
>)
    requires
        model.size.valid(),
    ensures
        match r {
            Ok((grid, refraction_indices)) => {
                &&& all_hold(model.size, model.voxels@, model.voxels@.len() as int)
                &&& grid@.wf()
                &&& grid.shape == model.size.grid_shape()
                &&& grid.cells@ == placed(
                    model.size,
                    model.voxels@,
                    translucent_voxels@,
                    model.voxels@.len(),
                )
                &&& refraction_indices@ == refractions(
                    model.voxels@,
                    translucent_voxels@,
                    model.voxels@.len(),
                )
            },
            Err(GridError::VoxelOutOfBounds { voxel }) => {
                &&& voxel < model.voxels@.len()
                &&& all_hold(model.size, model.voxels@, voxel as int)
                &&& !model.size.holds(model.voxels@[voxel as int])
            },
        },
{
    let size = model.size;
    let shape = Coord { x: size.x + 2, y: size.z + 2, z: size.y + 2 };
    proof {
        lemma_volume_bounded(shape);
    }
    let total = shape_size(shape) as usize;
    let mut data: Vec<Voxel> = Vec::new();
    while data.len() < total
        invariant
            data@.len() <= total,
            forall|i: int| 0 <= i < data@.len() ==> data@[i] == empty_voxel(),
        decreases total - data@.len(),
    {
        data.push(Voxel::empty());
    }
    assert(data@ =~= placed(size, model.voxels@, translucent_voxels@, 0));
    let mut refraction_indices: Vec<u32> = Vec::new();
    let mut k: usize = 0;
    while k < model.voxels.len()
        invariant
            size == model.size,
            size.valid(),
            shape == size.grid_shape(),
            shape.bounded(),
            total == shape.volume(),
            k <= model.voxels@.len(),
            all_hold(size, model.voxels@, k as int),
            data@.len() == total,
            data@ == placed(size, model.voxels@, translucent_voxels@, k as nat),
            refraction_indices@ == refractions(model.voxels@, translucent_voxels@, k as nat),
        decreases model.voxels@.len() - k,
    {
        let v = model.voxels[k];
        if v.x as u32 >= size.x || v.y as u32 >= size.y || v.z as u32 >= size.z {
            return Err(GridError::VoxelOutOfBounds { voxel: k });
        }
        let p = Coord { x: size.x - v.x as u32, y: v.z as u32 + 1, z: v.y as u32 + 1 };
        proof {
            lemma_index_in_range(shape, p);
        }
        let index = linearize(shape, p) as usize;
        let ior = translucent_voxels.get(&v.i);
        let is_translucent = ior.is_some();
        if let Some(ior) = ior {
            refraction_indices.push(*ior);
        }
        data.set(index, Voxel { index: v.i, is_translucent });
        k += 1;
    }
    Ok((VoxelGrid { shape, cells: data }, refraction_indices))
}

} // verus!
