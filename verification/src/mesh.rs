//! Vertex and index buffers for the quads of a grid.
//!
//! Every quad gives four vertices and two triangles. Positions are counted
//! in half cells from the center of the model, so that they stay whole
//! numbers; a vertex takes its color from the palette index of the quad's
//! first cell, either as a place in a 16 by 16 atlas or as the palette's
//! color itself.
use crate::face::{quad_corners, quad_mesh_indices, signed_normal, Face, Quad};
use crate::greedy::{fits, greedy_face, greedy_groups, greedy_quads, group_views};
use crate::shape::{Coord, Point3};
use crate::tiling::{lemma_blank_grid_has_no_quads, lemma_greedy_len, lemma_greedy_tiles};
use crate::voxel::{GridView, VoxelGrid};
use vstd::prelude::*;

verus! {

/// The place of a palette entry in an atlas of 16 by 16 swatches, in
/// thirty-seconds of the atlas's side: the center of the swatch.
#[derive(Clone, Copy, Debug, PartialEq, Eq, Structural)]
pub struct AtlasUv {
    pub u: u8,
    pub v: u8,
}

/// A color of the palette.
#[derive(Clone, Copy, Debug, PartialEq, Eq, Structural)]
pub struct Rgba {
    pub r: u8,
    pub g: u8,
    pub b: u8,
    pub a: u8,
}

/// How the vertices of a mesh get their color.
#[derive(Clone, Debug, PartialEq, Eq)]
pub enum Coloring {
    /// Each vertex holds the place of its palette entry in the atlas.
    Atlas,
    /// Each vertex holds the color that this palette has at its index.
    Palette(Vec<Rgba>),
}

/// The buffers of a triangle mesh. Of `uvs` and `colors` the one that the
/// coloring asks for has an entry for each vertex, and the other is empty.
#[derive(Clone, Debug, PartialEq, Eq)]
pub struct MeshBuffers {
    pub positions: Vec<Point3>,
    pub normals: Vec<Point3>,
    pub uvs: Vec<AtlasUv>,
    pub colors: Vec<Rgba>,
    pub indices: Vec<u32>,
}

/// The contents of the buffers of a mesh.
#[verifier::ext_equal]
pub struct MeshView {
    pub positions: Seq<Point3>,
    pub normals: Seq<Point3>,
    pub uvs: Seq<AtlasUv>,
    pub colors: Seq<Rgba>,
    pub indices: Seq<u32>,
}

impl View for MeshBuffers {
    type V = MeshView;

    open spec fn view(&self) -> MeshView {
        MeshView {
            positions: self.positions@,
            normals: self.normals@,
            uvs: self.uvs@,
            colors: self.colors@,
            indices: self.indices@,
        }
    }
}

impl Coloring {
    /// A palette has the 256 entries that an index can name.
    pub open spec fn wf(self) -> bool {
        self matches Coloring::Palette(palette) ==> palette@.len() == 256
    }
}

/// The mesh without a vertex.
pub open spec fn empty_mesh() -> MeshView {
    MeshView {
        positions: Seq::empty(),
        normals: Seq::empty(),
        uvs: Seq::empty(),
        colors: Seq::empty(),
        indices: Seq::empty(),
    }
}

/// A corner of the grid as a vertex: twice the corner less the extent of
/// the grid, which puts the center of the model at the origin and counts in
/// half cells.
pub open spec fn centered(dims: Coord, corner: Coord) -> Point3 {
    Point3 {
        x: (2 * corner.x - dims.x) as i32,
        y: (2 * corner.y - dims.y) as i32,
        z: (2 * corner.z - dims.z) as i32,
    }
}

/// The center of the swatch of a palette index in the atlas.
pub open spec fn atlas_uv(index: u8) -> AtlasUv {
    AtlasUv { u: (2 * (index % 16) + 1) as u8, v: (2 * (index / 16) + 1) as u8 }
}

/// The four vertices of a quad.
pub open spec fn quad_positions(dims: Coord, face: Face, quad: Quad) -> Seq<Point3> {
    Seq::new(4, |c: int| centered(dims, face.corners(quad)[c]))
}

/// The six vertex numbers of a quad whose first vertex is `start`.
pub open spec fn quad_indices(face: Face, start: int) -> Seq<u32> {
    Seq::new(6, |t: int| face.triangles(start)[t] as u32)
}

/// The mesh with the vertices and triangles of one more quad.
pub open spec fn with_quad(
    mesh: MeshView,
    grid: GridView,
    face: Face,
    quad: Quad,
    coloring: Coloring,
) -> MeshView {
    let index = grid.cell(quad.minimum).index;
    MeshView {
        positions: mesh.positions + quad_positions(grid.shape, face, quad),
        normals: mesh.normals + Seq::new(4, |c: int| face.normal()),
        uvs: match coloring {
            Coloring::Atlas => mesh.uvs + Seq::new(4, |c: int| atlas_uv(index)),
            Coloring::Palette(_) => mesh.uvs,
        },
        colors: match coloring {
            Coloring::Atlas => mesh.colors,
            Coloring::Palette(palette) => mesh.colors + Seq::new(
                4,
                |c: int| palette@[index as int],
            ),
        },
        indices: mesh.indices + quad_indices(face, mesh.positions.len() as int),
    }
}

/// The mesh with the first `n` quads of a list, all in one face direction.
pub open spec fn with_quads(
    mesh: MeshView,
    grid: GridView,
    face: Face,
    quads: Seq<Quad>,
    coloring: Coloring,
    n: nat,
) -> MeshView
    decreases n,
{
    if n == 0 {
        mesh
    } else {
        with_quad(
            with_quads(mesh, grid, face, quads, coloring, (n - 1) as nat),
            grid,
            face,
            quads[n - 1],
            coloring,
        )
    }
}

/// The mesh of the first `n` lists of quads, each list in the face
/// direction of the same number.
pub open spec fn mesh_of(
    grid: GridView,
    faces: Seq<Face>,
    groups: Seq<Seq<Quad>>,
    coloring: Coloring,
    n: nat,
) -> MeshView
    decreases n,
{
    if n == 0 {
        empty_mesh()
    } else {
        with_quads(
            mesh_of(grid, faces, groups, coloring, (n - 1) as nat),
            grid,
            faces[n - 1],
            groups[n - 1],
            coloring,
            groups[n - 1].len(),
        )
    }
}

/// The number of quads in the first `n` lists.
pub open spec fn quad_total(groups: Seq<Seq<Quad>>, n: nat) -> nat
    decreases n,
{
    if n == 0 {
        0
    } else {
        quad_total(groups, (n - 1) as nat) + groups[n - 1].len()
    }
}

/// The buffers hold four vertices and six vertex numbers for each of
/// `count` quads.
pub open spec fn sized_for(mesh: MeshView, coloring: Coloring, count: nat) -> bool {
    &&& mesh.positions.len() == 4 * count
    &&& mesh.normals.len() == 4 * count
    &&& mesh.indices.len() == 6 * count
    &&& mesh.uvs.len() == match coloring {
        Coloring::Atlas => 4 * count,
        Coloring::Palette(_) => 0,
    }
    &&& mesh.colors.len() == match coloring {
        Coloring::Atlas => 0,
        Coloring::Palette(_) => 4 * count,
    }
}

/// The quads can be turned into vertices: each is of bounded size and
/// starts at a cell of the grid.
pub open spec fn quads_in_grid(grid: GridView, groups: Seq<Seq<Quad>>) -> bool {
    forall|f: int, i: int|
        0 <= f < groups.len() && 0 <= i < groups[f].len() ==> {
            &&& (#[trigger] groups[f][i]).bounded()
            &&& groups[f][i].minimum.inside(grid.shape)
        }
}

fn push_quad(mesh: &mut MeshBuffers, grid: &VoxelGrid, face: &Face, quad: &Quad, coloring: &Coloring)
    requires
        grid@.wf(),
        face.wf(),
        coloring.wf(),
        quad.bounded(),
        quad.minimum.inside(grid.shape),
        old(mesh)@.positions.len() + 4 <= u32::MAX,
    ensures
        final(mesh)@ =~= with_quad(old(mesh)@, grid@, *face, *quad, *coloring),
{
    let dims = grid.shape;
    let cell = grid.get(quad.minimum);
    let start = mesh.positions.len() as u32;
    let triangles = quad_mesh_indices(face, start);
    let corners = quad_corners(face, quad);
    let normal = signed_normal(face);
    let ghost before = mesh@;
    let mut t: usize = 0;
    while t < 6
        invariant
            t <= 6,
            triangles@.len() == 6,
            forall|t: int|
                0 <= t < 6 ==> triangles@[t] == #[trigger] face.triangles(start as int)[t],
            mesh@.positions == before.positions,
            mesh@.normals == before.normals,
            mesh@.uvs == before.uvs,
            mesh@.colors == before.colors,
            mesh@.indices =~= before.indices + quad_indices(*face, start as int).take(t as int),
        decreases 6 - t,
    {
        mesh.indices.push(triangles[t]);
        t += 1;
    }
    let mut c: usize = 0;
    while c < 4
        invariant
            c <= 4,
            face.wf(),
            coloring.wf(),
            quad.bounded(),
            dims == grid.shape,
            dims.bounded(),
            cell == grid@.cell(quad.minimum),
            corners@ == face.corners(*quad),
            normal == face.normal(),
            mesh@.indices == before.indices + quad_indices(*face, start as int),
            mesh@.positions =~= before.positions + quad_positions(dims, *face, *quad).take(
                c as int,
            ),
            mesh@.normals =~= before.normals + Seq::new(4, |c: int| face.normal()).take(c as int),
            mesh@.uvs =~= match *coloring {
                Coloring::Atlas => before.uvs + Seq::new(4, |c: int| atlas_uv(cell.index)).take(
                    c as int,
                ),
                Coloring::Palette(_) => before.uvs,
            },
            mesh@.colors =~= match *coloring {
                Coloring::Atlas => before.colors,
                Coloring::Palette(palette) => before.colors + Seq::new(
                    4,
                    |c: int| palette@[cell.index as int],
                ).take(c as int),
            },
        decreases 4 - c,
    {
        let corner = corners[c];
        assert(corner == face.corners(*quad)[c as int]);
        assert(corner.x <= 517 && corner.y <= 517 && corner.z <= 517);
        mesh.positions.push(
            Point3 {
                x: 2 * (corner.x as i32) - dims.x as i32,
                y: 2 * (corner.y as i32) - dims.y as i32,
                z: 2 * (corner.z as i32) - dims.z as i32,
            },
        );
        mesh.normals.push(normal);
        match coloring {
            Coloring::Atlas => {
                mesh.uvs.push(
                    AtlasUv { u: 2 * (cell.index % 16) + 1, v: 2 * (cell.index / 16) + 1 },
                );
            },
            Coloring::Palette(palette) => {
                mesh.colors.push(palette[cell.index as usize]);
            },
        }
        c += 1;
    }
}

/// Turns lists of quads, one for each face direction, into the buffers of
/// a mesh: quad after quad, four vertices and two triangles each.
pub fn mesh_from_quads(
    grid: &VoxelGrid,
    faces: &[Face; 6],
    groups: &Vec<Vec<Quad>>,
    coloring: &Coloring,
) -> (mesh: MeshBuffers)
    requires
        grid@.wf(),
        forall|f: int| 0 <= f < 6 ==> (#[trigger] faces@[f]).wf(),
        coloring.wf(),
        groups@.len() == 6,
        quads_in_grid(grid@, group_views(*groups)),
        4 * quad_total(group_views(*groups), 6) <= u32::MAX,
    ensures
        mesh@ == mesh_of(grid@, faces@, group_views(*groups), *coloring, 6),
        sized_for(mesh@, *coloring, quad_total(group_views(*groups), 6)),
{
    let ghost lists = group_views(*groups);
    let mut mesh = MeshBuffers {
        positions: Vec::new(),
        normals: Vec::new(),
        uvs: Vec::new(),
        colors: Vec::new(),
        indices: Vec::new(),
    };
    assert(mesh@ =~= empty_mesh());
    proof {
        lemma_total_grows(lists, 6, 6);
    }
    let mut f: usize = 0;
    while f < 6
        invariant
            grid@.wf(),
            forall|f: int| 0 <= f < 6 ==> (#[trigger] faces@[f]).wf(),
            coloring.wf(),
            groups@.len() == 6,
            lists == group_views(*groups),
            quads_in_grid(grid@, lists),
            4 * quad_total(lists, 6) <= u32::MAX,
            f <= 6,
            mesh@ == mesh_of(grid@, faces@, lists, *coloring, f as nat),
            sized_for(mesh@, *coloring, quad_total(lists, f as nat)),
        decreases 6 - f,
    {
        let face = faces[f];
        let quads = &groups[f];
        let ghost base = mesh@;
        let ghost done = quad_total(lists, f as nat);
        assert(lists[f as int] == quads@);
        proof {
            lemma_total_grows(lists, f as nat + 1, 6);
        }
        let mut i: usize = 0;
        while i < quads.len()
            invariant
                grid@.wf(),
                face.wf(),
                coloring.wf(),
                f < 6,
                lists[f as int] == quads@,
                quads_in_grid(grid@, lists),
                lists.len() == 6,
                done + quads@.len() <= quad_total(lists, 6),
                4 * quad_total(lists, 6) <= u32::MAX,
                i <= quads@.len(),
                mesh@ == with_quads(base, grid@, face, quads@, *coloring, i as nat),
                sized_for(mesh@, *coloring, done + i as nat),
            decreases quads@.len() - i,
        {
            let quad = quads[i];
            assert(quad == lists[f as int][i as int]);
            push_quad(&mut mesh, grid, &face, &quad, coloring);
            i += 1;
        }
        f += 1;
    }
    mesh
}

/// The number of quads in the first `n` lists does not shrink as `n`
/// grows.
proof fn lemma_total_grows(groups: Seq<Seq<Quad>>, n: nat, m: nat)
    requires
        n <= m,
    ensures
        quad_total(groups, n) <= quad_total(groups, m),
    decreases m,
{
    if n < m {
        lemma_total_grows(groups, n, (m - 1) as nat);
    }
}

/// The first `n` lists of the greedy quads of a grid hold at most as many
/// quads as `n` of the largest models have cells.
proof fn lemma_greedy_total(grid: GridView, faces: Seq<Face>, n: nat)
    requires
        grid.meshable(),
        n <= faces.len(),
    ensures
        quad_total(greedy_groups(grid, faces), n) <= n * 16777216,
    decreases n,
{
    if n > 0 {
        lemma_greedy_total(grid, faces, (n - 1) as nat);
        lemma_greedy_len(grid, faces[n - 1]);
    }
}

/// The first `n` lists of the greedy quads of a grid without a voxel hold
/// no quad.
proof fn lemma_blank_total(grid: GridView, faces: Seq<Face>, n: nat)
    requires
        grid.meshable(),
        grid.is_blank(),
        n <= faces.len(),
        forall|f: int| 0 <= f < faces.len() ==> (#[trigger] faces[f]).wf(),
    ensures
        quad_total(greedy_groups(grid, faces), n) == 0,
    decreases n,
{
    if n > 0 {
        lemma_blank_total(grid, faces, (n - 1) as nat);
        lemma_blank_grid_has_no_quads(grid, faces[n - 1]);
    }
}

/// Meshes a grid: merges its visible faces into quads, direction by
/// direction, and turns the quads into buffers.
///
/// The buffers hold four vertices and six vertex numbers for every quad,
/// and a grid without a voxel gives empty buffers.
pub fn mesh_model(grid: &VoxelGrid, faces: &[Face; 6], coloring: &Coloring) -> (mesh: MeshBuffers)
    requires
        grid@.meshable(),
        forall|f: int| 0 <= f < 6 ==> (#[trigger] faces@[f]).wf(),
        coloring.wf(),
    ensures
        mesh@ == mesh_of(grid@, faces@, greedy_groups(grid@, faces@), *coloring, 6),
        sized_for(mesh@, *coloring, quad_total(greedy_groups(grid@, faces@), 6)),
        grid@.is_blank() ==> mesh@ == empty_mesh(),
{
    let groups = greedy_quads(grid, faces);
    proof {
        let lists = greedy_groups(grid@, faces@);
        lemma_greedy_total(grid@, faces@, 6);
        assert forall|f: int, i: int| 0 <= f < lists.len() && 0 <= i < lists[f].len() implies (
        #[trigger] lists[f][i]).bounded() && lists[f][i].minimum.inside(grid.shape) by {
            lemma_greedy_tiles(grid@, faces@[f]);
            assert(fits(grid@, faces@[f], greedy_face(grid@, faces@[f])[i]));
        }
        if grid@.is_blank() {
            lemma_blank_total(grid@, faces@, 6);
        }
    }
    let mesh = mesh_from_quads(grid, faces, &groups, coloring);
    assert(grid@.is_blank() ==> mesh@ =~= empty_mesh());
    mesh
}

/// The place of a swatch when the atlas is read from the other end of its
/// vertical axis. A place beyond the atlas goes to its edge.
pub open spec fn flipped(uv: AtlasUv) -> AtlasUv {
    AtlasUv {
        u: uv.u,
        v: if uv.v <= 32 {
            (32 - uv.v) as u8
        } else {
            0
        },
    }
}

/// Flips the atlas places of a mesh vertically, for hosts whose textures
/// start at the other end. Nothing else of the mesh changes.
pub fn flip_uvs_vertically(mesh: &mut MeshBuffers)
    ensures
        final(mesh)@.positions == old(mesh)@.positions,
        final(mesh)@.normals == old(mesh)@.normals,
        final(mesh)@.colors == old(mesh)@.colors,
        final(mesh)@.indices == old(mesh)@.indices,
        final(mesh)@.uvs.len() == old(mesh)@.uvs.len(),
        forall|i: int|
            0 <= i < old(mesh)@.uvs.len() ==> #[trigger] final(mesh)@.uvs[i] == flipped(
                old(mesh)@.uvs[i],
            ),
{
    let ghost before = mesh@;
    let mut i: usize = 0;
    while i < mesh.uvs.len()
        invariant
            i <= mesh@.uvs.len(),
            mesh@.positions == before.positions,
            mesh@.normals == before.normals,
            mesh@.colors == before.colors,
            mesh@.indices == before.indices,
            mesh@.uvs.len() == before.uvs.len(),
            forall|k: int| 0 <= k < i ==> #[trigger] mesh@.uvs[k] == flipped(before.uvs[k]),
            forall|k: int| i <= k < before.uvs.len() ==> #[trigger] mesh@.uvs[k] == before.uvs[k],
        decreases mesh@.uvs.len() - i,
    {
        let uv = mesh.uvs[i];
        let v = if uv.v <= 32 {
            32 - uv.v
        } else {
            0
        };
        mesh.uvs.set(i, AtlasUv { u: uv.u, v });
        i += 1;
    }
}

} // verus!
