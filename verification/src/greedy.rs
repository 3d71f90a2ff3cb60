//! Greedy meshing: the visible faces of a grid, merged into quads.
//!
//! For one face direction the cells that are not padding are visited slice
//! by slice along the normal, and within a slice in ascending order, the
//! higher of the two in-plane axes outermost. A cell whose face is visible
//! and not yet part of a quad starts a new quad, which takes as many cells
//! of the same value along `u` as it can, and then as many such rows along
//! `v` as it can.
//!
//! The order of the scan and the growth of a quad are those of
//! `block-mesh`'s `greedy_quads`, and on grids in which no translucent cell
//! touches an opaque one the quads are the same. The two differ in what
//! they show: here a translucent cell shows its face to an opaque
//! neighbour, as an opaque cell shows its face to a translucent one.
use crate::face::{Face, Quad};
use crate::shape::{
    lemma_index_in_range, lemma_index_injective, lemma_volume_bounded, linearize, shape_size, Coord,
    MAX_EXTENT,
};
use crate::tiling::{lemma_greedy_tiles, tiles};
use crate::voxel::{GridView, Voxel, VoxelGrid, EMPTY_INDEX};
use vstd::prelude::*;

verus! {

impl GridView {
    /// The grid is well formed and holds at least one cell that is not
    /// padding.
    pub open spec fn meshable(self) -> bool {
        &&& self.wf()
        &&& self.shape.x >= 3
        &&& self.shape.y >= 3
        &&& self.shape.z >= 3
    }
}

impl VoxelGrid {
    /// Whether the grid can be meshed.
    pub fn is_meshable(&self) -> (r: bool)
        ensures
            r == self@.meshable(),
    {
        let dims = self.shape;
        if dims.x < 3 || dims.y < 3 || dims.z < 3 {
            return false;
        }
        if dims.x > MAX_EXTENT || dims.y > MAX_EXTENT || dims.z > MAX_EXTENT {
            return false;
        }
        proof {
            lemma_volume_bounded(dims);
        }
        self.cells.len() == shape_size(dims) as usize
    }
}

/// The cell at `p` shows its face in the direction of `face`: it holds a
/// voxel, and the cell beyond the face is empty or differs from it in
/// translucency.
pub open spec fn face_visible(grid: GridView, face: Face, p: Coord) -> bool {
    let here = grid.cell(p);
    let beyond = grid.cell(face.neighbor(p));
    !here.is_empty() && (beyond.is_empty() || here.is_translucent != beyond.is_translucent)
}

/// Some quad of the list holds the face of the cell at `p`.
pub open spec fn covered(face: Face, quads: Seq<Quad>, p: Coord) -> bool
    decreases quads.len(),
{
    quads.len() > 0 && (quads.last().covers(face, p) || covered(face, quads.drop_last(), p))
}

/// The face of the cell at `p` is visible and no quad of the list holds it.
pub open spec fn needs_mesh(grid: GridView, face: Face, quads: Seq<Quad>, p: Coord) -> bool {
    face_visible(grid, face, p) && !covered(face, quads, p)
}

/// The face of the cell at `p` can join a quad of cells of value `value`.
pub open spec fn mergeable(
    grid: GridView,
    face: Face,
    quads: Seq<Quad>,
    value: Voxel,
    p: Coord,
) -> bool {
    needs_mesh(grid, face, quads, p) && grid.cell(p) == value
}

/// The number of cells from `p` on along `u`, at most `max`, that can join
/// a quad of value `value` without a gap.
pub open spec fn row_width(
    grid: GridView,
    face: Face,
    quads: Seq<Quad>,
    value: Voxel,
    p: Coord,
    max: nat,
) -> nat
    decreases max,
{
    if max == 0 || !mergeable(grid, face, quads, value, p) {
        0
    } else {
        1 + row_width(grid, face, quads, value, p.shifted(face.u(), 1), (max - 1) as nat)
    }
}

/// The number of rows from the one that starts at `p` on along `v`, at
/// most `max`, that can join a quad of `width` cells in full.
pub open spec fn full_rows(
    grid: GridView,
    face: Face,
    quads: Seq<Quad>,
    value: Voxel,
    p: Coord,
    width: nat,
    max: nat,
) -> nat
    decreases max,
{
    if max == 0 || row_width(grid, face, quads, value, p, width) < width {
        0
    } else {
        1 + full_rows(
            grid,
            face,
            quads,
            value,
            p.shifted(face.v(), 1),
            width,
            (max - 1) as nat,
        )
    }
}

/// The number of cells from `p` to the padding along axis `k`, `p`
/// included.
pub open spec fn room(grid: GridView, p: Coord, k: int) -> nat {
    (grid.shape.axis(k) - 1 - p.axis(k)) as nat
}

/// The quad that starts at `p`: as wide as the first row allows, then as
/// high as full rows of that width follow.
pub open spec fn quad_at(grid: GridView, face: Face, quads: Seq<Quad>, p: Coord) -> Quad {
    let value = grid.cell(p);
    let width = row_width(grid, face, quads, value, p, room(grid, p, face.u()));
    let height = 1 + full_rows(
        grid,
        face,
        quads,
        value,
        p.shifted(face.v(), 1),
        width,
        (room(grid, p, face.v()) - 1) as nat,
    );
    Quad { minimum: p, width: width as u32, height: height as u32 }
}

/// The in-plane axis that the scan of a slice runs through more slowly.
pub open spec fn outer_axis(face: Face) -> int {
    if face.u() > face.v() {
        face.u()
    } else {
        face.v()
    }
}

/// The in-plane axis that the scan of a slice runs through faster.
pub open spec fn inner_axis(face: Face) -> int {
    if face.u() > face.v() {
        face.v()
    } else {
        face.u()
    }
}

/// The position in slice `a`, row `b`, at place `c` of the row.
pub open spec fn scan_position(face: Face, a: int, b: int, c: int) -> Coord {
    Coord { x: 0, y: 0, z: 0 }.with_axis(face.n(), a).with_axis(outer_axis(face), b).with_axis(
        inner_axis(face),
        c,
    )
}

/// The quads after the cell at `p` was visited.
pub open spec fn scan_step(grid: GridView, face: Face, quads: Seq<Quad>, p: Coord) -> Seq<Quad> {
    if needs_mesh(grid, face, quads, p) {
        quads.push(quad_at(grid, face, quads, p))
    } else {
        quads
    }
}

/// The quads after the first `count` cells of row `b` in slice `a` were
/// visited, starting from `quads`.
pub open spec fn scan_row(
    grid: GridView,
    face: Face,
    quads: Seq<Quad>,
    a: int,
    b: int,
    count: nat,
) -> Seq<Quad>
    decreases count,
{
    if count == 0 {
        quads
    } else {
        scan_step(
            grid,
            face,
            scan_row(grid, face, quads, a, b, (count - 1) as nat),
            scan_position(face, a, b, count as int),
        )
    }
}

/// The quads after the first `rows` rows of slice `a` were visited,
/// starting from `quads`.
pub open spec fn scan_slice(grid: GridView, face: Face, quads: Seq<Quad>, a: int, rows: nat) -> Seq<
    Quad,
>
    decreases rows,
{
    if rows == 0 {
        quads
    } else {
        scan_row(
            grid,
            face,
            scan_slice(grid, face, quads, a, (rows - 1) as nat),
            a,
            rows as int,
            (grid.shape.axis(inner_axis(face)) - 2) as nat,
        )
    }
}

/// The quads after the first `slices` slices were visited.
pub open spec fn scan_slices(grid: GridView, face: Face, slices: nat) -> Seq<Quad>
    decreases slices,
{
    if slices == 0 {
        Seq::empty()
    } else {
        scan_slice(
            grid,
            face,
            scan_slices(grid, face, (slices - 1) as nat),
            slices as int,
            (grid.shape.axis(outer_axis(face)) - 2) as nat,
        )
    }
}

/// The quads of one face direction of a grid, in the order in which the
/// scan makes them.
pub open spec fn greedy_face(grid: GridView, face: Face) -> Seq<Quad> {
    scan_slices(grid, face, (grid.shape.axis(face.n()) - 2) as nat)
}

/// The mask says of every cell of the grid whether a quad of the list holds
/// its face.
pub open spec fn mask_matches(grid: GridView, face: Face, mask: Seq<bool>, quads: Seq<Quad>) -> bool {
    &&& mask.len() == grid.cells.len()
    &&& forall|p: Coord|
        p.inside(grid.shape) ==> mask[p.index_in(grid.shape)] == #[trigger] covered(face, quads, p)
}

/// The part of a quad that lies in its first `rows` rows and in the first
/// `cols` cells of the row after them.
pub open spec fn partly_covers(quad: Quad, face: Face, p: Coord, rows: int, cols: int) -> bool {
    let row = p.axis(face.v()) - quad.minimum.axis(face.v());
    let col = p.axis(face.u()) - quad.minimum.axis(face.u());
    quad.covers(face, p) && (row < rows || (row == rows && col < cols))
}

/// A quad that starts at `p` with this width and height stays clear of the
/// padding.
pub open spec fn fits(grid: GridView, face: Face, quad: Quad) -> bool {
    &&& quad.minimum.interior(grid.shape)
    &&& 1 <= quad.width <= room(grid, quad.minimum, face.u())
    &&& 1 <= quad.height <= room(grid, quad.minimum, face.v())
}

fn face_needs_mesh(
    grid: &VoxelGrid,
    face: &Face,
    visited: &Vec<bool>,
    p: Coord,
    Ghost(quads): Ghost<Seq<Quad>>,
) -> (r: bool)
    requires
        grid@.meshable(),
        face.wf(),
        p.interior(grid.shape),
        mask_matches(grid@, *face, visited@, quads),
    ensures
        r == needs_mesh(grid@, *face, quads, p),
{
    let voxel = grid.get(p);
    if voxel.index == EMPTY_INDEX {
        return false;
    }
    proof {
        lemma_index_in_range(grid.shape, p);
    }
    let i = linearize(grid.shape, p) as usize;
    assert(visited@[i as int] == covered(*face, quads, p));
    if visited[i] {
        return false;
    }
    let n = face.n_axis();
    let beyond = if face.n_sign > 0 {
        p.with(n, p.get(n) + 1)
    } else {
        p.with(n, p.get(n) - 1)
    };
    assert(beyond == face.neighbor(p));
    let adjacent = grid.get(beyond);
    adjacent.index == EMPTY_INDEX || adjacent.is_translucent != voxel.is_translucent
}

fn row_width_of(
    grid: &VoxelGrid,
    face: &Face,
    visited: &Vec<bool>,
    value: Voxel,
    start: Coord,
    max: u32,
    Ghost(quads): Ghost<Seq<Quad>>,
) -> (w: u32)
    requires
        grid@.meshable(),
        face.wf(),
        mask_matches(grid@, *face, visited@, quads),
        start.interior(grid.shape),
        max <= room(grid@, start, face.u()),
    ensures
        w == row_width(grid@, *face, quads, value, start, max as nat),
        w <= max,
{
    let u = face.u_axis();
    let mut w: u32 = 0;
    let mut p = start;
    while w < max
        invariant
            grid@.meshable(),
            face.wf(),
            mask_matches(grid@, *face, visited@, quads),
            start.interior(grid.shape),
            max <= room(grid@, start, face.u()),
            u == face.u(),
            w <= max,
            p == start.shifted(face.u(), w as int),
            row_width(grid@, *face, quads, value, start, max as nat) == w + row_width(
                grid@,
                *face,
                quads,
                value,
                p,
                (max - w) as nat,
            ),
        decreases max - w,
    {
        if !face_needs_mesh(grid, face, visited, p, Ghost(quads)) {
            return w;
        }
        let cell = grid.get(p);
        if cell != value {
            return w;
        }
        w += 1;
        p = p.with(u, p.get(u) + 1);
    }
    w
}

fn find_quad(
    grid: &VoxelGrid,
    face: &Face,
    visited: &Vec<bool>,
    p: Coord,
    Ghost(quads): Ghost<Seq<Quad>>,
) -> (quad: Quad)
    requires
        grid@.meshable(),
        face.wf(),
        mask_matches(grid@, *face, visited@, quads),
        p.interior(grid.shape),
        needs_mesh(grid@, *face, quads, p),
    ensures
        quad == quad_at(grid@, *face, quads, p),
        fits(grid@, *face, quad),
{
    let u = face.u_axis();
    let v = face.v_axis();
    let value = grid.get(p);
    let max_width = grid.shape.get(u) - 1 - p.get(u);
    let max_height = grid.shape.get(v) - 1 - p.get(v);
    let width = row_width_of(grid, face, visited, value, p, max_width, Ghost(quads));
    let mut height: u32 = 1;
    let mut row = p.with(v, p.get(v) + 1);
    while height < max_height
        invariant
            grid@.meshable(),
            face.wf(),
            mask_matches(grid@, *face, visited@, quads),
            p.interior(grid.shape),
            u == face.u(),
            v == face.v(),
            max_width == room(grid@, p, face.u()),
            max_height == room(grid@, p, face.v()),
            value == grid@.cell(p),
            width == row_width(grid@, *face, quads, value, p, max_width as nat),
            1 <= width <= max_width,
            1 <= height <= max_height,
            row == p.shifted(face.v(), height as int),
            full_rows(
                grid@,
                *face,
                quads,
                value,
                p.shifted(face.v(), 1),
                width as nat,
                (max_height - 1) as nat,
            ) == (height - 1) + full_rows(
                grid@,
                *face,
                quads,
                value,
                row,
                width as nat,
                (max_height - height) as nat,
            ),
        decreases max_height - height,
    {
        let row_width = row_width_of(grid, face, visited, value, row, width, Ghost(quads));
        if row_width < width {
            return Quad { minimum: p, width, height };
        }
        height += 1;
        row = row.with(v, row.get(v) + 1);
    }
    Quad { minimum: p, width, height }
}

/// A list with one more quad holds a face when the new quad or the old
/// list does.
pub proof fn lemma_covered_push(face: Face, quads: Seq<Quad>, quad: Quad, p: Coord)
    ensures
        covered(face, quads.push(quad), p) == (quad.covers(face, p) || covered(face, quads, p)),
{
    assert(quads.push(quad).drop_last() =~= quads);
    assert(quads.push(quad).last() == quad);
}

fn mark_visited(
    visited: &mut Vec<bool>,
    grid: &VoxelGrid,
    face: &Face,
    quad: Quad,
    Ghost(quads): Ghost<Seq<Quad>>,
)
    requires
        grid@.meshable(),
        face.wf(),
        mask_matches(grid@, *face, old(visited)@, quads),
        fits(grid@, *face, quad),
    ensures
        mask_matches(grid@, *face, final(visited)@, quads.push(quad)),
{
    let u = face.u_axis();
    let v = face.v_axis();
    let mut j: u32 = 0;
    let mut row = quad.minimum;
    while j < quad.height
        invariant
            grid@.meshable(),
            face.wf(),
            fits(grid@, *face, quad),
            u == face.u(),
            v == face.v(),
            j <= quad.height,
            row == quad.minimum.shifted(face.v(), j as int),
            visited@.len() == grid@.cells.len(),
            forall|p: Coord|
                p.inside(grid.shape) ==> visited@[p.index_in(grid.shape)] == (#[trigger] covered(
                    *face,
                    quads,
                    p,
                ) || partly_covers(quad, *face, p, j as int, 0)),
        decreases quad.height - j,
    {
        let mut i: u32 = 0;
        let mut cell = row;
        while i < quad.width
            invariant
                grid@.meshable(),
                face.wf(),
                fits(grid@, *face, quad),
                u == face.u(),
                v == face.v(),
                j < quad.height,
                i <= quad.width,
                row == quad.minimum.shifted(face.v(), j as int),
                cell == row.shifted(face.u(), i as int),
                visited@.len() == grid@.cells.len(),
                forall|p: Coord|
                    p.inside(grid.shape) ==> visited@[p.index_in(grid.shape)] == (
                    #[trigger] covered(*face, quads, p) || partly_covers(
                        quad,
                        *face,
                        p,
                        j as int,
                        i as int,
                    )),
            decreases quad.width - i,
        {
            proof {
                lemma_index_in_range(grid.shape, cell);
            }
            let t = linearize(grid.shape, cell) as usize;
            let ghost before = visited@;
            visited.set(t, true);
            proof {
                assert forall|p: Coord| p.inside(grid.shape) implies visited@[p.index_in(
                    grid.shape,
                )] == (#[trigger] covered(*face, quads, p) || partly_covers(
                    quad,
                    *face,
                    p,
                    j as int,
                    i + 1,
                )) by {
                    lemma_index_in_range(grid.shape, p);
                    if p.index_in(grid.shape) == t {
                        lemma_index_injective(grid.shape, p, cell);
                    }
                    assert(before[p.index_in(grid.shape)] == (covered(*face, quads, p)
                        || partly_covers(quad, *face, p, j as int, i as int)));
                }
            }
            i += 1;
            cell = cell.with(u, cell.get(u) + 1);
        }
        proof {
            assert forall|p: Coord| p.inside(grid.shape) implies visited@[p.index_in(
                grid.shape,
            )] == (#[trigger] covered(*face, quads, p) || partly_covers(
                quad,
                *face,
                p,
                j + 1,
                0,
            )) by {
                lemma_index_in_range(grid.shape, p);
                assert(visited@[p.index_in(grid.shape)] == (covered(*face, quads, p)
                    || partly_covers(quad, *face, p, j as int, i as int)));
            }
        }
        j += 1;
        row = row.with(v, row.get(v) + 1);
    }
    proof {
        assert forall|p: Coord| p.inside(grid.shape) implies visited@[p.index_in(grid.shape)]
            == #[trigger] covered(*face, quads.push(quad), p) by {
            lemma_covered_push(*face, quads, quad, p);
            lemma_index_in_range(grid.shape, p);
            assert(visited@[p.index_in(grid.shape)] == (covered(*face, quads, p) || partly_covers(
                quad,
                *face,
                p,
                j as int,
                0,
            )));
        }
    }
}

/// Merges the visible faces of one direction into quads.
///
/// The result is the list that the scan of the grid makes, so the same grid
/// and face always give the same quads in the same order. No two of the
/// quads share a cell, and together they hold exactly the visible faces of
/// the cells that are not padding.
pub fn greedy_quads_for_face(grid: &VoxelGrid, face: &Face) -> (quads: Vec<Quad>)
    requires
        grid@.meshable(),
        face.wf(),
    ensures
        quads@ == greedy_face(grid@, *face),
        tiles(grid@, *face, quads@),
{
    proof {
        lemma_greedy_tiles(grid@, *face);
    }
    let n = face.n_axis();
    let u = face.u_axis();
    let v = face.v_axis();
    let outer = if u > v {
        u
    } else {
        v
    };
    let inner = if u > v {
        v
    } else {
        u
    };
    let slices = grid.shape.get(n) - 2;
    let rows = grid.shape.get(outer) - 2;
    let cols = grid.shape.get(inner) - 2;
    let mut visited: Vec<bool> = Vec::new();
    while visited.len() < grid.cells.len()
        invariant
            visited@.len() <= grid@.cells.len(),
            forall|i: int| 0 <= i < visited@.len() ==> !visited@[i],
        decreases grid@.cells.len() - visited@.len(),
    {
        visited.push(false);
    }
    let mut quads: Vec<Quad> = Vec::new();
    proof {
        assert forall|p: Coord| p.inside(grid.shape) implies visited@[p.index_in(grid.shape)]
            == #[trigger] covered(*face, quads@, p) by {
            lemma_index_in_range(grid.shape, p);
        }
    }
    let mut a: u32 = 1;
    while a <= slices
        invariant
            grid@.meshable(),
            face.wf(),
            n == face.n(),
            outer == outer_axis(*face),
            inner == inner_axis(*face),
            slices == grid.shape.axis(face.n()) - 2,
            rows == grid.shape.axis(outer_axis(*face)) - 2,
            cols == grid.shape.axis(inner_axis(*face)) - 2,
            1 <= a <= slices + 1,
            mask_matches(grid@, *face, visited@, quads@),
            quads@ == scan_slices(grid@, *face, (a - 1) as nat),
        decreases slices + 1 - a,
    {
        let ghost slice_start = quads@;
        let mut b: u32 = 1;
        while b <= rows
            invariant
                grid@.meshable(),
                face.wf(),
                n == face.n(),
                outer == outer_axis(*face),
                inner == inner_axis(*face),
                slices == grid.shape.axis(face.n()) - 2,
                rows == grid.shape.axis(outer_axis(*face)) - 2,
                cols == grid.shape.axis(inner_axis(*face)) - 2,
                1 <= a <= slices,
                1 <= b <= rows + 1,
                mask_matches(grid@, *face, visited@, quads@),
                quads@ == scan_slice(grid@, *face, slice_start, a as int, (b - 1) as nat),
            decreases rows + 1 - b,
        {
            let ghost row_start = quads@;
            let mut c: u32 = 1;
            while c <= cols
                invariant
                    grid@.meshable(),
                    face.wf(),
                    n == face.n(),
                    outer == outer_axis(*face),
                    inner == inner_axis(*face),
                    slices == grid.shape.axis(face.n()) - 2,
                    rows == grid.shape.axis(outer_axis(*face)) - 2,
                    cols == grid.shape.axis(inner_axis(*face)) - 2,
                    1 <= a <= slices,
                    1 <= b <= rows,
                    1 <= c <= cols + 1,
                    mask_matches(grid@, *face, visited@, quads@),
                    quads@ == scan_row(
                        grid@,
                        *face,
                        row_start,
                        a as int,
                        b as int,
                        (c - 1) as nat,
                    ),
                decreases cols + 1 - c,
            {
                let origin = Coord { x: 0, y: 0, z: 0 };
                let p = origin.with(n, a).with(outer, b).with(inner, c);
                assert(p == scan_position(*face, a as int, b as int, c as int));
                if face_needs_mesh(grid, face, &visited, p, Ghost(quads@)) {
                    let quad = find_quad(grid, face, &visited, p, Ghost(quads@));
                    mark_visited(&mut visited, grid, face, quad, Ghost(quads@));
                    quads.push(quad);
                }
                c += 1;
            }
            b += 1;
        }
        a += 1;
    }
    quads
}

/// The quads of each of the given face directions.
pub open spec fn greedy_groups(grid: GridView, faces: Seq<Face>) -> Seq<Seq<Quad>> {
    Seq::new(faces.len(), |f: int| greedy_face(grid, faces[f]))
}

/// The lists of a vector of lists.
pub open spec fn group_views(groups: Vec<Vec<Quad>>) -> Seq<Seq<Quad>> {
    Seq::new(groups@.len(), |f: int| groups@[f]@)
}

/// Merges the visible faces of a grid into quads, one list for each of the
/// six face directions, in the order of `faces`.
pub fn greedy_quads(grid: &VoxelGrid, faces: &[Face; 6]) -> (groups: Vec<Vec<Quad>>)
    requires
        grid@.meshable(),
        forall|f: int| 0 <= f < 6 ==> (#[trigger] faces@[f]).wf(),
    ensures
        group_views(groups) == greedy_groups(grid@, faces@),
        forall|f: int| 0 <= f < 6 ==> tiles(grid@, faces@[f], #[trigger] group_views(groups)[f]),
{
    let mut groups: Vec<Vec<Quad>> = Vec::new();
    let mut f: usize = 0;
    while f < 6
        invariant
            grid@.meshable(),
            forall|f: int| 0 <= f < 6 ==> (#[trigger] faces@[f]).wf(),
            f <= 6,
            groups@.len() == f,
            forall|g: int| 0 <= g < f ==> (#[trigger] groups@[g])@ == greedy_face(grid@, faces@[g]),
        decreases 6 - f,
    {
        let face = faces[f];
        let quads = greedy_quads_for_face(grid, &face);
        groups.push(quads);
        f += 1;
    }
    assert(group_views(groups) =~= greedy_groups(grid@, faces@));
    proof {
        assert forall|f: int| 0 <= f < 6 implies tiles(
            grid@,
            faces@[f],
            #[trigger] group_views(groups)[f],
        ) by {
            lemma_greedy_tiles(grid@, faces@[f]);
        }
    }
    groups
}

} // verus!
