//! What holds of the quads that the greedy scan makes: they lie on visible
//! faces only, no face is in two of them, and no visible face is left out.
use crate::face::{Face, Quad};
use crate::greedy::{
    covered, face_visible, fits, full_rows, greedy_face, inner_axis, lemma_covered_push, mergeable,
    needs_mesh, outer_axis, quad_at, room, row_width, scan_position, scan_row, scan_slice,
    scan_slices, scan_step,
};
use crate::shape::{lemma_index_in_range, Coord};
use crate::voxel::{GridView, Voxel};
use vstd::prelude::*;

verus! {

/// The quads of one face direction tile its visible faces.
///
/// Every quad stays clear of the padding; each face in a quad is visible and
/// belongs to a cell of the same value as the quad's first cell; no face is
/// in two quads; and every visible face of a cell that is not padding is in
/// some quad.
pub open spec fn tiles(grid: GridView, face: Face, quads: Seq<Quad>) -> bool {
    &&& forall|k: int| 0 <= k < quads.len() ==> fits(grid, face, #[trigger] quads[k])
    &&& forall|k: int, p: Coord|
        0 <= k < quads.len() && #[trigger] quads[k].covers(face, p) ==> {
            &&& p.interior(grid.shape)
            &&& face_visible(grid, face, p)
            &&& grid.cell(p) == grid.cell(quads[k].minimum)
        }
    &&& forall|i: int, j: int, p: Coord|
        0 <= i < j < quads.len() && #[trigger] quads[i].covers(face, p) ==> !(
        #[trigger] quads[j].covers(face, p))
    &&& forall|p: Coord|
        p.interior(grid.shape) && #[trigger] face_visible(grid, face, p) ==> exists|k: int|
            0 <= k < quads.len() && #[trigger] quads[k].covers(face, p)
}

/// The cell at `p` comes before place `c` of row `b` of slice `a` in the
/// order of the scan.
pub open spec fn scanned(face: Face, p: Coord, a: int, b: int, c: int) -> bool {
    let slice = p.axis(face.n());
    let row = p.axis(outer_axis(face));
    let col = p.axis(inner_axis(face));
    slice < a || (slice == a && (row < b || (row == b && col < c)))
}

/// What holds of the quads while the scan stands before place `c` of row
/// `b` of slice `a`: as [`tiles`], but only the faces of the cells that the
/// scan has passed are known to be in a quad.
pub open spec fn tiles_scanned(
    grid: GridView,
    face: Face,
    quads: Seq<Quad>,
    a: int,
    b: int,
    c: int,
) -> bool {
    &&& forall|k: int| 0 <= k < quads.len() ==> fits(grid, face, #[trigger] quads[k])
    &&& forall|k: int, p: Coord|
        0 <= k < quads.len() && #[trigger] quads[k].covers(face, p) ==> {
            &&& p.interior(grid.shape)
            &&& face_visible(grid, face, p)
            &&& grid.cell(p) == grid.cell(quads[k].minimum)
        }
    &&& forall|i: int, j: int, p: Coord|
        0 <= i < j < quads.len() && #[trigger] quads[i].covers(face, p) ==> !(
        #[trigger] quads[j].covers(face, p))
    &&& forall|p: Coord|
        p.interior(grid.shape) && scanned(face, p, a, b, c) && #[trigger] face_visible(
            grid,
            face,
            p,
        ) ==> covered(face, quads, p)
}

/// A face is held by a list of quads exactly when one quad of the list
/// holds it.
pub proof fn lemma_covered_by(face: Face, quads: Seq<Quad>, p: Coord)
    ensures
        covered(face, quads, p) <==> exists|k: int|
            0 <= k < quads.len() && #[trigger] quads[k].covers(face, p),
    decreases quads.len(),
{
    if quads.len() > 0 {
        let rest = quads.drop_last();
        lemma_covered_by(face, rest, p);
        if covered(face, quads, p) {
            if quads.last().covers(face, p) {
                assert(quads[quads.len() - 1].covers(face, p));
            } else {
                let k = choose|k: int| 0 <= k < rest.len() && #[trigger] rest[k].covers(face, p);
                assert(quads[k].covers(face, p));
            }
        }
        if exists|k: int| 0 <= k < quads.len() && #[trigger] quads[k].covers(face, p) {
            let k = choose|k: int| 0 <= k < quads.len() && #[trigger] quads[k].covers(face, p);
            if k < rest.len() {
                assert(rest[k].covers(face, p));
            }
        }
    }
}

/// A row's width is at most the bound it was asked with.
proof fn lemma_row_width_bound(
    grid: GridView,
    face: Face,
    quads: Seq<Quad>,
    value: Voxel,
    start: Coord,
    max: nat,
)
    ensures
        row_width(grid, face, quads, value, start, max) <= max,
    decreases max,
{
    if max > 0 {
        lemma_row_width_bound(
            grid,
            face,
            quads,
            value,
            start.shifted(face.u(), 1),
            (max - 1) as nat,
        );
    }
}

/// Each of the cells that a row's width counts can join the quad.
proof fn lemma_row_width(
    grid: GridView,
    face: Face,
    quads: Seq<Quad>,
    value: Voxel,
    start: Coord,
    max: nat,
    i: int,
)
    requires
        start.bounded(),
        start.axis(face.u()) + max <= 258,
        0 <= i < row_width(grid, face, quads, value, start, max),
    ensures
        mergeable(grid, face, quads, value, start.shifted(face.u(), i)),
    decreases max,
{
    if i > 0 {
        lemma_row_width(
            grid,
            face,
            quads,
            value,
            start.shifted(face.u(), 1),
            (max - 1) as nat,
            i - 1,
        );
        assert(start.shifted(face.u(), 1).shifted(face.u(), i - 1) == start.shifted(face.u(), i));
    } else {
        assert(start.shifted(face.u(), 0) == start);
    }
}

/// The number of full rows is at most the bound it was asked with.
proof fn lemma_full_rows_bound(
    grid: GridView,
    face: Face,
    quads: Seq<Quad>,
    value: Voxel,
    start: Coord,
    width: nat,
    max: nat,
)
    ensures
        full_rows(grid, face, quads, value, start, width, max) <= max,
    decreases max,
{
    if max > 0 {
        lemma_full_rows_bound(
            grid,
            face,
            quads,
            value,
            start.shifted(face.v(), 1),
            width,
            (max - 1) as nat,
        );
    }
}

/// Each of the rows that the count of full rows counts has the full width.
proof fn lemma_full_rows(
    grid: GridView,
    face: Face,
    quads: Seq<Quad>,
    value: Voxel,
    start: Coord,
    width: nat,
    max: nat,
    j: int,
)
    requires
        start.bounded(),
        start.axis(face.v()) + max <= 258,
        0 <= j < full_rows(grid, face, quads, value, start, width, max),
    ensures
        row_width(grid, face, quads, value, start.shifted(face.v(), j), width) >= width,
    decreases max,
{
    if j > 0 {
        lemma_full_rows(
            grid,
            face,
            quads,
            value,
            start.shifted(face.v(), 1),
            width,
            (max - 1) as nat,
            j - 1,
        );
        assert(start.shifted(face.v(), 1).shifted(face.v(), j - 1) == start.shifted(face.v(), j));
    } else {
        assert(start.shifted(face.v(), 0) == start);
    }
}

/// The quad that starts at a cell whose face needs one stays clear of the
/// padding, and every face in it can join it.
proof fn lemma_quad_at(grid: GridView, face: Face, quads: Seq<Quad>, start: Coord)
    requires
        grid.meshable(),
        face.wf(),
        start.interior(grid.shape),
        needs_mesh(grid, face, quads, start),
    ensures
        fits(grid, face, quad_at(grid, face, quads, start)),
        forall|p: Coord| #[trigger]
            quad_at(grid, face, quads, start).covers(face, p) ==> p.interior(grid.shape)
                && mergeable(grid, face, quads, grid.cell(start), p),
{
    let value = grid.cell(start);
    let quad = quad_at(grid, face, quads, start);
    let max_w = room(grid, start, face.u());
    let max_h = room(grid, start, face.v());
    let width = row_width(grid, face, quads, value, start, max_w);
    let above = start.shifted(face.v(), 1);
    let more = full_rows(grid, face, quads, value, above, width, (max_h - 1) as nat);
    lemma_row_width_bound(grid, face, quads, value, start, max_w);
    lemma_full_rows_bound(grid, face, quads, value, above, width, (max_h - 1) as nat);
    assert(width >= 1);
    assert(quad.width == width && quad.height == 1 + more);
    assert forall|p: Coord| #[trigger] quad.covers(face, p) implies p.interior(grid.shape)
        && mergeable(grid, face, quads, value, p) by {
        let i = p.axis(face.u()) - start.axis(face.u());
        let j = p.axis(face.v()) - start.axis(face.v());
        let row = start.shifted(face.v(), j);
        assert(p == row.shifted(face.u(), i));
        if j == 0 {
            assert(row == start);
            lemma_row_width(grid, face, quads, value, start, max_w, i);
        } else {
            lemma_full_rows(grid, face, quads, value, above, width, (max_h - 1) as nat, j - 1);
            assert(above.shifted(face.v(), j - 1) == row);
            lemma_row_width_bound(grid, face, quads, value, row, width);
            lemma_row_width(grid, face, quads, value, row, width, i);
        }
    }
}

/// One step of the scan keeps what holds of the quads.
proof fn lemma_scan_step(grid: GridView, face: Face, quads: Seq<Quad>, a: int, b: int, c: int)
    requires
        grid.meshable(),
        face.wf(),
        1 <= a <= grid.shape.axis(face.n()) - 2,
        1 <= b <= grid.shape.axis(outer_axis(face)) - 2,
        1 <= c <= grid.shape.axis(inner_axis(face)) - 2,
        tiles_scanned(grid, face, quads, a, b, c),
    ensures
        tiles_scanned(
            grid,
            face,
            scan_step(grid, face, quads, scan_position(face, a, b, c)),
            a,
            b,
            c + 1,
        ),
{
    let start = scan_position(face, a, b, c);
    let next = scan_step(grid, face, quads, start);
    assert(start.interior(grid.shape));
    assert(start.axis(face.n()) == a && start.axis(outer_axis(face)) == b && start.axis(
        inner_axis(face),
    ) == c);
    if needs_mesh(grid, face, quads, start) {
        let quad = quad_at(grid, face, quads, start);
        lemma_quad_at(grid, face, quads, start);
        assert(next == quads.push(quad));
        assert forall|k: int, p: Coord|
            0 <= k < next.len() && #[trigger] next[k].covers(face, p) implies p.interior(
            grid.shape,
        ) && face_visible(grid, face, p) && grid.cell(p) == grid.cell(next[k].minimum) by {
            if k < quads.len() {
                assert(quads[k].covers(face, p));
            }
        }
        assert forall|i: int, j: int, p: Coord|
            0 <= i < j < next.len() && #[trigger] next[i].covers(face, p) implies !(
        #[trigger] next[j].covers(face, p)) by {
            if j < quads.len() {
                assert(quads[i].covers(face, p));
                assert(!quads[j].covers(face, p));
            } else if quad.covers(face, p) {
                assert(quads[i].covers(face, p));
                lemma_covered_by(face, quads, p);
            }
        }
        assert forall|p: Coord|
            p.interior(grid.shape) && scanned(face, p, a, b, c + 1) && #[trigger] face_visible(
                grid,
                face,
                p,
            ) implies covered(face, next, p) by {
            lemma_covered_push(face, quads, quad, p);
            if !scanned(face, p, a, b, c) {
                assert(p == start);
            }
        }
        assert forall|k: int| 0 <= k < next.len() implies fits(grid, face, #[trigger] next[k]) by {
            if k < quads.len() {
                assert(fits(grid, face, quads[k]));
            }
        }
    } else {
        assert forall|p: Coord|
            p.interior(grid.shape) && scanned(face, p, a, b, c + 1) && #[trigger] face_visible(
                grid,
                face,
                p,
            ) implies covered(face, next, p) by {
            if !scanned(face, p, a, b, c) {
                assert(p == start);
            }
        }
    }
}

/// The scan of a row keeps what holds of the quads.
proof fn lemma_scan_row(grid: GridView, face: Face, quads: Seq<Quad>, a: int, b: int, count: nat)
    requires
        grid.meshable(),
        face.wf(),
        1 <= a <= grid.shape.axis(face.n()) - 2,
        1 <= b <= grid.shape.axis(outer_axis(face)) - 2,
        count <= grid.shape.axis(inner_axis(face)) - 2,
        tiles_scanned(grid, face, quads, a, b, 1),
    ensures
        tiles_scanned(grid, face, scan_row(grid, face, quads, a, b, count), a, b, (count + 1) as int),
    decreases count,
{
    if count > 0 {
        lemma_scan_row(grid, face, quads, a, b, (count - 1) as nat);
        lemma_scan_step(
            grid,
            face,
            scan_row(grid, face, quads, a, b, (count - 1) as nat),
            a,
            b,
            count as int,
        );
    }
}

/// The scan of a slice keeps what holds of the quads.
proof fn lemma_scan_slice(grid: GridView, face: Face, quads: Seq<Quad>, a: int, rows: nat)
    requires
        grid.meshable(),
        face.wf(),
        1 <= a <= grid.shape.axis(face.n()) - 2,
        rows <= grid.shape.axis(outer_axis(face)) - 2,
        tiles_scanned(grid, face, quads, a, 1, 1),
    ensures
        tiles_scanned(grid, face, scan_slice(grid, face, quads, a, rows), a, (rows + 1) as int, 1),
    decreases rows,
{
    if rows > 0 {
        let before = scan_slice(grid, face, quads, a, (rows - 1) as nat);
        let cols = (grid.shape.axis(inner_axis(face)) - 2) as nat;
        lemma_scan_slice(grid, face, quads, a, (rows - 1) as nat);
        lemma_scan_row(grid, face, before, a, rows as int, cols);
        let after = scan_row(grid, face, before, a, rows as int, cols);
        assert forall|p: Coord|
            p.interior(grid.shape) && scanned(face, p, a, (rows + 1) as int, 1) && #[trigger] face_visible(
                grid,
                face,
                p,
            ) implies covered(face, after, p) by {
            assert(scanned(face, p, a, rows as int, (cols + 1) as int));
        }
    }
}

/// The scan of the slices keeps what holds of the quads.
proof fn lemma_scan_slices(grid: GridView, face: Face, slices: nat)
    requires
        grid.meshable(),
        face.wf(),
        slices <= grid.shape.axis(face.n()) - 2,
    ensures
        tiles_scanned(grid, face, scan_slices(grid, face, slices), (slices + 1) as int, 1, 1),
    decreases slices,
{
    if slices > 0 {
        let before = scan_slices(grid, face, (slices - 1) as nat);
        let rows = (grid.shape.axis(outer_axis(face)) - 2) as nat;
        lemma_scan_slices(grid, face, (slices - 1) as nat);
        lemma_scan_slice(grid, face, before, slices as int, rows);
        let after = scan_slice(grid, face, before, slices as int, rows);
        assert forall|p: Coord|
            p.interior(grid.shape) && scanned(face, p, (slices + 1) as int, 1, 1) && #[trigger] face_visible(
                grid,
                face,
                p,
            ) implies covered(face, after, p) by {
            assert(scanned(face, p, slices as int, (rows + 1) as int, 1));
        }
    }
}

/// The quads of a face direction never share a cell, and together they
/// hold exactly the visible faces of that direction.
pub proof fn lemma_greedy_tiles(grid: GridView, face: Face)
    requires
        grid.meshable(),
        face.wf(),
    ensures
        tiles(grid, face, greedy_face(grid, face)),
{
    let slices = (grid.shape.axis(face.n()) - 2) as nat;
    let quads = greedy_face(grid, face);
    lemma_scan_slices(grid, face, slices);
    assert forall|p: Coord|
        p.interior(grid.shape) && #[trigger] face_visible(grid, face, p) implies exists|k: int|
        0 <= k < quads.len() && #[trigger] quads[k].covers(face, p) by {
        assert(scanned(face, p, (slices + 1) as int, 1, 1));
        lemma_covered_by(face, quads, p);
    }
}

/// A grid without a voxel has no quads in any direction.
pub proof fn lemma_blank_grid_has_no_quads(grid: GridView, face: Face)
    requires
        grid.meshable(),
        face.wf(),
        grid.is_blank(),
    ensures
        greedy_face(grid, face).len() == 0,
{
    let quads = greedy_face(grid, face);
    lemma_greedy_tiles(grid, face);
    if quads.len() > 0 {
        let first = quads[0];
        assert(fits(grid, face, first));
        assert(first.covers(face, first.minimum));
        lemma_index_in_range(grid.shape, first.minimum);
        assert(grid.cells[first.minimum.index_in(grid.shape)].is_empty());
    }
}

/// A row of the scan adds at most one quad for each cell.
proof fn lemma_scan_row_len(
    grid: GridView,
    face: Face,
    quads: Seq<Quad>,
    a: int,
    b: int,
    count: nat,
)
    ensures
        scan_row(grid, face, quads, a, b, count).len() <= quads.len() + count,
    decreases count,
{
    if count > 0 {
        lemma_scan_row_len(grid, face, quads, a, b, (count - 1) as nat);
    }
}

/// A slice of the scan adds at most one quad for each cell.
proof fn lemma_scan_slice_len(grid: GridView, face: Face, quads: Seq<Quad>, a: int, rows: nat)
    ensures
        scan_slice(grid, face, quads, a, rows).len() <= quads.len() + rows * (grid.shape.axis(
            inner_axis(face),
        ) - 2) as nat,
    decreases rows,
{
    let cols = (grid.shape.axis(inner_axis(face)) - 2) as nat;
    if rows > 0 {
        let before = scan_slice(grid, face, quads, a, (rows - 1) as nat);
        lemma_scan_slice_len(grid, face, quads, a, (rows - 1) as nat);
        lemma_scan_row_len(grid, face, before, a, rows as int, cols);
        assert((rows - 1) * cols + cols == rows * cols) by (nonlinear_arith);
    } else {
        assert(rows * cols == 0) by (nonlinear_arith)
            requires
                rows == 0,
        ;
    }
}

/// The scan adds at most one quad for each cell.
proof fn lemma_scan_slices_len(grid: GridView, face: Face, slices: nat)
    ensures
        scan_slices(grid, face, slices).len() <= slices * ((grid.shape.axis(outer_axis(face))
            - 2) as nat * (grid.shape.axis(inner_axis(face)) - 2) as nat),
    decreases slices,
{
    let rows = (grid.shape.axis(outer_axis(face)) - 2) as nat;
    let cols = (grid.shape.axis(inner_axis(face)) - 2) as nat;
    if slices > 0 {
        let before = scan_slices(grid, face, (slices - 1) as nat);
        lemma_scan_slices_len(grid, face, (slices - 1) as nat);
        lemma_scan_slice_len(grid, face, before, slices as int, rows);
        assert((slices - 1) * (rows * cols) + rows * cols == slices * (rows * cols))
            by (nonlinear_arith);
    } else {
        assert(slices * (rows * cols) == 0) by (nonlinear_arith)
            requires
                slices == 0,
        ;
    }
}

/// One face direction of a grid has at most as many quads as the largest
/// model has cells.
pub proof fn lemma_greedy_len(grid: GridView, face: Face)
    requires
        grid.meshable(),
    ensures
        greedy_face(grid, face).len() <= 16777216,
{
    let slices = (grid.shape.axis(face.n()) - 2) as nat;
    let rows = (grid.shape.axis(outer_axis(face)) - 2) as nat;
    let cols = (grid.shape.axis(inner_axis(face)) - 2) as nat;
    lemma_scan_slices_len(grid, face, slices);
    assert(rows * cols <= 65536) by (nonlinear_arith)
        requires
            rows <= 256,
            cols <= 256,
    ;
    assert(slices * (rows * cols) <= 16777216) by (nonlinear_arith)
        requires
            slices <= 256,
            rows * cols <= 65536,
    ;
}

} // verus!
