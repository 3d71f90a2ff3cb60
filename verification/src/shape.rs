//! Positions in a three-dimensional array and their place in its linear
//! storage, as `ndshape` lays it out: `x` runs fastest, `z` slowest.
use ndshape::{RuntimeShape, Shape};
use vstd::prelude::*;

verus! {

/// A position in a grid, or the extent of a grid along the three axes.
#[derive(Clone, Copy, Debug, PartialEq, Eq, Structural)]
pub struct Coord {
    pub x: u32,
    pub y: u32,
    pub z: u32,
}

/// A vector of three signed whole numbers: a direction, or a vertex.
#[derive(Clone, Copy, Debug, PartialEq, Eq, Structural)]
pub struct Point3 {
    pub x: i32,
    pub y: i32,
    pub z: i32,
}

/// The largest extent along one axis that a grid may have: a model of 256
/// cells and one cell of padding at either end.
pub const MAX_EXTENT: u32 = 258;

impl Coord {
    /// The component along axis 0 (`x`), 1 (`y`) or 2 (`z`).
    pub open spec fn axis(self, k: int) -> int {
        if k == 0 {
            self.x as int
        } else if k == 1 {
            self.y as int
        } else {
            self.z as int
        }
    }

    /// Every component is below the matching extent of `dims`.
    pub open spec fn inside(self, dims: Coord) -> bool {
        self.x < dims.x && self.y < dims.y && self.z < dims.z
    }

    /// No extent exceeds [`MAX_EXTENT`].
    pub open spec fn bounded(self) -> bool {
        self.x <= MAX_EXTENT && self.y <= MAX_EXTENT && self.z <= MAX_EXTENT
    }

    /// The number of cells of a grid with these extents.
    pub open spec fn volume(self) -> int {
        self.x * self.y * self.z
    }

    /// The place of `self` in the linear storage of a grid of extent `dims`.
    pub open spec fn index_in(self, dims: Coord) -> int {
        self.x + dims.x * (self.y + dims.y * self.z)
    }
}

/// A grid of bounded extent has fewer than 2^25 cells.
pub proof fn lemma_volume_bounded(dims: Coord)
    requires
        dims.bounded(),
    ensures
        0 <= dims.x * dims.y <= 66564,
        0 <= dims.volume() <= 17173512,
{
    assert(0 <= dims.x * dims.y <= 66564) by (nonlinear_arith)
        requires
            0 <= dims.x <= 258,
            0 <= dims.y <= 258,
    ;
    assert(0 <= (dims.x * dims.y) * dims.z <= 17173512) by (nonlinear_arith)
        requires
            0 <= dims.x * dims.y <= 66564,
            0 <= dims.z <= 258,
    ;
}

/// A position inside a grid has its linear index inside the storage.
pub proof fn lemma_index_in_range(dims: Coord, p: Coord)
    requires
        p.inside(dims),
    ensures
        0 <= p.index_in(dims) < dims.volume(),
{
    let row = p.y + dims.y * p.z;
    assert(0 <= row < dims.y * dims.z) by (nonlinear_arith)
        requires
            row == p.y + dims.y * p.z,
            0 <= p.y < dims.y,
            0 <= p.z < dims.z,
    ;
    assert(0 <= p.x + dims.x * row < dims.x * (dims.y * dims.z)) by (nonlinear_arith)
        requires
            0 <= p.x < dims.x,
            0 <= row < dims.y * dims.z,
    ;
    assert(dims.x * (dims.y * dims.z) == dims.x * dims.y * dims.z) by (nonlinear_arith);
}

/// Two positions inside a grid that share a linear index are the same
/// position.
pub proof fn lemma_index_injective(dims: Coord, p: Coord, q: Coord)
    requires
        p.inside(dims),
        q.inside(dims),
        p.index_in(dims) == q.index_in(dims),
    ensures
        p == q,
{
    let rp = p.y + dims.y * p.z;
    let rq = q.y + dims.y * q.z;
    assert(rp == rq && p.x == q.x) by (nonlinear_arith)
        requires
            p.x + dims.x * rp == q.x + dims.x * rq,
            0 <= p.x < dims.x,
            0 <= q.x < dims.x,
    ;
    assert(p.z == q.z && p.y == q.y) by (nonlinear_arith)
        requires
            p.y + dims.y * p.z == q.y + dims.y * q.z,
            0 <= p.y < dims.y,
            0 <= q.y < dims.y,
    ;
}

/// The number of cells of a grid of extent `dims`.
///
/// Builds `ndshape::RuntimeShape::<u32, 3>::new([x, y, z])` and asks it for
/// `size()`, which that crate computes as `x * y * z`.
#[verifier::external_body]
pub(crate) fn shape_size(dims: Coord) -> (n: u32)
    requires
        dims.bounded(),
    ensures
        n == dims.volume(),
{
    RuntimeShape::<u32, 3>::new([dims.x, dims.y, dims.z]).size()
}

/// The linear index of position `p` in a grid of extent `dims`.
///
/// Builds `ndshape::RuntimeShape::<u32, 3>::new([x, y, z])` and calls
/// `linearize(p)`, which that crate computes with the strides `1`, `x` and
/// `x * y` as `p[0] + x * p[1] + (x * y) * p[2]`.
#[verifier::external_body]
pub(crate) fn linearize(dims: Coord, p: Coord) -> (i: u32)
    requires
        dims.bounded(),
        p.inside(dims),
    ensures
        i == p.index_in(dims),
{
    RuntimeShape::<u32, 3>::new([dims.x, dims.y, dims.z]).linearize([p.x, p.y, p.z])
}

} // verus!
