//! The faces of a cell and the quads that lie in them.
//!
//! A face is a sign and a permutation of the axes, as in `block-mesh`: the
//! first axis of the permutation is the normal `n`, the second and third
//! span the face as `u` and `v`. The geometry of a quad (its corners, its
//! triangles, its normal) is asked of `block-mesh` itself.
use crate::shape::{Coord, Point3};
use block_mesh::{AxisPermutation, OrientedBlockFace, UnorientedQuad};
use vstd::prelude::*;

verus! {

/// The six orders in which the axes can serve as normal, `u` and `v`.
#[verifier::external_type_specification]
pub struct ExAxisPermutation(AxisPermutation);

/// One of the faces of a cell: the side of the normal axis that it looks to,
/// and the roles of the axes.
#[derive(Clone, Copy, Debug, PartialEq, Eq)]
pub struct Face {
    pub n_sign: i32,
    pub permutation: AxisPermutation,
}

/// A rectangle of merged cell faces: the cell with the smallest coordinates,
/// the number of cells along `u` and the number along `v`.
#[derive(Clone, Copy, Debug, PartialEq, Eq, Structural)]
pub struct Quad {
    pub minimum: Coord,
    pub width: u32,
    pub height: u32,
}

/// The axis that a permutation makes the normal.
pub open spec fn normal_axis(permutation: AxisPermutation) -> int {
    match permutation {
        AxisPermutation::Xyz => 0,
        AxisPermutation::Xzy => 0,
        AxisPermutation::Yzx => 1,
        AxisPermutation::Yxz => 1,
        AxisPermutation::Zxy => 2,
        AxisPermutation::Zyx => 2,
    }
}

/// The axis along which a permutation counts the width of a quad.
pub open spec fn u_axis(permutation: AxisPermutation) -> int {
    match permutation {
        AxisPermutation::Zxy => 0,
        AxisPermutation::Yxz => 0,
        AxisPermutation::Xyz => 1,
        AxisPermutation::Zyx => 1,
        AxisPermutation::Yzx => 2,
        AxisPermutation::Xzy => 2,
    }
}

/// The axis along which a permutation counts the height of a quad.
pub open spec fn v_axis(permutation: AxisPermutation) -> int {
    match permutation {
        AxisPermutation::Yzx => 0,
        AxisPermutation::Zyx => 0,
        AxisPermutation::Zxy => 1,
        AxisPermutation::Xzy => 1,
        AxisPermutation::Xyz => 2,
        AxisPermutation::Yxz => 2,
    }
}

/// Whether a permutation is even, which together with the sign of the
/// normal decides the winding of a quad's triangles.
pub open spec fn is_even(permutation: AxisPermutation) -> bool {
    match permutation {
        AxisPermutation::Xyz => true,
        AxisPermutation::Zxy => true,
        AxisPermutation::Yzx => true,
        AxisPermutation::Zyx => false,
        AxisPermutation::Xzy => false,
        AxisPermutation::Yxz => false,
    }
}

impl Coord {
    /// This position with the component along axis `k` replaced.
    pub open spec fn with_axis(self, k: int, value: int) -> Coord {
        if k == 0 {
            Coord { x: value as u32, y: self.y, z: self.z }
        } else if k == 1 {
            Coord { x: self.x, y: value as u32, z: self.z }
        } else {
            Coord { x: self.x, y: self.y, z: value as u32 }
        }
    }

    /// This position moved by `d` along axis `k`.
    pub open spec fn shifted(self, k: int, d: int) -> Coord {
        self.with_axis(k, self.axis(k) + d)
    }

    /// Every component is at least one and leaves one cell before the end
    /// of `dims`: the position is not in the padding.
    pub open spec fn interior(self, dims: Coord) -> bool {
        &&& 1 <= self.x && self.x + 1 < dims.x
        &&& 1 <= self.y && self.y + 1 < dims.y
        &&& 1 <= self.z && self.z + 1 < dims.z
    }

    /// Reads the component along axis `k`.
    pub fn get(&self, k: usize) -> (value: u32)
        requires
            k < 3,
        ensures
            value == self.axis(k as int),
    {
        if k == 0 {
            self.x
        } else if k == 1 {
            self.y
        } else {
            self.z
        }
    }

    /// Replaces the component along axis `k`.
    pub fn with(&self, k: usize, value: u32) -> (p: Coord)
        requires
            k < 3,
        ensures
            p == self.with_axis(k as int, value as int),
    {
        if k == 0 {
            Coord { x: value, y: self.y, z: self.z }
        } else if k == 1 {
            Coord { x: self.x, y: value, z: self.z }
        } else {
            Coord { x: self.x, y: self.y, z: value }
        }
    }
}

impl Face {
    /// The sign of the normal is plus or minus one.
    pub open spec fn wf(self) -> bool {
        self.n_sign == 1 || self.n_sign == -1
    }

    /// The normal axis.
    pub open spec fn n(self) -> int {
        normal_axis(self.permutation)
    }

    /// The axis of a quad's width.
    pub open spec fn u(self) -> int {
        u_axis(self.permutation)
    }

    /// The axis of a quad's height.
    pub open spec fn v(self) -> int {
        v_axis(self.permutation)
    }

    /// The cell that shares this face of the cell at `p`.
    pub open spec fn neighbor(self, p: Coord) -> Coord {
        p.shifted(self.n(), self.n_sign as int)
    }

    /// The normal of the face, pointing away from the cell.
    pub open spec fn normal(self) -> Point3 {
        Point3 {
            x: if self.n() == 0 { self.n_sign } else { 0i32 },
            y: if self.n() == 1 { self.n_sign } else { 0i32 },
            z: if self.n() == 2 { self.n_sign } else { 0i32 },
        }
    }

    /// The four corners of a quad in this face: least `u` and `v` first,
    /// then along `u`, then along `v`, then both. A face on the positive
    /// side lies one cell further along the normal.
    pub open spec fn corners(self, quad: Quad) -> Seq<Coord> {
        let base = if self.n_sign > 0 {
            quad.minimum.shifted(self.n(), 1)
        } else {
            quad.minimum
        };
        seq![
            base,
            base.shifted(self.u(), quad.width as int),
            base.shifted(self.v(), quad.height as int),
            base.shifted(self.u(), quad.width as int).shifted(self.v(), quad.height as int),
        ]
    }

    /// Whether the two triangles of a quad in this face run through its
    /// corners counterclockwise.
    pub open spec fn counter_clockwise(self) -> bool {
        (self.n_sign > 0) == is_even(self.permutation)
    }

    /// The six vertex numbers of the two triangles of a quad whose first
    /// corner is vertex `start`.
    pub open spec fn triangles(self, start: int) -> Seq<int> {
        if self.counter_clockwise() {
            seq![start, start + 1, start + 2, start + 1, start + 3, start + 2]
        } else {
            seq![start, start + 2, start + 1, start + 1, start + 2, start + 3]
        }
    }

    /// The normal axis as an index.
    pub fn n_axis(&self) -> (k: usize)
        ensures
            k == self.n(),
            k < 3,
    {
        match self.permutation {
            AxisPermutation::Xyz => 0,
            AxisPermutation::Xzy => 0,
            AxisPermutation::Yzx => 1,
            AxisPermutation::Yxz => 1,
            AxisPermutation::Zxy => 2,
            AxisPermutation::Zyx => 2,
        }
    }

    /// The width axis as an index.
    pub fn u_axis(&self) -> (k: usize)
        ensures
            k == self.u(),
            k < 3,
    {
        match self.permutation {
            AxisPermutation::Zxy => 0,
            AxisPermutation::Yxz => 0,
            AxisPermutation::Xyz => 1,
            AxisPermutation::Zyx => 1,
            AxisPermutation::Yzx => 2,
            AxisPermutation::Xzy => 2,
        }
    }

    /// The height axis as an index.
    pub fn v_axis(&self) -> (k: usize)
        ensures
            k == self.v(),
            k < 3,
    {
        match self.permutation {
            AxisPermutation::Yzx => 0,
            AxisPermutation::Zyx => 0,
            AxisPermutation::Zxy => 1,
            AxisPermutation::Xzy => 1,
            AxisPermutation::Xyz => 2,
            AxisPermutation::Yxz => 2,
        }
    }
}

impl Quad {
    /// The quad has at least one cell, and none of its corners leaves the
    /// largest grid.
    pub open spec fn bounded(self) -> bool {
        &&& 1 <= self.width <= crate::shape::MAX_EXTENT
        &&& 1 <= self.height <= crate::shape::MAX_EXTENT
        &&& self.minimum.bounded()
    }

    /// The cell at `p` has its face in this quad.
    pub open spec fn covers(self, face: Face, p: Coord) -> bool {
        &&& p.axis(face.n()) == self.minimum.axis(face.n())
        &&& self.minimum.axis(face.u()) <= p.axis(face.u()) < self.minimum.axis(face.u())
            + self.width
        &&& self.minimum.axis(face.v()) <= p.axis(face.v()) < self.minimum.axis(face.v())
            + self.height
    }
}

/// The corners of a quad in a face.
///
/// Calls `block_mesh::OrientedBlockFace::quad_corners` on the face that
/// `OrientedBlockFace::new` makes of the sign and the permutation. That
/// function starts from the quad's minimum, moved one cell along the normal
/// when the sign is positive, and adds the width along `u`, the height along
/// `v`, and both.
#[verifier::external_body]
pub(crate) fn quad_corners(face: &Face, quad: &Quad) -> (corners: [Coord; 4])
    requires
        face.wf(),
        quad.bounded(),
    ensures
        corners@ == face.corners(*quad),
{
    let oriented = OrientedBlockFace::new(face.n_sign, face.permutation);
    let m = quad.minimum;
    let unoriented = UnorientedQuad { minimum: [m.x, m.y, m.z], width: quad.width, height: quad.height };
    oriented.quad_corners(&unoriented).map(|c| Coord { x: c.x, y: c.y, z: c.z })
}

/// The vertex numbers of the two triangles of a quad in a face.
///
/// Calls `block_mesh::OrientedBlockFace::quad_mesh_indices`, which winds the
/// triangles counterclockwise when the product of the normal's sign and the
/// permutation's sign is positive, and clockwise otherwise.
#[verifier::external_body]
pub(crate) fn quad_mesh_indices(face: &Face, start: u32) -> (indices: [u32; 6])
    requires
        face.wf(),
        start + 3 <= u32::MAX,
    ensures
        indices@.len() == 6,
        forall|t: int| 0 <= t < 6 ==> indices@[t] == #[trigger] face.triangles(start as int)[t],
{
    OrientedBlockFace::new(face.n_sign, face.permutation).quad_mesh_indices(start)
}

/// The normal of a face.
///
/// Calls `block_mesh::OrientedBlockFace::signed_normal`, which multiplies
/// the unit vector of the normal axis by the sign.
#[verifier::external_body]
pub(crate) fn signed_normal(face: &Face) -> (normal: Point3)
    requires
        face.wf(),
    ensures
        normal == face.normal(),
{
    let n = OrientedBlockFace::new(face.n_sign, face.permutation).signed_normal();
    Point3 { x: n.x, y: n.y, z: n.z }
}

/// The faces of a right-handed coordinate system with `y` pointing up, in
/// the order in which `block-mesh` lists them: the three negative faces
/// along `x`, `y` and `z`, then the three positive ones.
pub fn right_handed_y_up_faces() -> (faces: [Face; 6])
    ensures
        faces@ == right_handed_y_up(),
{
    let faces = [
        Face { n_sign: -1, permutation: AxisPermutation::Xzy },
        Face { n_sign: -1, permutation: AxisPermutation::Yzx },
        Face { n_sign: -1, permutation: AxisPermutation::Zxy },
        Face { n_sign: 1, permutation: AxisPermutation::Xzy },
        Face { n_sign: 1, permutation: AxisPermutation::Yzx },
        Face { n_sign: 1, permutation: AxisPermutation::Zxy },
    ];
    assert(faces@ =~= right_handed_y_up());
    faces
}

/// The six faces of a right-handed coordinate system with `y` pointing up.
pub open spec fn right_handed_y_up() -> Seq<Face> {
    seq![
        Face { n_sign: -1i32, permutation: AxisPermutation::Xzy },
        Face { n_sign: -1i32, permutation: AxisPermutation::Yzx },
        Face { n_sign: -1i32, permutation: AxisPermutation::Zxy },
        Face { n_sign: 1i32, permutation: AxisPermutation::Xzy },
        Face { n_sign: 1i32, permutation: AxisPermutation::Yzx },
        Face { n_sign: 1i32, permutation: AxisPermutation::Zxy },
    ]
}

} // verus!
