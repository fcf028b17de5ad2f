//! Quads of merged voxel faces, the six face orientations and their geometry.
use vstd::prelude::*;
use building_blocks::mesh::{greedy_quads, GreedyQuadsBuffer, UnorientedQuad, RIGHT_HANDED_Y_UP_CONFIG};
use building_blocks::prelude::PointN;
use building_blocks::storage::Array3x1;
use crate::coords::padded_chunk_box;
use crate::grid::{grid_cells, point_of, Point};
use crate::voxel::Voxel;

verus! {

/// The longest edge of a quad, in voxels: the edge of a chunk.
pub const MAX_QUAD_EDGE: i32 = 128;

/// A rectangle of voxel faces that share an orientation: its least voxel and its
/// size along the orientation's two in-plane axes.
#[derive(Debug, Clone, Copy, PartialEq, Eq)]
pub struct Quad {
    pub minimum: [i32; 3],
    pub width: i32,
    pub height: i32,
}

/// One of the six orientations of a voxel face, in the order in which the mesher
/// groups its quads.
#[derive(Debug, Clone, Copy, PartialEq, Eq, Structural)]
pub enum Face {
    NegX,
    NegY,
    NegZ,
    PosX,
    PosY,
    PosZ,
}

impl Face {
    /// Where the orientation stands among the six.
    pub open spec fn spec_index(self) -> int {
        match self {
            Face::NegX => 0,
            Face::NegY => 1,
            Face::NegZ => 2,
            Face::PosX => 3,
            Face::PosY => 4,
            Face::PosZ => 5,
        }
    }

    /// Where the orientation stands among the six.
    pub fn index(self) -> (i: usize)
        ensures
            i == self.spec_index(),
            i < 6,
    {
        match self {
            Face::NegX => 0,
            Face::NegY => 1,
            Face::NegZ => 2,
            Face::PosX => 3,
            Face::PosY => 4,
            Face::PosZ => 5,
        }
    }

    /// The orientation that stands at `i` among the six.
    pub fn from_index(i: usize) -> (face: Option<Face>)
        ensures
            i < 6 ==> face is Some && face->0.spec_index() == i,
            i >= 6 ==> face is None,
    {
        if i == 0 {
            Some(Face::NegX)
        } else if i == 1 {
            Some(Face::NegY)
        } else if i == 2 {
            Some(Face::NegZ)
        } else if i == 3 {
            Some(Face::PosX)
        } else if i == 4 {
            Some(Face::PosY)
        } else if i == 5 {
            Some(Face::PosZ)
        } else {
            None
        }
    }

    /// Whether the face looks along its axis (`1`) or against it (`-1`).
    pub open spec fn sign(self) -> int {
        if self.spec_index() < 3 {
            -1
        } else {
            1
        }
    }

    /// The axis that the face is normal to: 0 for x, 1 for y, 2 for z.
    pub open spec fn normal_axis(self) -> int {
        self.spec_index() % 3
    }

    /// The in-plane axis along which a quad's width runs.
    pub open spec fn u_axis(self) -> int {
        if self.normal_axis() == 2 {
            0
        } else {
            2
        }
    }

    /// The in-plane axis along which a quad's height runs.
    pub open spec fn v_axis(self) -> int {
        if self.normal_axis() == 1 {
            0
        } else {
            1
        }
    }

    /// Whether the two triangles of a quad are wound counter-clockwise in the order
    /// of its corners.
    pub open spec fn counter_clockwise(self) -> bool {
        self == Face::NegX || self == Face::PosY || self == Face::PosZ
    }

    /// Whether texture coordinates run against the quad's width.
    pub open spec fn flips_u(self) -> bool {
        self == Face::NegY || self == Face::NegZ || self == Face::PosX
    }

    /// The unit normal of the face.
    pub open spec fn normal(self) -> Point {
        if self.sign() > 0 {
            unit(self.normal_axis())
        } else {
            scaled(unit(self.normal_axis()), -1)
        }
    }
}

/// The unit vector along an axis.
pub open spec fn unit(axis: int) -> Point {
    if axis == 0 {
        (1, 0, 0)
    } else if axis == 1 {
        (0, 1, 0)
    } else {
        (0, 0, 1)
    }
}

/// A vector times a number.
pub open spec fn scaled(p: Point, k: int) -> Point {
    (p.0 * k, p.1 * k, p.2 * k)
}

/// The sum of two vectors.
pub open spec fn plus(p: Point, q: Point) -> Point {
    (p.0 + q.0, p.1 + q.1, p.2 + q.2)
}

impl Quad {
    /// The least voxel of the quad, as a lattice point.
    pub open spec fn min_point(self) -> Point {
        point_of(self.minimum)
    }

    /// The quad starts among a chunk's own cells and is no wider or higher than a
    /// chunk's edge.
    pub open spec fn fits(self) -> bool {
        &&& crate::coords::chunk_box().contains(self.min_point())
        &&& 1 <= self.width <= MAX_QUAD_EDGE
        &&& 1 <= self.height <= MAX_QUAD_EDGE
    }

    /// Corner `j` of the quad on `face`, counted along the width first: least
    /// corner, then along the width, then along the height, then opposite. A face
    /// that looks along its axis lies one cell further along it.
    pub open spec fn corner(self, face: Face, j: int) -> Point {
        let base = if face.sign() > 0 {
            plus(self.min_point(), unit(face.normal_axis()))
        } else {
            self.min_point()
        };
        let along_u = if j == 1 || j == 3 {
            scaled(unit(face.u_axis()), self.width as int)
        } else {
            (0, 0, 0)
        };
        let along_v = if j == 2 || j == 3 {
            scaled(unit(face.v_axis()), self.height as int)
        } else {
            (0, 0, 0)
        };
        plus(plus(base, along_u), along_v)
    }

    /// Texture coordinate of corner `j` of the quad on `face`: the texture repeats
    /// once per voxel, and runs against the width on the faces that flip it.
    pub open spec fn tex_coord(self, face: Face, j: int) -> (int, int) {
        let at_far_u = (j == 1 || j == 3) != face.flips_u();
        let at_far_v = j == 2 || j == 3;
        (
            if at_far_u {
                self.width as int
            } else {
                0
            },
            if at_far_v {
                self.height as int
            } else {
                0
            },
        )
    }
}

/// Vertex `j` of the two triangles of a quad whose first corner is vertex `start`.
pub open spec fn triangle_index(face: Face, start: int, j: int) -> int {
    if face.counter_clockwise() {
        start + seq![0int, 1, 2, 1, 3, 2][j]
    } else {
        start + seq![0int, 2, 1, 1, 2, 3][j]
    }
}

/// The groups of quads as sequences.
pub open spec fn groups_view(groups: Vec<Vec<Quad>>) -> Seq<Seq<Quad>> {
    groups@.map_values(|g: Vec<Quad>| g@)
}

/// What `building_blocks::mesh::greedy_quads` makes of an array that holds `cells`,
/// run over the whole array with the right-handed, y-up faces: for each of the six
/// faces, in the order of `Face`, the quads it merged, in the order in which it
/// found them. The mesher reads nothing but the array, so equal cells give equal
/// quads.
pub uninterp spec fn greedy_quads_result(cells: Map<Point, Voxel>) -> Seq<Seq<Quad>>;

/// Calls `greedy_quads` on the array and its own extent, with a fresh
/// `GreedyQuadsBuffer` over `RIGHT_HANDED_Y_UP_CONFIG.quad_groups()`, and copies the
/// quads of each group out. Taken on trust: the result is `greedy_quads_result` of
/// the array's cells, and no more; `check_quads` tests what `build_mesh` needs of
/// it.
#[verifier::external_body]
pub(crate) fn array_greedy_quads(grid: &Array3x1<Voxel>) -> (groups: Vec<Vec<Quad>>)
    requires
        forall|p: Point| grid_cells(*grid).dom().contains(p) <==> padded_chunk_box().contains(p),
    ensures
        groups_view(groups) == greedy_quads_result(grid_cells(*grid)),
{
    let extent = *grid.extent();
    let mut buffer = GreedyQuadsBuffer::new(extent, RIGHT_HANDED_Y_UP_CONFIG.quad_groups());
    greedy_quads(grid, &extent, &mut buffer);
    buffer.quad_groups.iter().map(
        |g| g.quads.iter().map(|q| Quad { minimum: q.minimum.0, width: q.width, height: q.height }).collect(),
    ).collect()
}

/// Calls `OrientedCubeFace::quad_corners` on the face of
/// `RIGHT_HANDED_Y_UP_CONFIG.faces` that stands at `face`. Taken on trust: the four
/// corners are those of `Quad::corner`. The quad is asked to fit a chunk, so that no
/// sum of coordinates leaves the range of `i32`.
#[verifier::external_body]
pub(crate) fn face_quad_corners(face: Face, quad: &Quad) -> (corners: [[i32; 3]; 4])
    requires
        quad.fits(),
    ensures
        forall|j: int| 0 <= j < 4 ==> point_of(#[trigger] corners[j]) == quad.corner(face, j),
{
    let oriented = RIGHT_HANDED_Y_UP_CONFIG.faces[face as usize];
    let [a, b, c, d] = oriented.quad_corners(
        &UnorientedQuad { minimum: PointN(quad.minimum), width: quad.width, height: quad.height },
    );
    [a.0, b.0, c.0, d.0]
}

/// Calls `OrientedCubeFace::signed_normal` on the face of
/// `RIGHT_HANDED_Y_UP_CONFIG.faces` that stands at `face`. Taken on trust: the result
/// is the unit vector of the face's axis, times the face's sign.
#[verifier::external_body]
pub(crate) fn face_signed_normal(face: Face) -> (normal: [i32; 3])
    ensures
        point_of(normal) == face.normal(),
{
    RIGHT_HANDED_Y_UP_CONFIG.faces[face as usize].signed_normal().0
}

/// Calls `OrientedCubeFace::quad_mesh_indices` on the face of
/// `RIGHT_HANDED_Y_UP_CONFIG.faces` that stands at `face`. Taken on trust: the six
/// indices are `start` plus 0, 1, 2, 1, 3, 2 on a face wound counter-clockwise and
/// `start` plus 0, 2, 1, 1, 2, 3 on the others. `start + 3` is asked to fit 32 bits.
#[verifier::external_body]
pub(crate) fn face_quad_indices(face: Face, start: u32) -> (indices: [u32; 6])
    requires
        start <= u32::MAX - 3,
    ensures
        forall|j: int| 0 <= j < 6 ==> #[trigger] indices[j] == triangle_index(face, start as int, j),
{
    RIGHT_HANDED_Y_UP_CONFIG.faces[face as usize].quad_mesh_indices(start)
}

} // verus!
