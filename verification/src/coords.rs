//! Chunk coordinates, distances between them and the lattice box of a chunk.
use vstd::prelude::*;
use crate::grid::{in_box, point_of, Point};
use crate::{CHUNK_SIZE_X, CHUNK_SIZE_Y, CHUNK_SIZE_Z};

verus! {

/// The place of a chunk in the horizontal tiling of the world.
#[derive(Debug, Clone, Copy, PartialEq, Eq, Structural, Hash)]
pub struct ChunkCoord {
    pub x: i32,
    pub z: i32,
}

impl ChunkCoord {
    /// The coordinate with the two components given.
    pub fn new(x: i32, z: i32) -> (c: ChunkCoord)
        ensures
            c.x == x,
            c.z == z,
    {
        ChunkCoord { x, z }
    }

    /// Squared distance, in chunks, between two coordinates.
    pub open spec fn dist2(self, other: ChunkCoord) -> int {
        (self.x - other.x) * (self.x - other.x) + (self.z - other.z) * (self.z - other.z)
    }

    /// Squared distance, in chunks, between two coordinates.
    pub fn distance_squared(&self, other: &ChunkCoord) -> (d: u128)
        ensures
            d == self.dist2(*other),
    {
        let dx: i128 = self.x as i128 - other.x as i128;
        let dz: i128 = self.z as i128 - other.z as i128;
        assert(0 <= dx * dx <= 0x1_0000_0000 * 0x1_0000_0000) by (nonlinear_arith)
            requires
                -0x1_0000_0000 <= dx <= 0x1_0000_0000,
        ;
        assert(0 <= dz * dz <= 0x1_0000_0000 * 0x1_0000_0000) by (nonlinear_arith)
            requires
                -0x1_0000_0000 <= dz <= 0x1_0000_0000,
        ;
        (dx * dx + dz * dz) as u128
    }
}

/// A box of lattice points: its least corner and the number of points on each axis.
#[derive(Debug, Clone, Copy, PartialEq, Eq)]
pub struct Extent {
    pub minimum: [i32; 3],
    pub shape: [i32; 3],
}

impl Extent {
    /// Whether the box holds the point `p`.
    pub open spec fn contains(self, p: Point) -> bool {
        in_box(p, point_of(self.minimum), point_of(self.shape))
    }

    /// The box grown by `pad` points on each of its six sides.
    pub fn padded(&self, pad: i32) -> (e: Extent)
        requires
            -0x2000_0000 <= pad <= 0x2000_0000,
            forall|i: int| 0 <= i < 3 ==> -0x2000_0000 <= #[trigger] self.minimum[i] <= 0x2000_0000,
            forall|i: int| 0 <= i < 3 ==> -0x2000_0000 <= #[trigger] self.shape[i] <= 0x2000_0000,
        ensures
            forall|i: int| 0 <= i < 3 ==> #[trigger] e.minimum[i] == self.minimum[i] - pad,
            forall|i: int| 0 <= i < 3 ==> #[trigger] e.shape[i] == self.shape[i] + 2 * pad,
    {
        Extent {
            minimum: [self.minimum[0] - pad, self.minimum[1] - pad, self.minimum[2] - pad],
            shape: [self.shape[0] + pad + pad, self.shape[1] + pad + pad, self.shape[2] + pad + pad],
        }
    }
}

/// The box of one chunk's own cells, without the padding round it.
pub fn chunk_extent() -> (e: Extent)
    ensures
        e == chunk_box(),
{
    Extent { minimum: [0i32, 0i32, 0i32], shape: [CHUNK_SIZE_X, CHUNK_SIZE_Y, CHUNK_SIZE_Z] }
}

/// The box of one chunk's own cells.
pub open spec fn chunk_box() -> Extent {
    Extent { minimum: [0i32, 0i32, 0i32], shape: [CHUNK_SIZE_X, CHUNK_SIZE_Y, CHUNK_SIZE_Z] }
}

/// The box that a chunk's array covers: its own cells and one more on every side.
pub open spec fn padded_chunk_box() -> Extent {
    Extent {
        minimum: [-1i32, -1i32, -1i32],
        shape: [(CHUNK_SIZE_X + 2) as i32, (CHUNK_SIZE_Y + 2) as i32, (CHUNK_SIZE_Z + 2) as i32],
    }
}

/// Floor of `a / b` for a positive `b`.
pub open spec fn floor_div(a: int, b: int) -> int {
    a / b
}

/// The chunk that holds the lattice column at `(x, z)`: floor division by the
/// chunk's size on each axis.
pub fn get_chunk_indices(x: i32, z: i32) -> (c: ChunkCoord)
    ensures
        c.x == floor_div(x as int, CHUNK_SIZE_X as int),
        c.z == floor_div(z as int, CHUNK_SIZE_Z as int),
        c.x * CHUNK_SIZE_X <= x < (c.x + 1) * CHUNK_SIZE_X,
        c.z * CHUNK_SIZE_Z <= z < (c.z + 1) * CHUNK_SIZE_Z,
{
    ChunkCoord { x: floor_to_chunk(x, CHUNK_SIZE_X), z: floor_to_chunk(z, CHUNK_SIZE_Z) }
}

/// Floor of `a / size`, where the machine's division rounds toward zero.
fn floor_to_chunk(a: i32, size: i32) -> (q: i32)
    requires
        size == 128,
    ensures
        q == a as int / size as int,
        q * size <= a < (q + 1) * size,
{
    let q: i32 = a / size;
    let r: i32 = a % size;
    if r < 0 {
        q - 1
    } else {
        q
    }
}

/// The lattice point at which a chunk's own cells begin.
pub fn get_global_chunk_coordinates(coords: ChunkCoord) -> (origin: [i64; 3])
    ensures
        origin[0] == coords.x * CHUNK_SIZE_X,
        origin[1] == 0,
        origin[2] == coords.z * CHUNK_SIZE_Z,
{
    let x: i64 = coords.x as i64;
    let z: i64 = coords.z as i64;
    [x * (CHUNK_SIZE_X as i64), 0, z * (CHUNK_SIZE_Z as i64)]
}

} // verus!
