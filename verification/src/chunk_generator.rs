//! Laying terrain into a chunk from one height per column.
use vstd::prelude::*;
use crate::chunk::Chunk;
use crate::coords::padded_chunk_box;
use crate::grid::{in_span, point_of, span_filled, Point};
use crate::voxel::Voxel;
use crate::{CHUNK_SIZE_X, CHUNK_SIZE_Y, CHUNK_SIZE_Z};

verus! {

/// Height round which the terrain undulates.
pub const GROUND_LEVEL: u32 = 100;

/// How far above or below `GROUND_LEVEL` the terrain may reach before clamping.
pub const NOISE_GROUND_MAX_OFFSET: u32 = 50;

/// Least height that the noise field maps to.
pub const NOISE_MIN: u32 = GROUND_LEVEL - NOISE_GROUND_MAX_OFFSET;

/// Greatest height that the noise field maps to.
pub const NOISE_MAX: u32 = GROUND_LEVEL + NOISE_GROUND_MAX_OFFSET;

/// Seed of the noise field.
pub const LEVEL_SEED: i32 = 0;

/// Number of columns in a chunk, and so of heights that one generation takes.
pub const COLUMNS_PER_CHUNK: usize = 16384;

/// The material of the layer at height 0.
pub open spec fn base_voxel() -> Voxel {
    Voxel { attributes: [194u8, 178u8, 128u8, 255u8] }
}

/// The material of the columns above the base layer.
pub open spec fn ground_voxel() -> Voxel {
    Voxel { attributes: [99u8, 146u8, 103u8, 255u8] }
}

/// A raw height brought into the vertical extent of a chunk.
pub open spec fn clamped_height(raw: int) -> int {
    if raw < 0 {
        0
    } else if raw > CHUNK_SIZE_Y - 1 {
        CHUNK_SIZE_Y - 1
    } else {
        raw
    }
}

/// Where the height of the column at `(x, z)` stands among the heights of a chunk.
pub open spec fn column_index(x: int, z: int) -> int {
    z * CHUNK_SIZE_X + x
}

/// Whether `p` lies in the base layer: height 0, from the chunk's least corner up to
/// and including the first border cell past its greatest.
pub open spec fn in_base_layer(p: Point) -> bool {
    p.1 == 0 && 0 <= p.0 <= CHUNK_SIZE_X && 0 <= p.2 <= CHUNK_SIZE_Z
}

/// Whether `p` lies in the filled part of its column, given the heights of the
/// first `done` columns only.
pub open spec fn in_ground(heights: Seq<i32>, done: int, p: Point) -> bool {
    &&& 0 <= p.0 < CHUNK_SIZE_X
    &&& 0 <= p.2 < CHUNK_SIZE_Z
    &&& column_index(p.0, p.2) < done
    &&& 1 <= p.1 <= clamped_height(heights[column_index(p.0, p.2)] as int)
}

/// The voxel at `p` once the base layer and the first `done` columns are laid over
/// a cell that held `before`.
pub open spec fn terrain_voxel(before: Voxel, heights: Seq<i32>, done: int, p: Point) -> Voxel {
    if in_base_layer(p) {
        base_voxel()
    } else if in_ground(heights, done, p) {
        ground_voxel()
    } else {
        before
    }
}

/// The cells of a chunk once the base layer and the first `done` columns are laid
/// over `before`.
pub open spec fn terrain_after(before: Map<Point, Voxel>, heights: Seq<i32>, done: int) -> Map<
    Point,
    Voxel,
> {
    Map::new(
        |p: Point| before.dom().contains(p),
        |p: Point| terrain_voxel(before[p], heights, done, p),
    )
}

/// The cells of a chunk once terrain of the given heights is laid over `before`:
/// the base layer at height 0, and in each column the ground from height 1 up to
/// the column's clamped height.
pub open spec fn terrain_cells(before: Map<Point, Voxel>, heights: Seq<i32>) -> Map<Point, Voxel> {
    terrain_after(before, heights, COLUMNS_PER_CHUNK as int)
}

/// Generation is a function of the heights: terrain of the same heights, laid over
/// chunks that held the same cells, leaves the same cells in both.
pub proof fn lemma_generation_is_deterministic(
    first_before: Chunk,
    first_after: Chunk,
    second_before: Chunk,
    second_after: Chunk,
    heights: Seq<i32>,
)
    requires
        first_before.cells() == second_before.cells(),
        first_after.cells() == terrain_cells(first_before.cells(), heights),
        second_after.cells() == terrain_cells(second_before.cells(), heights),
    ensures
        first_after.cells() == second_after.cells(),
{
}

/// However extreme the raw height, no column reaches outside the chunk.
pub proof fn lemma_height_stays_in_chunk(raw: int)
    ensures
        0 <= clamped_height(raw) <= CHUNK_SIZE_Y - 1,
{
}

/// The height of a column's top block: the raw height, clamped to the chunk.
pub fn block_height(raw: i32) -> (h: i32)
    ensures
        0 <= h <= CHUNK_SIZE_Y - 1,
        h == clamped_height(raw as int),
{
    if raw < 0 {
        0
    } else if raw > CHUNK_SIZE_Y - 1 {
        CHUNK_SIZE_Y - 1
    } else {
        raw
    }
}

/// Lays terrain into `chunk`. `heights` holds one raw height per column, the column
/// at `(x, z)` at index `z * CHUNK_SIZE_X + x`.
pub fn generate_chunk(chunk: &mut Chunk, heights: &Vec<i32>)
    requires
        old(chunk).wf(),
        heights.len() == COLUMNS_PER_CHUNK,
    ensures
        final(chunk).wf(),
        final(chunk).pos() == old(chunk).pos(),
        final(chunk).cells() == terrain_cells(old(chunk).cells(), heights@),
{
    let ghost before = chunk.cells();
    let base = Voxel::new([194, 178, 128, 255]);
    let ground = Voxel::new([99, 146, 103, 255]);
    assert(base == base_voxel()) by {
        assert(base.attributes =~= base_voxel().attributes);
    }
    assert(ground == ground_voxel()) by {
        assert(ground.attributes =~= ground_voxel().attributes);
    }
    assert(padded_chunk_box().contains(point_of([0i32, 0i32, 0i32])));
    assert(padded_chunk_box().contains(point_of([CHUNK_SIZE_X, 0i32, CHUNK_SIZE_Z])));
    chunk.fill_span([0, 0, 0], [CHUNK_SIZE_X, 0, CHUNK_SIZE_Z], base);
    assert(chunk.cells() =~= terrain_after(before, heights@, 0));
    let mut z: i32 = 0;
    while z < CHUNK_SIZE_Z
        invariant
            0 <= z <= CHUNK_SIZE_Z,
            heights.len() == COLUMNS_PER_CHUNK,
            chunk.wf(),
            chunk.pos() == old(chunk).pos(),
            before == old(chunk).cells(),
            ground == ground_voxel(),
            chunk.cells() == terrain_after(before, heights@, column_index(0, z as int)),
        decreases CHUNK_SIZE_Z - z,
    {
        let mut x: i32 = 0;
        while x < CHUNK_SIZE_X
            invariant
                0 <= z < CHUNK_SIZE_Z,
                0 <= x <= CHUNK_SIZE_X,
                heights.len() == COLUMNS_PER_CHUNK,
                chunk.wf(),
                chunk.pos() == old(chunk).pos(),
                before == old(chunk).cells(),
                ground == ground_voxel(),
                chunk.cells() == terrain_after(before, heights@, column_index(x as int, z as int)),
            decreases CHUNK_SIZE_X - x,
        {
            let index: usize = (z * CHUNK_SIZE_X + x) as usize;
            let top: i32 = block_height(heights[index]);
            let ghost laid = chunk.cells();
            let ghost lo = point_of([x, 1i32, z]);
            let ghost hi = point_of([x, top, z]);
            assert(padded_chunk_box().contains(lo));
            assert(padded_chunk_box().contains(hi));
            chunk.fill_span([x, 1, z], [x, top, z], ground);
            assert(chunk.cells() =~= terrain_after(before, heights@, column_index(x + 1, z as int)))
                by {
                assert forall|p: Point| before.dom().contains(p) implies (#[trigger] span_filled(
                    laid,
                    lo,
                    hi,
                    ground,
                )[p]) == terrain_voxel(before[p], heights@, column_index(x + 1, z as int), p) by {
                    assert(laid[p] == terrain_voxel(
                        before[p],
                        heights@,
                        column_index(x as int, z as int),
                        p,
                    ));
                    assert(in_span(p, lo, hi) <==> (p.0 == x && p.2 == z && 1 <= p.1 <= top));
                    if 0 <= p.0 < CHUNK_SIZE_X && 0 <= p.2 < CHUNK_SIZE_Z {
                        assert(column_index(p.0, p.2) == column_index(x as int, z as int) <==> (p.0
                            == x && p.2 == z));
                    }
                }
            }
            x = x + 1;
        }
        z = z + 1;
    }
}

} // verus!
