//! A chunk: its place in the world and the voxels it owns.
use vstd::prelude::*;
use building_blocks::storage::Array3x1;
use crate::coords::{chunk_extent, padded_chunk_box, ChunkCoord, Extent};
use crate::grid::{
    array_fill_span, array_filled, array_get, grid_cells, point_of, span_filled, uniform_cells, Point,
};
use crate::voxel::Voxel;

verus! {

/// One chunk of terrain. Its array covers the chunk's own cells and a border of one
/// cell on every side, which the mesher reads and never meshes.
pub struct Chunk {
    pos: ChunkCoord,
    block_data: Array3x1<Voxel>,
}

impl Chunk {
    /// The chunk's place in the world.
    pub closed spec fn spec_pos(&self) -> ChunkCoord {
        self.pos
    }

    /// The chunk's place in the world.
    #[verifier::when_used_as_spec(spec_pos)]
    pub fn pos(&self) -> (pos: ChunkCoord)
        ensures
            pos == self.pos(),
    {
        self.pos
    }

    /// The voxel at each lattice point of the chunk's array.
    pub closed spec fn cells(&self) -> Map<Point, Voxel> {
        grid_cells(self.block_data)
    }

    /// The array covers exactly the padded box of a chunk.
    pub open spec fn wf(&self) -> bool {
        forall|p: Point| self.cells().dom().contains(p) <==> padded_chunk_box().contains(p)
    }

    /// A chunk at `pos` in which every cell, border included, is empty.
    pub fn new(pos: ChunkCoord) -> (chunk: Chunk)
        ensures
            chunk.pos() == pos,
            chunk.wf(),
            chunk.cells() == empty_cells(),
    {
        let extent: Extent = chunk_extent().padded(1);
        let empty = Voxel::default();
        assert(empty.attributes =~= [0u8, 0u8, 0u8, 0u8]);
        Chunk { pos, block_data: array_filled(extent.minimum, extent.shape, empty) }
    }

    /// The voxel at a point of the chunk's array; `None` outside it.
    pub fn voxel_at(&self, p: [i32; 3]) -> (v: Option<Voxel>)
        requires
            self.wf(),
        ensures
            v == if padded_chunk_box().contains(point_of(p)) {
                Some(self.cells()[point_of(p)])
            } else {
                None::<Voxel>
            },
    {
        if -1 <= p[0] && p[0] <= crate::CHUNK_SIZE_X && -1 <= p[1] && p[1] <= crate::CHUNK_SIZE_Y
            && -1 <= p[2] && p[2] <= crate::CHUNK_SIZE_Z {
            assert(padded_chunk_box().contains(point_of(p)));
            Some(array_get(&self.block_data, p))
        } else {
            None
        }
    }

    /// Sets every cell between the corners `lo` and `hi`, both included, to `value`.
    /// Nothing changes where a component of `hi` is below that of `lo`.
    pub fn fill_span(&mut self, lo: [i32; 3], hi: [i32; 3], value: Voxel)
        requires
            old(self).wf(),
            padded_chunk_box().contains(point_of(lo)),
            padded_chunk_box().contains(point_of(hi)),
        ensures
            final(self).wf(),
            final(self).pos() == old(self).pos(),
            final(self).cells() == span_filled(old(self).cells(), point_of(lo), point_of(hi), value),
    {
        array_fill_span(&mut self.block_data, lo, hi, value);
    }

    /// The array itself, for the code that hands it to the renderer.
    pub fn block_data(&self) -> (grid: &Array3x1<Voxel>)
        ensures
            grid_cells(*grid) == self.cells(),
    {
        &self.block_data
    }
}

/// The empty cell.
pub open spec fn empty_voxel() -> Voxel {
    Voxel { attributes: [0u8, 0u8, 0u8, 0u8] }
}

/// The cells of a chunk that nothing has been laid into.
pub open spec fn empty_cells() -> Map<Point, Voxel> {
    uniform_cells(
        point_of(padded_chunk_box().minimum),
        point_of(padded_chunk_box().shape),
        empty_voxel(),
    )
}

} // verus!
