//! The voxel record and what the mesher asks of it.
use vstd::prelude::*;

verus! {

/// One cell of terrain: four attribute channels, the last of which is opacity.
/// All zeroes is the empty cell.
#[derive(Debug, Clone, Copy, PartialEq, Eq)]
pub struct Voxel {
    pub attributes: [u8; 4],
}

impl Voxel {
    /// Whether the cell holds nothing: its last channel is zero.
    pub open spec fn vacant(self) -> bool {
        self.attributes[3] == 0
    }

    /// The value by which neighbouring faces are merged: the first channel.
    pub open spec fn merge_key(self) -> u8 {
        self.attributes[0]
    }

    /// A cell with the four channels given.
    pub fn new(attributes: [u8; 4]) -> (v: Voxel)
        ensures
            v.attributes == attributes,
    {
        Voxel { attributes }
    }

    /// The value by which neighbouring faces are merged.
    pub fn voxel_merge_value(&self) -> (key: u8)
        ensures
            key == self.merge_key(),
    {
        self.attributes[0]
    }

    /// Every cell blocks light.
    pub fn is_opaque(&self) -> (opaque: bool)
        ensures
            opaque,
    {
        true
    }

    /// Whether the cell holds nothing.
    pub fn is_empty(&self) -> (empty: bool)
        ensures
            empty == self.vacant(),
    {
        self.attributes[3] == 0
    }
}

impl Default for Voxel {
    /// The empty cell.
    fn default() -> (v: Voxel)
        ensures
            v.attributes[0] == 0 && v.attributes[1] == 0 && v.attributes[2] == 0
                && v.attributes[3] == 0,
    {
        Voxel { attributes: [0, 0, 0, 0] }
    }
}

impl building_blocks::mesh::MergeVoxel for Voxel {
    type VoxelValue = u8;

    fn voxel_merge_value(&self) -> (key: u8) ensures key == self.merge_key(), {
        Voxel::voxel_merge_value(self)
    }
}

impl building_blocks::mesh::IsOpaque for Voxel {
    fn is_opaque(&self) -> (opaque: bool) ensures opaque, {
        Voxel::is_opaque(self)
    }
}

impl building_blocks::prelude::IsEmpty for Voxel {
    fn is_empty(&self) -> (empty: bool) ensures empty == self.vacant(), {
        Voxel::is_empty(self)
    }
}

} // verus!
