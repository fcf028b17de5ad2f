//! The messages that the phases of a tick hand to one another.
use vstd::prelude::*;
use crate::coords::ChunkCoord;

verus! {

/// Asks for a chunk to be loaded at a coordinate.
#[derive(Debug, Clone, Copy, PartialEq, Eq, Structural)]
pub struct ChunkSpawnRequest(pub ChunkCoord);

/// Asks for the chunk with the given handle, loaded at the given coordinate, to leave.
#[derive(Debug, Clone, Copy, PartialEq, Eq, Structural)]
pub struct ChunkDespawnRequest(pub ChunkCoord, pub u64);

/// Asks for the terrain of the chunk with the given handle.
#[derive(Debug, Clone, Copy, PartialEq, Eq, Structural)]
pub struct ChunkLoadRequest(pub u64);

/// Asks for the heights of the chunk at the given coordinate, which was taken up for
/// generation under the given handle.
#[derive(Debug, Clone, Copy, PartialEq, Eq, Structural)]
pub struct ChunkGenerateRequest(pub ChunkCoord, pub u64);

/// Says that the chunk at the given coordinate, with the given handle, has left the
/// registry.
#[derive(Debug, Clone, Copy, PartialEq, Eq, Structural)]
pub struct ChunkRemovedEvent(pub ChunkCoord, pub u64);

/// Says that the terrain of the chunk at the given coordinate, with the given handle,
/// is laid.
#[derive(Debug, Clone, Copy, PartialEq, Eq, Structural)]
pub struct ChunkReadyEvent(pub ChunkCoord, pub u64);

/// Asks for the mesh of the chunk with the given handle.
#[derive(Debug, Clone, Copy, PartialEq, Eq, Structural)]
pub struct ChunkMeshingEvent(pub u64);

} // verus!
