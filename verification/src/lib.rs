//! Streaming of an unbounded voxel terrain around a moving observer: which chunks
//! exist, what state each is in, how its blocks are laid down and how its surface
//! is turned into quads.
use vstd::prelude::*;

pub mod chunk;
pub mod chunk_generator;
pub mod coords;
pub mod events;
pub mod grid;
pub mod lifecycle;
pub mod mesh;
pub mod pipeline;
pub mod player;
pub mod quads;
pub mod streaming;
pub mod voxel;
pub mod world;

verus! {

/// Lattice cells per unit of world length; a chunk spans one unit on each axis.
pub const WORLD_RESOLUTION: i32 = 128;

/// Largest number of chunks that terrain is laid down for in one tick.
pub const MAX_CHUNKS_GEN_PER_FRAME: i32 = 16;

/// Cells along the x edge of a chunk.
pub const CHUNK_SIZE_X: i32 = 128;

/// Cells along the y edge (the vertical extent) of a chunk.
pub const CHUNK_SIZE_Y: i32 = 128;

/// Cells along the z edge of a chunk.
pub const CHUNK_SIZE_Z: i32 = 128;

/// Names the part of an application that lays out the world at startup.
#[derive(Debug, Clone, Copy, PartialEq, Eq)]
pub struct WorldPlugin;

} // verus!
