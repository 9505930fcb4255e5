//! The three coordinate systems of the world: chunk positions in the chunk
//! lattice, local coordinates inside one chunk, and absolute world
//! coordinates.

use vstd::prelude::*;

verus! {

/// Position of one chunk in the infinite chunk lattice.
#[derive(Debug, Clone, Copy, PartialEq, Eq, Hash, Structural)]
pub struct ChunkPosition {
    pub x: i32,
    pub y: i32,
    pub z: i32,
}

impl ChunkPosition {
    pub fn new(x: i32, y: i32, z: i32) -> (r: Self)
        ensures
            r == (ChunkPosition { x, y, z }),
    {
        Self { x, y, z }
    }
}

/// Coordinate of one voxel inside a chunk; each axis is bounded by the
/// chunk's extent on that axis.
#[derive(Debug, Clone, Copy, PartialEq, Eq, Structural)]
pub struct LocalBlockCoord {
    pub x: usize,
    pub y: usize,
    pub z: usize,
}

impl LocalBlockCoord {
    pub fn new(x: usize, y: usize, z: usize) -> (r: Self)
        ensures
            r == (LocalBlockCoord { x, y, z }),
    {
        Self { x, y, z }
    }
}

/// Coordinate of one voxel in the absolute world lattice.
#[derive(Debug, Clone, Copy, PartialEq, Eq, Hash, Structural)]
pub struct WorldCoord {
    pub x: i32,
    pub y: i32,
    pub z: i32,
}

impl WorldCoord {
    pub fn new(x: i32, y: i32, z: i32) -> (r: Self)
        ensures
            r == (WorldCoord { x, y, z }),
    {
        Self { x, y, z }
    }
}

} // verus!
