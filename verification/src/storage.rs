//! The save/load boundary: the error type that storage callbacks report, and
//! the expected payload size per chunk.

use vstd::prelude::*;

verus! {

use crate::chunk::{CHUNK_BLOCKS, CHUNK_DEPTH, CHUNK_HEIGHT, CHUNK_WIDTH};

/// An error reported by an external save or load callback.
#[derive(Debug, Clone, PartialEq, Eq)]
pub struct StorageError(pub String);

impl StorageError {
    pub fn new(message: &str) -> (r: Self)
        ensures
            r.0@ == message@,
    {
        Self(message.to_string())
    }
}

/// How many block ids one chunk's save payload must hold.
pub fn expected_block_count(width: usize, depth: usize, height: usize) -> (r: usize)
    requires
        width * depth <= usize::MAX,
        width * depth * height <= usize::MAX,
    ensures
        r == width * depth * height,
{
    width * depth * height
}

/// The payload size for this crate's chunk dimensions.
pub fn default_block_count() -> (r: usize)
    ensures
        r == CHUNK_BLOCKS,
{
    expected_block_count(CHUNK_WIDTH, CHUNK_DEPTH, CHUNK_HEIGHT)
}

} // verus!
