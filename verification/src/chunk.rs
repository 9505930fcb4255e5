//! A chunk: a dense, fixed-size three-dimensional array of block ids at one
//! chunk position.

use vstd::prelude::*;

verus! {

use crate::BlockId;
use crate::coordinates::{ChunkPosition, LocalBlockCoord};

/// Voxels per chunk along the x axis.
pub const CHUNK_WIDTH: usize = 32;
/// Voxels per chunk along the y axis.
pub const CHUNK_DEPTH: usize = 32;
/// Voxels per chunk along the z axis.
pub const CHUNK_HEIGHT: usize = 4;
/// Total voxels per chunk.
pub const CHUNK_BLOCKS: usize = CHUNK_WIDTH * CHUNK_DEPTH * CHUNK_HEIGHT;

/// True when `coord` addresses a voxel inside a chunk.
pub open spec fn local_in_bounds(coord: LocalBlockCoord) -> bool {
    coord.x < CHUNK_WIDTH && coord.y < CHUNK_DEPTH && coord.z < CHUNK_HEIGHT
}

/// Index of a local coordinate in a chunk's dense block array: x varies
/// fastest, then y, then z.
pub open spec fn local_index(coord: LocalBlockCoord) -> int {
    coord.x + coord.y * CHUNK_WIDTH + coord.z * CHUNK_WIDTH * CHUNK_DEPTH
}

/// The dense index of a voxel never reaches past the chunk's block count.
pub broadcast proof fn lemma_local_index_in_range(coord: LocalBlockCoord)
    requires
        local_in_bounds(coord),
    ensures
        0 <= #[trigger] local_index(coord) < CHUNK_BLOCKS,
{
}

/// A flat block array extracted from (or destined for) a chunk, keyed by the
/// chunk's position: the save/load payload of one chunk.
#[derive(Debug, Clone, PartialEq, Eq)]
pub struct ChunkBlocks {
    pub position: ChunkPosition,
    pub blocks: Vec<BlockId>,
}

/// Errors of the chunk storage layer.
#[derive(Debug, Clone, PartialEq, Eq, Structural)]
pub enum ChunkError {
    /// A save/load payload whose length is not the chunk's block count.
    InvalidBlockCount(usize),
    /// A coordinate outside the chunk's extent, or a write into a chunk that
    /// is not present.
    OutOfBounds,
}

impl ChunkBlocks {
    /// Accepts a payload only when it holds exactly one block id per voxel.
    pub fn new(position: ChunkPosition, blocks: Vec<BlockId>) -> (r: Result<Self, ChunkError>)
        ensures
            blocks@.len() == CHUNK_BLOCKS ==> r == Ok::<ChunkBlocks, ChunkError>(
                ChunkBlocks { position, blocks },
            ),
            blocks@.len() != CHUNK_BLOCKS ==> r == Err::<ChunkBlocks, ChunkError>(
                ChunkError::InvalidBlockCount(blocks@.len() as usize),
            ),
    {
        if blocks.len() != CHUNK_BLOCKS {
            return Err(ChunkError::InvalidBlockCount(blocks.len()));
        }
        Ok(Self { position, blocks })
    }
}

/// A dense chunk: one block id per voxel, plus the chunk's position.
#[derive(Debug, Clone)]
pub struct Chunk {
    pub position: ChunkPosition,
    pub blocks: Vec<BlockId>,
}

impl Chunk {
    /// The chunk's per-voxel contents.
    pub open spec fn blocks_seq(self) -> Seq<BlockId> {
        self.blocks@
    }

    /// The dense array always holds exactly one block id per voxel.
    pub open spec fn wf(self) -> bool {
        self.blocks_seq().len() == CHUNK_BLOCKS
    }

    pub fn new(position: ChunkPosition, default_block: BlockId) -> (r: Self)
        ensures
            r.wf(),
            r.position == position,
            r.blocks_seq() == Seq::new(CHUNK_BLOCKS as nat, |i: int| default_block),
    {
        let mut blocks: Vec<BlockId> = Vec::new();
        let mut i: usize = 0;
        while i < CHUNK_BLOCKS
            invariant
                i <= CHUNK_BLOCKS,
                blocks@.len() == i,
                forall|j: int| 0 <= j < i ==> blocks@[j] == default_block,
            decreases CHUNK_BLOCKS - i,
        {
            blocks.push(default_block);
            i = i + 1;
        }
        proof {
            assert(blocks@ =~= Seq::new(CHUNK_BLOCKS as nat, |i: int| default_block));
        }
        Self { position, blocks }
    }

    /// Maps a local coordinate to its index in the dense array, rejecting
    /// coordinates outside the chunk.
    pub fn block_index(coord: LocalBlockCoord) -> (r: Result<usize, ChunkError>)
        ensures
            local_in_bounds(coord) ==> r == Ok::<usize, ChunkError>(local_index(coord) as usize),
            !local_in_bounds(coord) ==> r == Err::<usize, ChunkError>(ChunkError::OutOfBounds),
    {
        if coord.x >= CHUNK_WIDTH || coord.y >= CHUNK_DEPTH || coord.z >= CHUNK_HEIGHT {
            return Err(ChunkError::OutOfBounds);
        }
        Ok(coord.x + coord.y * CHUNK_WIDTH + coord.z * CHUNK_WIDTH * CHUNK_DEPTH)
    }

    pub fn get_block(&self, coord: LocalBlockCoord) -> (r: Result<BlockId, ChunkError>)
        requires
            self.wf(),
        ensures
            local_in_bounds(coord) ==> r == Ok::<BlockId, ChunkError>(
                self.blocks_seq()[local_index(coord)],
            ),
            !local_in_bounds(coord) ==> r == Err::<BlockId, ChunkError>(ChunkError::OutOfBounds),
    {
        let index = match Self::block_index(coord) {
            Ok(index) => index,
            Err(e) => {
                return Err(e);
            },
        };
        Ok(self.blocks[index])
    }

    /// Overwrites one voxel; every other voxel and the position are kept.
    pub fn set_block(&mut self, coord: LocalBlockCoord, block: BlockId) -> (r: Result<
        (),
        ChunkError,
    >)
        requires
            old(self).wf(),
        ensures
            final(self).wf(),
            final(self).position == old(self).position,
            local_in_bounds(coord) ==> r == Ok::<(), ChunkError>(()) && final(self).blocks_seq()
                == old(self).blocks_seq().update(local_index(coord), block),
            !local_in_bounds(coord) ==> r == Err::<(), ChunkError>(ChunkError::OutOfBounds)
                && final(self).blocks_seq() == old(self).blocks_seq(),
    {
        let index = match Self::block_index(coord) {
            Ok(index) => index,
            Err(e) => {
                return Err(e);
            },
        };
        self.blocks.set(index, block);
        Ok(())
    }

    /// Extracts the chunk's contents as a save payload.
    pub fn to_block_save(&self) -> (r: ChunkBlocks)
        ensures
            r.position == self.position,
            r.blocks@ == self.blocks_seq(),
    {
        ChunkBlocks { position: self.position, blocks: self.blocks.clone() }
    }

    pub fn blocks(&self) -> (r: &Vec<BlockId>)
        ensures
            r@ == self.blocks_seq(),
    {
        &self.blocks
    }

    /// Replaces the chunk's contents from a save payload, rejecting payloads
    /// of the wrong length.
    pub fn apply_block_save(&mut self, data: &ChunkBlocks) -> (r: Result<(), ChunkError>)
        ensures
            final(self).position == old(self).position,
            data.blocks@.len() == CHUNK_BLOCKS ==> r == Ok::<(), ChunkError>(())
                && final(self).blocks_seq() == data.blocks@
                && final(self).wf(),
            data.blocks@.len() != CHUNK_BLOCKS ==> r == Err::<(), ChunkError>(
                ChunkError::InvalidBlockCount(data.blocks@.len() as usize),
            )
                && final(self).blocks_seq() == old(self).blocks_seq()
                && final(self).wf() == old(self).wf(),
    {
        if data.blocks.len() != CHUNK_BLOCKS {
            return Err(ChunkError::InvalidBlockCount(data.blocks.len()));
        }
        self.blocks = data.blocks.clone();
        Ok(())
    }
}

} // verus!
