//! A bounded voxel world: palette-compressed chunk storage, a deterministic
//! procedural generator, supercover line-collision queries, and a
//! priority-ordered incremental population scheduler.

use vstd::prelude::*;

pub mod block;
pub mod chunk;
pub mod chunk_cache;
pub mod coordinates;
pub mod inventory;
pub mod layout;
pub mod linecast;
pub mod packing;
pub mod scheduler;
pub mod storage;
pub mod tool;
pub mod worldgen;

pub use block::Block;
pub use chunk::{CHUNK_DEPTH, CHUNK_HEIGHT, CHUNK_WIDTH, Chunk, ChunkBlocks, ChunkError};
pub use chunk_cache::{CachedChunk, ChunkCache};
pub use coordinates::{ChunkPosition, LocalBlockCoord, WorldCoord};
pub use inventory::{INVENTORY_SLOTS, InventorySlot, InventorySlots, MAX_INVENTORY_UNITS};
pub use storage::StorageError;
pub use tool::{
    PlacementError,
    PlacementErrorReason,
    PlacementOutcome,
    ToolController,
    ToolSelection,
};
pub use worldgen::DeterministicMap;

verus! {

/// Identifier of a block type; `0` is reserved for empty space.
pub type BlockId = u16;

pub const AIR: BlockId = 0;
pub const DIRT: BlockId = 1;
pub const STONE: BlockId = 2;
pub const IRON: BlockId = 3;
pub const BEDROCK: BlockId = 4;
pub const CORE: BlockId = 5;

/// Only the core block may be placed back into the world by hand.
pub fn is_placable_block(block: BlockId) -> (r: bool)
    ensures
        r == (block == CORE),
{
    block == CORE
}

} // verus!
