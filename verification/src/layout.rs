//! Tile-atlas layout arithmetic: where each block's floor tile and each
//! wall-mask variant sits in the tileset grid, in tiles and in pixels.

use vstd::prelude::*;

verus! {

use crate::{BEDROCK, BlockId, DIRT, IRON, STONE};

/// Width and height of one tile, in pixels.
pub const BLOCK_PIXEL_SIZE: u32 = 16;
/// Tiles per atlas row.
pub const TILESET_COLUMNS: u32 = 8;
/// One wall tile per combination of solid neighbours.
pub const WALL_MASK_VARIANTS: u32 = 16;

pub const MASK_NORTH: u8 = 1;
pub const MASK_EAST: u8 = 2;
pub const MASK_SOUTH: u8 = 4;
pub const MASK_WEST: u8 = 8;

/// A tile's column and row in the atlas grid.
#[derive(Clone, Copy, Debug, PartialEq, Eq, Hash, Structural)]
pub struct TilePosition {
    pub tile_x: u32,
    pub tile_y: u32,
}

/// The position of a solid block in the fixed tile order, if it is solid.
pub open spec fn solid_block_index_spec(block: BlockId) -> Option<u32> {
    if block == DIRT {
        Some(0u32)
    } else if block == STONE {
        Some(1u32)
    } else if block == IRON {
        Some(2u32)
    } else if block == BEDROCK {
        Some(3u32)
    } else {
        None
    }
}

pub fn solid_block_index(block: BlockId) -> (r: Option<u32>)
    ensures
        r == solid_block_index_spec(block),
{
    if block == DIRT {
        Some(0)
    } else if block == STONE {
        Some(1)
    } else if block == IRON {
        Some(2)
    } else if block == BEDROCK {
        Some(3)
    } else {
        None
    }
}

pub fn solid_block_count() -> (r: u32)
    ensures
        r == 4,
{
    4
}

pub fn floor_tile_count() -> (r: u32)
    ensures
        r == 4,
{
    solid_block_count()
}

pub fn total_tile_count() -> (r: u32)
    ensures
        r == 4 + 4 * WALL_MASK_VARIANTS,
{
    floor_tile_count() + solid_block_count() * WALL_MASK_VARIANTS
}

pub fn tile_grid_size() -> (r: (u32, u32))
    ensures
        r.0 == TILESET_COLUMNS,
        r.1 == (4 + 4 * WALL_MASK_VARIANTS + TILESET_COLUMNS - 1) / (TILESET_COLUMNS as int),
{
    let columns = TILESET_COLUMNS;
    let rows = (total_tile_count() + columns - 1) / columns;
    (columns, rows)
}

pub fn atlas_pixel_size() -> (r: (u32, u32))
    ensures
        r.0 == TILESET_COLUMNS * BLOCK_PIXEL_SIZE,
        r.1 == ((4 + 4 * WALL_MASK_VARIANTS + TILESET_COLUMNS - 1) / (TILESET_COLUMNS as int))
            * BLOCK_PIXEL_SIZE,
{
    let (columns, rows) = tile_grid_size();
    (columns * BLOCK_PIXEL_SIZE, rows * BLOCK_PIXEL_SIZE)
}

pub fn floor_tile_index(block: BlockId) -> (r: Option<u32>)
    ensures
        r == solid_block_index_spec(block),
{
    solid_block_index(block)
}

/// The tile index of one block's wall tile for one neighbour mask.
pub open spec fn wall_tile_index_spec(block: BlockId, mask: u8) -> Option<u32> {
    if mask >= WALL_MASK_VARIANTS {
        None
    } else {
        match solid_block_index_spec(block) {
            Some(block_idx) => Some((4 + block_idx * WALL_MASK_VARIANTS + mask) as u32),
            None => None,
        }
    }
}

pub fn wall_tile_index(block: BlockId, mask: u8) -> (r: Option<u32>)
    ensures
        r == wall_tile_index_spec(block, mask),
{
    if mask >= 16 {
        return None;
    }
    match solid_block_index(block) {
        Some(block_idx) => Some(floor_tile_count() + block_idx * WALL_MASK_VARIANTS + mask as u32),
        None => None,
    }
}

/// The grid position of a tile index: row-major, eight tiles per row.
pub open spec fn tile_position_for_index_spec(tile_index: u32) -> TilePosition {
    TilePosition {
        tile_x: (tile_index as int % (TILESET_COLUMNS as int)) as u32,
        tile_y: (tile_index as int / (TILESET_COLUMNS as int)) as u32,
    }
}

pub fn tile_position_for_index(tile_index: u32) -> (r: TilePosition)
    ensures
        r == tile_position_for_index_spec(tile_index),
{
    let tile_x = tile_index % TILESET_COLUMNS;
    let tile_y = tile_index / TILESET_COLUMNS;
    TilePosition { tile_x, tile_y }
}

pub fn floor_tile_position(block: BlockId) -> (r: Option<TilePosition>)
    ensures
        r == match solid_block_index_spec(block) {
            Some(i) => Some(tile_position_for_index_spec(i)),
            None => None::<TilePosition>,
        },
{
    match floor_tile_index(block) {
        Some(i) => Some(tile_position_for_index(i)),
        None => None,
    }
}

pub fn wall_tile_position(block: BlockId, mask: u8) -> (r: Option<TilePosition>)
    ensures
        r == match wall_tile_index_spec(block, mask) {
            Some(i) => Some(tile_position_for_index_spec(i)),
            None => None::<TilePosition>,
        },
{
    match wall_tile_index(block, mask) {
        Some(i) => Some(tile_position_for_index(i)),
        None => None,
    }
}

pub fn tile_pixel_position(tile_index: u32) -> (r: (u32, u32))
    requires
        tile_index < 0x1000_0000,
    ensures
        r.0 == tile_position_for_index_spec(tile_index).tile_x * BLOCK_PIXEL_SIZE,
        r.1 == tile_position_for_index_spec(tile_index).tile_y * BLOCK_PIXEL_SIZE,
{
    let pos = tile_position_for_index(tile_index);
    proof {
        vstd::arithmetic::div_mod::lemma_fundamental_div_mod(
            tile_index as int,
            TILESET_COLUMNS as int,
        );
    }
    (pos.tile_x * BLOCK_PIXEL_SIZE, pos.tile_y * BLOCK_PIXEL_SIZE)
}

/// Pixel width of the black outline drawn around a wall tile.
pub fn wall_outline_thickness(size: u32) -> (r: u32)
    ensures
        r == if size / 16 >= 1 {
            size / 16
        } else {
            1u32
        },
{
    let t = size / 16;
    if t >= 1 {
        t
    } else {
        1
    }
}

/// Pixel width of the tinted rim inside the outline of a wall tile.
pub fn wall_rim_thickness(size: u32) -> (r: u32)
    ensures
        ({
            let target = if size / 4 >= 1 {
                size / 4
            } else {
                1u32
            };
            let outline = if size / 16 >= 1 {
                size / 16
            } else {
                1u32
            };
            let rim = if target >= outline {
                (target - outline) as u32
            } else {
                0u32
            };
            r == if rim >= 1 {
                rim
            } else {
                1u32
            }
        }),
{
    let target_total = {
        let t = size / 4;
        if t >= 1 {
            t
        } else {
            1
        }
    };
    let outline = wall_outline_thickness(size);
    let rim = if target_total >= outline {
        target_total - outline
    } else {
        0
    };
    if rim >= 1 {
        rim
    } else {
        1
    }
}

} // verus!
