use droneforge_core::layout::{
    atlas_pixel_size, floor_tile_index, floor_tile_position, solid_block_index, solid_block_count,
    tile_grid_size, tile_pixel_position, tile_position_for_index, total_tile_count,
    wall_tile_index, wall_tile_position, TilePosition,
};
use droneforge_core::{AIR, BEDROCK, DIRT, IRON, STONE};

#[test]
fn solid_blocks_index_in_fixed_order() {
    assert_eq!(solid_block_index(DIRT), Some(0));
    assert_eq!(solid_block_index(STONE), Some(1));
    assert_eq!(solid_block_index(IRON), Some(2));
    assert_eq!(solid_block_index(BEDROCK), Some(3));
    assert_eq!(solid_block_index(AIR), None);
    assert_eq!(solid_block_count(), 4);
}

#[test]
fn atlas_grid_covers_every_tile() {
    assert_eq!(total_tile_count(), 68);
    assert_eq!(tile_grid_size(), (8, 9));
    assert_eq!(atlas_pixel_size(), (128, 144));
}

#[test]
fn wall_tiles_follow_floor_tiles() {
    assert_eq!(floor_tile_index(STONE), Some(1));
    assert_eq!(wall_tile_index(STONE, 0), Some(20));
    assert_eq!(wall_tile_index(STONE, 15), Some(35));
    assert_eq!(wall_tile_index(STONE, 16), None);
    assert_eq!(wall_tile_index(AIR, 3), None);
}

#[test]
fn tile_positions_wrap_by_column() {
    assert_eq!(
        tile_position_for_index(0),
        TilePosition { tile_x: 0, tile_y: 0 }
    );
    assert_eq!(
        tile_position_for_index(11),
        TilePosition { tile_x: 3, tile_y: 1 }
    );
    assert_eq!(tile_pixel_position(11), (48, 16));
    assert_eq!(floor_tile_position(DIRT), Some(TilePosition { tile_x: 0, tile_y: 0 }));
    assert_eq!(
        wall_tile_position(DIRT, 1),
        Some(TilePosition { tile_x: 5, tile_y: 0 })
    );
}
