use droneforge_core::inventory::empty_inventory;
use droneforge_core::{
    ChunkCache, ChunkPosition, DeterministicMap, InventorySlot, PlacementErrorReason,
    ToolController, WorldCoord, AIR, STONE,
};

fn cache_with_air_at(target: WorldCoord) -> ChunkCache {
    let mut cache = ChunkCache::with_capacity(1);
    let generator = DeterministicMap::new(7);
    let chunk_pos = ChunkPosition::new(0, 0, 0);
    cache.populate_chunk_at(&generator, chunk_pos);
    // Ensure the target is empty regardless of generator output.
    let _ = cache.set_block(target, AIR);
    cache
}

#[test]
fn places_block_when_selection_valid() {
    let target = WorldCoord::new(0, 0, 0);
    let drone_tile = WorldCoord::new(1, 0, 0);
    let mut cache = cache_with_air_at(target);

    let mut slots = empty_inventory();
    slots[0] = InventorySlot {
        block: Some(STONE),
        count: 2,
    };

    let mut controller = ToolController::new();
    controller.select_from_inventory(&slots, 0);

    let outcome = controller
        .place_selected_block(&mut slots, &mut cache, drone_tile, target)
        .expect("placement should succeed");

    assert_eq!(cache.block_at_world(target), Some(STONE));
    assert_eq!(outcome.remaining_in_slot, 1);
    assert!(!outcome.selection_cleared);
    assert_eq!(controller.selection().unwrap().remaining, 1);
}

#[test]
fn rejects_when_tile_blocked() {
    let target = WorldCoord::new(0, 0, 0);
    let drone_tile = WorldCoord::new(1, 0, 0);
    let mut cache = cache_with_air_at(target);
    // Block the tile.
    cache.set_block(target, STONE).unwrap();

    let mut slots = empty_inventory();
    slots[0] = InventorySlot {
        block: Some(STONE),
        count: 1,
    };

    let mut controller = ToolController::new();
    controller.select_from_inventory(&slots, 0);

    let err = controller
        .place_selected_block(&mut slots, &mut cache, drone_tile, target)
        .unwrap_err();
    assert_eq!(err.reason, PlacementErrorReason::TargetBlocked);
}

#[test]
fn clears_selection_when_slot_empties() {
    let target = WorldCoord::new(2, 0, 0);
    let drone_tile = WorldCoord::new(1, 0, 0);
    let mut cache = cache_with_air_at(target);

    let mut slots = empty_inventory();
    slots[0] = InventorySlot {
        block: Some(STONE),
        count: 1,
    };

    let mut controller = ToolController::new();
    controller.select_from_inventory(&slots, 0);

    let outcome = controller
        .place_selected_block(&mut slots, &mut cache, drone_tile, target)
        .expect("placement should succeed");

    assert!(outcome.selection_cleared);
    assert!(controller.selection().is_none());
    assert_eq!(slots[0].count, 0);
    assert!(slots[0].block.is_none());
}

#[test]
fn rejects_each_invalid_target() {
    let target = WorldCoord::new(0, 0, 0);
    let mut cache = cache_with_air_at(target);
    let mut slots = empty_inventory();
    slots[0] = InventorySlot {
        block: Some(STONE),
        count: 5,
    };
    let mut controller = ToolController::new();

    // no selection yet
    let err = controller
        .place_selected_block(&mut slots, &mut cache, WorldCoord::new(1, 0, 0), target)
        .unwrap_err();
    assert_eq!(err.reason, PlacementErrorReason::NoSelection);
    assert_eq!(err.message(), "select a block to place");

    controller.select_from_inventory(&slots, 0);

    let err = controller
        .place_selected_block(&mut slots, &mut cache, WorldCoord::new(1, 0, 1), target)
        .unwrap_err();
    assert_eq!(err.reason, PlacementErrorReason::DifferentLevel);

    let err = controller
        .place_selected_block(&mut slots, &mut cache, target, target)
        .unwrap_err();
    assert_eq!(err.reason, PlacementErrorReason::SameTile);

    let err = controller
        .place_selected_block(&mut slots, &mut cache, WorldCoord::new(3, 0, 0), target)
        .unwrap_err();
    assert_eq!(err.reason, PlacementErrorReason::TooFar);

    let far_target = WorldCoord::new(100, 100, 0);
    let err = controller
        .place_selected_block(&mut slots, &mut cache, WorldCoord::new(101, 100, 0), far_target)
        .unwrap_err();
    assert_eq!(err.reason, PlacementErrorReason::TargetUnloaded);
}

#[test]
fn reports_slot_changes_behind_the_selection() {
    let target = WorldCoord::new(0, 0, 0);
    let drone_tile = WorldCoord::new(1, 0, 0);

    // the selected slot was emptied behind the tool's back
    let mut cache = cache_with_air_at(target);
    let mut slots = empty_inventory();
    slots[0] = InventorySlot {
        block: Some(STONE),
        count: 1,
    };
    let mut controller = ToolController::new();
    controller.select_from_inventory(&slots, 0);
    slots[0] = InventorySlot {
        block: None,
        count: 0,
    };
    let err = controller
        .place_selected_block(&mut slots, &mut cache, drone_tile, target)
        .unwrap_err();
    assert_eq!(err.reason, PlacementErrorReason::SlotEmpty);

    // the selected slot now holds a different block
    let mut cache = cache_with_air_at(target);
    let mut slots = empty_inventory();
    slots[0] = InventorySlot {
        block: Some(STONE),
        count: 1,
    };
    let mut controller = ToolController::new();
    controller.select_from_inventory(&slots, 0);
    slots[0] = InventorySlot {
        block: Some(7),
        count: 1,
    };
    let err = controller
        .place_selected_block(&mut slots, &mut cache, drone_tile, target)
        .unwrap_err();
    assert_eq!(err.reason, PlacementErrorReason::SlotMismatch);
    assert!(controller.selection().is_none());
}
