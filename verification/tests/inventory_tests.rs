use droneforge_core::inventory::{
    add_block_to_slots, empty_inventory, inventory_unit_count, remove_block_from_slot, slot_block,
};
use droneforge_core::{InventorySlot, INVENTORY_SLOTS, MAX_INVENTORY_UNITS};

#[test]
fn slot_block_reports_present_item() {
    let mut slots = empty_inventory();
    slots[2] = InventorySlot {
        block: Some(7),
        count: 3,
    };

    assert_eq!(slot_block(&slots, 2), Some((7, 3)));
    assert_eq!(slot_block(&slots, 1), None);
}

#[test]
fn remove_block_from_slot_decrements_and_clears() {
    let mut slots = empty_inventory();
    slots[1] = InventorySlot {
        block: Some(5),
        count: 2,
    };

    assert_eq!(remove_block_from_slot(&mut slots, 1), Some(5));
    assert_eq!(slot_block(&slots, 1), Some((5, 1)));

    assert_eq!(remove_block_from_slot(&mut slots, 1), Some(5));
    assert_eq!(slot_block(&slots, 1), None);
    assert!(slots[1].block.is_none());
    assert_eq!(slots[1].count, 0);
}

#[test]
fn add_block_stacks_and_fills_new_slot() {
    let mut slots = empty_inventory();
    assert!(add_block_to_slots(&mut slots, 2));
    assert!(add_block_to_slots(&mut slots, 2));
    assert!(add_block_to_slots(&mut slots, 3));

    let stone_slot = slots.iter().find(|slot| slot.block == Some(2)).unwrap();
    assert_eq!(stone_slot.count, 2);
    let iron_slot = slots.iter().find(|slot| slot.block == Some(3)).unwrap();
    assert_eq!(iron_slot.count, 1);
    assert_eq!(inventory_unit_count(&slots), 3);
}

#[test]
fn add_block_respects_slot_and_unit_capacity() {
    let mut slots = empty_inventory();
    for i in 0..INVENTORY_SLOTS {
        let block = (i as u16) + 10;
        assert!(add_block_to_slots(&mut slots, block));
    }
    assert!(!add_block_to_slots(&mut slots, 999));

    let mut full = empty_inventory();
    for _ in 0..MAX_INVENTORY_UNITS {
        assert!(add_block_to_slots(&mut full, 2));
    }
    assert!(!add_block_to_slots(&mut full, 2));
    assert_eq!(inventory_unit_count(&full), MAX_INVENTORY_UNITS);
}
