use droneforge_core::block::Block;
use droneforge_core::{is_placable_block, AIR, CORE, DIRT, STONE};

#[test]
fn constructs_block_with_provided_fields() {
    let block = Block::new(DIRT, "Dirt");

    assert_eq!(block.id, DIRT);
    assert_eq!(block.name, "Dirt");
}

#[test]
fn placable_block_flags_core_only() {
    assert!(is_placable_block(CORE));
    assert!(!is_placable_block(AIR));
    assert!(!is_placable_block(STONE));
}
