use droneforge_core::{
    ChunkPosition, DeterministicMap, LocalBlockCoord, WorldCoord, AIR, BEDROCK, DIRT, IRON, STONE,
};

fn map() -> DeterministicMap {
    DeterministicMap::new(42)
}

#[test]
fn enforces_bounds() {
    let generator = map();
    assert_eq!(generator.block_at(WorldCoord::new(2000, 0, 0)), AIR);
    assert_eq!(generator.block_at(WorldCoord::new(0, 2000, 0)), AIR);
    assert_eq!(generator.block_at(WorldCoord::new(0, 0, 200)), AIR);
}

#[test]
fn produces_bedrock_and_air_caps() {
    let generator = map();
    assert_eq!(generator.block_at(WorldCoord::new(0, 0, 64)), AIR);
    assert_eq!(generator.block_at(WorldCoord::new(0, 0, -66)), BEDROCK);
}

#[test]
fn places_left_side_layers() {
    let generator = map();
    assert_eq!(generator.block_at(WorldCoord::new(-3, 0, -1)), DIRT);
    assert_eq!(generator.block_at(WorldCoord::new(-3, 0, -6)), STONE);
    assert_eq!(generator.block_at(WorldCoord::new(-3, 0, -65)), STONE);
}

#[test]
fn places_right_side_ores_deterministically() {
    let generator = map();
    let mut iron_coord = None;

    for x in 1..100 {
        let candidate = WorldCoord::new(x, 0, -11);
        if generator.block_at(candidate) == IRON {
            iron_coord = Some(candidate);
            break;
        }
    }

    let iron_coord = iron_coord.expect("expected at least one iron vein along the right side");
    assert_eq!(generator.block_at(iron_coord), IRON);

    let different_seed = DeterministicMap::new(7);
    let diverges = (1..20).any(|x| {
        let coord = WorldCoord::new(x, 0, -11);
        generator.block_at(coord) != different_seed.block_at(coord)
    });

    assert!(diverges);
}

#[test]
fn stone_above_ground_follows_diagonal_rule() {
    let generator = map();
    // Above ground the diagonal rule keeps rock where x outruns z, air elsewhere.
    assert_eq!(generator.block_at(WorldCoord::new(4, 0, 1)), STONE);
    assert_eq!(generator.block_at(WorldCoord::new(1, 0, 2)), AIR);
    assert_eq!(generator.block_at(WorldCoord::new(-1, 0, 2)), AIR);
}

#[test]
fn chunk_generation_matches_block_at() {
    let generator = map();
    let position = ChunkPosition::new(0, 0, 0);
    let chunk = generator.chunk_for_position(position);

    let local = LocalBlockCoord::new(13, 0, 0);
    assert_eq!(
        chunk.get_block(local).unwrap(),
        generator.block_at(WorldCoord::new(13, 0, 0))
    );

    let local_ore = LocalBlockCoord::new(10, 0, 0);
    assert_eq!(
        chunk.get_block(local_ore).unwrap(),
        generator.block_at(WorldCoord::new(10, 0, 0))
    );
}

#[test]
fn deep_rule_yields_both_rock_and_ore() {
    let generator = map();
    let mut saw_stone = false;
    let mut saw_iron = false;
    for x in 1..200 {
        match generator.block_at(WorldCoord::new(x, 0, -11)) {
            b if b == STONE => saw_stone = true,
            b if b == IRON => saw_iron = true,
            _ => {}
        }
    }
    assert!(saw_stone);
    assert!(saw_iron);
}

#[test]
fn block_at_is_deterministic() {
    let generator = map();
    for x in -5..5 {
        for z in -70..5 {
            let c = WorldCoord::new(x, 3, z);
            assert_eq!(generator.block_at(c), generator.block_at(c));
        }
    }
}
