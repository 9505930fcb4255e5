use droneforge_core::{Chunk, ChunkError, ChunkPosition, LocalBlockCoord, CHUNK_DEPTH, CHUNK_WIDTH};

#[test]
fn block_index_respects_coordinate_order() {
    let coord = LocalBlockCoord::new(1, 2, 3);
    let index = Chunk::block_index(coord).unwrap();
    let expected = 1 + 2 * CHUNK_WIDTH + 3 * CHUNK_WIDTH * CHUNK_DEPTH;
    assert_eq!(index, expected);
}

#[test]
fn set_and_get_block() {
    let position = ChunkPosition::new(0, 0, 0);
    let mut chunk = Chunk::new(position, 0);
    let coord = LocalBlockCoord::new(0, 0, 0);
    chunk.set_block(coord, 5).unwrap();
    assert_eq!(chunk.get_block(coord).unwrap(), 5);
}

#[test]
fn block_save_round_trip() {
    let position = ChunkPosition::new(1, 2, 3);
    let mut chunk = Chunk::new(position, 0);
    let coord = LocalBlockCoord::new(3, 4, 1);
    chunk.set_block(coord, 42).unwrap();

    let save = chunk.to_block_save();
    let mut restored = Chunk::new(position, 0);
    restored.apply_block_save(&save).unwrap();

    assert_eq!(restored.get_block(coord).unwrap(), 42);
}

#[test]
fn rejects_invalid_block_count() {
    let position = ChunkPosition::new(0, 0, 0);
    let mut chunk = Chunk::new(position, 0);
    let mut data = chunk.to_block_save();
    data.blocks.pop();
    assert!(matches!(
        chunk.apply_block_save(&data),
        Err(ChunkError::InvalidBlockCount(_))
    ));
}

#[test]
fn out_of_bounds_local_coordinate_is_rejected() {
    let chunk = Chunk::new(ChunkPosition::new(0, 0, 0), 0);
    assert_eq!(
        chunk.get_block(LocalBlockCoord::new(CHUNK_WIDTH, 0, 0)),
        Err(ChunkError::OutOfBounds)
    );
    assert_eq!(Chunk::block_index(LocalBlockCoord::new(0, CHUNK_DEPTH, 0)), Err(ChunkError::OutOfBounds));
}
