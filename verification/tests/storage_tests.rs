use droneforge_core::storage::{default_block_count, expected_block_count};
use droneforge_core::{StorageError, CHUNK_DEPTH, CHUNK_HEIGHT, CHUNK_WIDTH};

#[test]
fn storage_error_wraps_message() {
    let error = StorageError::new("failed to load");
    assert_eq!(error.0, "failed to load");
}

#[test]
fn expected_block_count_multiplies_dimensions() {
    assert_eq!(expected_block_count(2, 3, 4), 24);
    assert_eq!(expected_block_count(1, 1, 1), 1);
}

#[test]
fn default_block_count_matches_chunk_constants() {
    let expected = CHUNK_WIDTH * CHUNK_DEPTH * CHUNK_HEIGHT;
    assert_eq!(default_block_count(), expected);
}
