use std::collections::HashMap;

use droneforge_core::chunk_cache::{chunk_and_local_for_world_coord, CachedChunk, ChunkCache};
use droneforge_core::ChunkBlocks;
use droneforge_core::packing::{build_palette, bits_required, pack_blocks, unpack_index};
use droneforge_core::{
    BlockId, Chunk, ChunkPosition, DeterministicMap, LocalBlockCoord, WorldCoord, AIR, BEDROCK,
    CHUNK_DEPTH, CHUNK_HEIGHT, CHUNK_WIDTH, DIRT, IRON, STONE,
};

fn coord_for_index(index: usize) -> LocalBlockCoord {
    let z = index / (CHUNK_WIDTH * CHUNK_DEPTH);
    let remainder = index % (CHUNK_WIDTH * CHUNK_DEPTH);
    let y = remainder / CHUNK_WIDTH;
    let x = remainder % CHUNK_WIDTH;
    LocalBlockCoord::new(x, y, z)
}

fn cache_with_solid_blocks(coords: &[WorldCoord]) -> ChunkCache {
    let mut chunks: HashMap<ChunkPosition, Chunk> = HashMap::new();

    for &coord in coords {
        let (chunk_pos, local) = chunk_and_local_for_world_coord(coord);
        let chunk = chunks
            .entry(chunk_pos)
            .or_insert_with(|| Chunk::new(chunk_pos, AIR));
        chunk.set_block(local, STONE).unwrap();
    }

    let mut cache = ChunkCache::new();
    for (_pos, chunk) in chunks {
        let cached = CachedChunk::from_chunk(&chunk);
        cache.insert_cached(cached);
    }

    cache
}

#[test]
fn single_palette_uses_no_storage() {
    let position = ChunkPosition::new(0, 0, 0);
    let chunk = Chunk::new(position, AIR);
    let cached = CachedChunk::from_chunk(&chunk);

    assert_eq!(cached.palette, vec![AIR]);
    assert!(cached.blocks.is_empty());
    assert_eq!(
        cached
            .get_block(LocalBlockCoord::new(0, 0, 0))
            .expect("block should exist"),
        AIR
    );
}

#[test]
fn retrieves_blocks_across_word_boundaries() {
    let position = ChunkPosition::new(1, 0, 0);
    let mut chunk = Chunk::new(position, AIR);

    let palette_values: [BlockId; 5] = [AIR, DIRT, STONE, IRON, BEDROCK];
    for (i, &block) in palette_values.iter().enumerate() {
        let coord = coord_for_index(i);
        chunk.set_block(coord, block).unwrap();
    }

    let boundary_index = 22;
    let boundary_coord = coord_for_index(boundary_index);
    chunk.set_block(boundary_coord, BEDROCK).unwrap();

    let cached = CachedChunk::from_chunk(&chunk);
    assert!(cached.palette.len() >= palette_values.len());

    for (i, &block) in palette_values.iter().enumerate() {
        let coord = coord_for_index(i);
        assert_eq!(cached.get_block(coord).unwrap(), block);
    }
    assert_eq!(cached.get_block(boundary_coord).unwrap(), BEDROCK);
}

#[test]
fn cache_serves_world_coordinates() {
    let generator = DeterministicMap::new(7);
    let mut cache = ChunkCache::new();
    cache.populate_within_limits(&generator, CHUNK_WIDTH as i32, CHUNK_HEIGHT as i32);

    let coord = WorldCoord::new(0, 0, 0);
    let expected = generator.block_at(coord);
    assert_eq!(cache.block_at_world(coord), Some(expected));
}

#[test]
fn set_block_updates_changed_chunks_and_time() {
    let generator = DeterministicMap::new(3);
    let mut cache = ChunkCache::new();
    cache.populate_within_limits(&generator, CHUNK_WIDTH as i32, CHUNK_HEIGHT as i32);

    let coord = WorldCoord::new(0, 0, 0);
    let original = cache.block_at_world(coord).expect("block should exist");

    cache.set_block(coord, AIR).unwrap();
    assert_eq!(cache.block_at_world(coord), Some(AIR));
    cache.record_save_time_bits(1.5f64.to_bits());
    assert_eq!(cache.last_save_bits(), Some(1.5f64.to_bits()));
    assert!(cache
        .chunk(&ChunkPosition::new(0, 0, 0))
        .map(|c| c.changed())
        .unwrap_or(false));

    cache.set_block(coord, original).unwrap();
    assert_eq!(cache.block_at_world(coord), Some(original));
    cache.record_save_time_bits(0.0f64.to_bits());
    assert_eq!(cache.last_save_bits(), Some(0.0f64.to_bits()));
    assert!(cache
        .chunk(&ChunkPosition::new(0, 0, 0))
        .map(|c| c.changed())
        .unwrap_or(false));
}

#[test]
fn rejected_save_times_leave_the_metric_alone() {
    let generator = DeterministicMap::new(3);
    let mut cache = ChunkCache::new();
    cache.populate_chunk_at(&generator, ChunkPosition::new(0, 0, 0));

    cache.record_save_time_bits(f64::NAN.to_bits());
    assert_eq!(cache.last_save_bits(), None);
    cache.record_save_time_bits((-1.0f64).to_bits());
    assert_eq!(cache.last_save_bits(), None);
    cache.record_save_time_bits(f64::INFINITY.to_bits());
    assert_eq!(cache.last_save_bits(), None);
    cache.record_save_time_bits(2.25f64.to_bits());
    assert_eq!(cache.last_save_bits(), Some(2.25f64.to_bits()));
    cache.record_save_time_bits((-3.0f64).to_bits());
    assert_eq!(cache.last_save_bits(), Some(2.25f64.to_bits()));
}

#[test]
fn palette_builds_unique_ids_in_order() {
    let blocks = vec![AIR, DIRT, AIR, STONE, DIRT];
    let (palette, indices) = build_palette(&blocks);

    assert_eq!(palette, vec![AIR, DIRT, STONE]);
    assert_eq!(indices[&AIR], 0);
    assert_eq!(indices[&DIRT], 1);
    assert_eq!(indices[&STONE], 2);
}

#[test]
fn bits_required_matches_palette_size() {
    assert_eq!(bits_required(0), 0);
    assert_eq!(bits_required(1), 0);
    assert_eq!(bits_required(2), 1);
    assert_eq!(bits_required(3), 2);
    assert_eq!(bits_required(4), 2);
}

#[test]
fn pack_and_unpack_restore_palette_indices() {
    let blocks: Vec<BlockId> = vec![AIR, DIRT, STONE, IRON, STONE, DIRT, AIR, IRON];
    let (palette, indices) = build_palette(&blocks);
    let bits_per_index = bits_required(palette.len());
    let packed = pack_blocks(&blocks, &indices, bits_per_index);

    for (i, original) in blocks.iter().enumerate() {
        let palette_index = unpack_index(&packed, i, bits_per_index);
        let restored = palette[palette_index as usize];
        assert_eq!(restored, *original);
    }
}

#[test]
fn chunk_and_local_calculations_cover_negative_world_coords() {
    let world = WorldCoord::new(-1, -1, -1);
    let (chunk_pos, local) = chunk_and_local_for_world_coord(world);

    assert_eq!(chunk_pos, ChunkPosition::new(-1, -1, -1));
    assert_eq!(
        local,
        LocalBlockCoord::new(CHUNK_WIDTH - 1, CHUNK_DEPTH - 1, CHUNK_HEIGHT - 1)
    );
}

#[test]
fn chunk_count_matches_ranges() {
    let horizontal_limit = CHUNK_WIDTH as i32; // three chunk positions per horizontal axis
    let vertical_limit = CHUNK_HEIGHT as i32; // three chunk positions vertically

    let (xs, ys, zs) = ChunkCache::chunk_ranges_for_limits(horizontal_limit, vertical_limit);
    let expected = xs.len() * ys.len() * zs.len();

    assert_eq!(
        ChunkCache::chunk_count_for_limits(horizontal_limit, vertical_limit),
        expected
    );
}

#[test]
fn detects_collision_along_straight_line() {
    let cache = cache_with_solid_blocks(&[WorldCoord::new(2, 0, 0)]);

    let start = WorldCoord::new(0, 0, 0);
    let end = WorldCoord::new(4, 0, 0);

    assert_eq!(
        cache.first_solid_on_line(start, end),
        Some(WorldCoord::new(2, 0, 0))
    );
}

#[test]
fn detects_diagonal_neighbour_collision_when_error_zero() {
    let cache = cache_with_solid_blocks(&[WorldCoord::new(1, 0, 0)]);

    let start = WorldCoord::new(0, 0, 0);
    let end = WorldCoord::new(2, 2, 0);

    assert_eq!(
        cache.first_solid_on_line(start, end),
        Some(WorldCoord::new(1, 0, 0))
    );
}

#[test]
fn clear_path_returns_none() {
    let cache = cache_with_solid_blocks(&[]);

    let start = WorldCoord::new(-1, -1, 0);
    let end = WorldCoord::new(3, 2, 0);

    assert_eq!(cache.first_solid_on_line(start, end), None);
}

#[test]
fn compression_round_trips_every_palette_width() {
    // one, two, and a non-power-of-two number of distinct ids, the last
    // forcing indices to straddle 64-bit word boundaries
    let palettes: [&[BlockId]; 3] = [&[7], &[0, 9], &[0, 1, 2, 3, 4]];
    for (case, ids) in palettes.iter().enumerate() {
        let position = ChunkPosition::new(case as i32, 0, 0);
        let mut chunk = Chunk::new(position, ids[0]);
        for z in 0..CHUNK_HEIGHT {
            for y in 0..CHUNK_DEPTH {
                for x in 0..CHUNK_WIDTH {
                    let idx = x + y * CHUNK_WIDTH + z * CHUNK_WIDTH * CHUNK_DEPTH;
                    let block = ids[(idx * 7 + z) % ids.len()];
                    chunk.set_block(LocalBlockCoord::new(x, y, z), block).unwrap();
                }
            }
        }
        let cached = CachedChunk::from_chunk(&chunk);
        for z in 0..CHUNK_HEIGHT {
            for y in 0..CHUNK_DEPTH {
                for x in 0..CHUNK_WIDTH {
                    let coord = LocalBlockCoord::new(x, y, z);
                    assert_eq!(cached.get_block(coord), chunk.get_block(coord));
                }
            }
        }
    }
}

#[test]
fn set_block_on_unloaded_chunk_fails() {
    let mut cache = ChunkCache::new();
    let result = cache.set_block(WorldCoord::new(5, 5, 0), STONE);
    assert_eq!(result, Err(droneforge_core::ChunkError::OutOfBounds));
    assert_eq!(cache.block_at_world(WorldCoord::new(5, 5, 0)), None);
}

#[test]
fn set_block_changes_only_the_target_voxel() {
    let generator = DeterministicMap::new(11);
    let mut cache = ChunkCache::new();
    let position = ChunkPosition::new(0, 0, 0);
    cache.populate_chunk_at(&generator, position);

    let mut before = Vec::new();
    for x in 0..CHUNK_WIDTH as i32 {
        before.push(cache.block_at_world(WorldCoord::new(x, 3, 1)));
    }
    let target = WorldCoord::new(4, 3, 1);
    cache.set_block(target, BEDROCK).unwrap();
    for x in 0..CHUNK_WIDTH as i32 {
        let now = cache.block_at_world(WorldCoord::new(x, 3, 1));
        if x == 4 {
            assert_eq!(now, Some(BEDROCK));
        } else {
            assert_eq!(now, before[x as usize]);
        }
    }
    assert!(cache.chunk(&position).unwrap().changed());
}

#[test]
fn populate_tracks_levels_and_len() {
    let generator = DeterministicMap::new(5);
    let mut cache = ChunkCache::new();
    assert_eq!(cache.len(), 0);
    assert!(!cache.has_level(0));

    cache.populate_chunk_at(&generator, ChunkPosition::new(0, 0, 0));
    assert_eq!(cache.len(), 1);
    assert!(cache.has_level(0));
    assert!(!cache.has_level(1));
    assert!(cache.has_chunk(&ChunkPosition::new(0, 0, 0)));

    // regenerating the same chunk does not grow the cache
    cache.populate_chunk_at(&generator, ChunkPosition::new(0, 0, 0));
    assert_eq!(cache.len(), 1);
}

#[test]
fn populated_chunk_serves_every_generator_voxel() {
    let generator = DeterministicMap::new(42);
    let mut cache = ChunkCache::new();
    let position = ChunkPosition::new(0, 0, 0);
    cache.populate_chunk_at(&generator, position);

    for z in 0..CHUNK_HEIGHT as i32 {
        for y in 0..CHUNK_DEPTH as i32 {
            for x in 0..CHUNK_WIDTH as i32 {
                let coord = WorldCoord::new(x, y, z);
                assert_eq!(
                    cache.block_at_world(coord),
                    Some(generator.block_at(coord))
                );
            }
        }
    }
}

#[test]
fn chunk_blocks_validates_length() {
    let position = ChunkPosition::new(0, 0, 0);
    let blocks = vec![0u16; CHUNK_WIDTH * CHUNK_DEPTH * CHUNK_HEIGHT];
    assert!(ChunkBlocks::new(position, blocks).is_ok());
    let short = vec![0u16; 3];
    assert_eq!(
        ChunkBlocks::new(position, short).unwrap_err(),
        droneforge_core::ChunkError::InvalidBlockCount(3)
    );
}

struct RecordingSink {
    calls: Vec<(usize, usize)>,
}

impl droneforge_core::chunk_cache::ProgressSink for RecordingSink {
    fn notify(&mut self, loaded: usize, total: usize) {
        self.calls.push((loaded, total));
    }
}

#[test]
fn bulk_population_reports_completion_once() {
    let generator = DeterministicMap::new(7);
    let mut cache = ChunkCache::new();
    let mut sink = RecordingSink { calls: Vec::new() };
    cache.populate_within_limits_with_progress(
        &generator,
        CHUNK_WIDTH as i32,
        CHUNK_HEIGHT as i32,
    &mut sink,
    );

    let total = ChunkCache::chunk_count_for_limits(CHUNK_WIDTH as i32, CHUNK_HEIGHT as i32);
    assert_eq!(sink.calls, vec![(total, total)]);
    assert_eq!(cache.len(), total);
}
