use droneforge_core::scheduler::ChunkScheduler;
use droneforge_core::{ChunkCache, ChunkPosition, DeterministicMap, WorldCoord};

fn small_scheduler() -> ChunkScheduler {
    ChunkScheduler::new(vec![0, 1], vec![0], vec![-1, 0, 1])
}

#[test]
fn prime_queues_every_missing_chunk_once() {
    let cache = ChunkCache::new();
    let mut scheduler = small_scheduler();
    scheduler.prime(&cache);

    let mut drained_cache = ChunkCache::new();
    let generator = DeterministicMap::new(1);
    let processed = scheduler.process(&mut drained_cache, &generator);

    // two x values, one y value, three z levels
    assert_eq!(processed, 6);
    for &x in &[0, 1] {
        for &z in &[-1, 0, 1] {
            assert!(drained_cache.has_chunk(&ChunkPosition::new(x, 0, z)));
        }
    }
}

#[test]
fn cached_chunks_are_not_queued() {
    let generator = DeterministicMap::new(1);
    let mut cache = ChunkCache::new();
    cache.populate_chunk_at(&generator, ChunkPosition::new(0, 0, 0));
    let before = cache.len();

    let mut scheduler = small_scheduler();
    scheduler.prime(&cache);
    let processed = scheduler.process(&mut cache, &generator);

    assert_eq!(processed, 5);
    assert_eq!(cache.len(), before + 5);
}

#[test]
fn reprioritizing_skips_exactly_one_drain() {
    let generator = DeterministicMap::new(1);
    let mut cache = ChunkCache::new();
    let mut scheduler = small_scheduler();
    scheduler.reprioritize_for_view(&cache, 0);

    let skipped = scheduler.process(&mut cache, &generator);
    assert_eq!(skipped, 0);
    assert_eq!(cache.len(), 0);

    let processed = scheduler.process(&mut cache, &generator);
    assert_eq!(processed, 6);
    assert_eq!(cache.len(), 6);
}

#[test]
fn drained_chunks_match_the_generator() {
    let generator = DeterministicMap::new(9);
    let mut cache = ChunkCache::new();
    let mut scheduler = ChunkScheduler::new(vec![0], vec![0], vec![0]);
    scheduler.prime(&cache);
    scheduler.process(&mut cache, &generator);

    let coord = WorldCoord::new(3, 2, 1);
    assert_eq!(cache.block_at_world(coord), Some(generator.block_at(coord)));
}

#[test]
fn drains_in_bounded_batches() {
    // a 17 x 17 plane holds more chunks than one batch may generate
    let xs: Vec<i32> = (0..17).collect();
    let ys: Vec<i32> = (0..17).collect();
    let generator = DeterministicMap::new(2);
    let mut cache = ChunkCache::new();
    let mut scheduler = ChunkScheduler::new(xs, ys, vec![0]);
    scheduler.prime(&cache);

    let first = scheduler.process(&mut cache, &generator);
    assert_eq!(first, 256);
    assert_eq!(cache.len(), 256);

    let second = scheduler.process(&mut cache, &generator);
    assert_eq!(second, 17 * 17 - 256);
    assert_eq!(cache.len(), 17 * 17);
}
