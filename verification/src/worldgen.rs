//! The deterministic procedural generator: a pure function from world seed
//! and world coordinate to a block id, bounded by fixed horizontal and
//! vertical limits.

use vstd::prelude::*;

verus! {

use core::hash::Hasher;
use std::collections::hash_map::DefaultHasher;
use vstd::std_specs::hash::DefaultHasherAdditionalSpecFns;
use crate::{AIR, BEDROCK, BlockId, DIRT, IRON, STONE};
use crate::chunk::{CHUNK_BLOCKS, CHUNK_DEPTH, CHUNK_HEIGHT, CHUNK_WIDTH, Chunk, local_index};
use crate::coordinates::{ChunkPosition, LocalBlockCoord, WorldCoord};

/// No block is generated with |x| or |y| above this limit.
pub const HORIZONTAL_LIMIT: i32 = 1024;
/// No block is generated with |z| above this limit.
pub const VERTICAL_LIMIT: i32 = 65;

/// What fastrand's WyRand generator, seeded with `seed`, draws below
/// `bound`: a pure function of its two arguments.
pub uninterp spec fn draw_of(seed: u64, bound: u32) -> u32;

/// Relies on fastrand::Rng: `Rng::with_seed(seed)` is a generator holding
/// exactly `seed`, and `u32(0..bound)` draws one value below `bound` from
/// it, determined by the generator state and the bound alone.
#[verifier::external_body]
fn draw_below(seed: u64, bound: u32) -> (r: u32)
    requires
        bound > 0,
    ensures
        r == draw_of(seed, bound),
        r < bound,
{
    fastrand::Rng::with_seed(seed).u32(0..bound)
}

/// The little-endian bytes of a 64-bit value.
pub open spec fn le_bytes_u64(v: u64) -> Seq<u8> {
    Seq::new(8, |i: int| (v >> ((8 * i) as u64)) as u8)
}

/// The little-endian bytes of a signed 32-bit value.
pub open spec fn le_bytes_i32(v: i32) -> Seq<u8> {
    Seq::new(4, |i: int| ((v as u32) >> ((8 * i) as u32)) as u8)
}

/// The byte writes that seed the per-coordinate generator: the world seed,
/// then each axis of the coordinate.
pub open spec fn coord_writes(seed: u64, c: WorldCoord) -> Seq<Seq<u8>> {
    seq![le_bytes_u64(seed), le_bytes_i32(c.x), le_bytes_i32(c.y), le_bytes_i32(c.z)]
}

/// The sub-generator seed for one coordinate: the world seed hashed together
/// with the coordinate.
pub open spec fn coord_seed_of(seed: u64, c: WorldCoord) -> u64 {
    DefaultHasher::spec_finish(coord_writes(seed, c))
}

fn push_le_bytes_u64(bytes: &mut Vec<u8>, v: u64)
    ensures
        final(bytes)@ == old(bytes)@ + le_bytes_u64(v),
{
    bytes.push(#[verifier::truncate] (v as u8));
    bytes.push(#[verifier::truncate] ((v >> 8u64) as u8));
    bytes.push(#[verifier::truncate] ((v >> 16u64) as u8));
    bytes.push(#[verifier::truncate] ((v >> 24u64) as u8));
    bytes.push(#[verifier::truncate] ((v >> 32u64) as u8));
    bytes.push(#[verifier::truncate] ((v >> 40u64) as u8));
    bytes.push(#[verifier::truncate] ((v >> 48u64) as u8));
    bytes.push(#[verifier::truncate] ((v >> 56u64) as u8));
    proof {
        assert((v >> 0u64) == v) by (bit_vector);
        assert(bytes@ =~= old(bytes)@ + le_bytes_u64(v));
    }
}

fn push_le_bytes_i32(bytes: &mut Vec<u8>, v: i32)
    ensures
        final(bytes)@ == old(bytes)@ + le_bytes_i32(v),
{
    let u = #[verifier::truncate] (v as u32);
    bytes.push(#[verifier::truncate] (u as u8));
    bytes.push(#[verifier::truncate] ((u >> 8u32) as u8));
    bytes.push(#[verifier::truncate] ((u >> 16u32) as u8));
    bytes.push(#[verifier::truncate] ((u >> 24u32) as u8));
    proof {
        assert((u >> 0u32) == u) by (bit_vector);
        assert(bytes@ =~= old(bytes)@ + le_bytes_i32(v));
    }
}

/// Hashes the world seed together with one coordinate, through std's
/// `DefaultHasher`, into the seed of that coordinate's sub-generator.
fn coord_seed(seed: u64, coord: WorldCoord) -> (r: u64)
    ensures
        r == coord_seed_of(seed, coord),
{
    let mut hasher = DefaultHasher::new();
    let mut seed_bytes: Vec<u8> = Vec::new();
    push_le_bytes_u64(&mut seed_bytes, seed);
    hasher.write(seed_bytes.as_slice());
    let mut x_bytes: Vec<u8> = Vec::new();
    push_le_bytes_i32(&mut x_bytes, coord.x);
    hasher.write(x_bytes.as_slice());
    let mut y_bytes: Vec<u8> = Vec::new();
    push_le_bytes_i32(&mut y_bytes, coord.y);
    hasher.write(y_bytes.as_slice());
    let mut z_bytes: Vec<u8> = Vec::new();
    push_le_bytes_i32(&mut z_bytes, coord.z);
    hasher.write(z_bytes.as_slice());
    proof {
        assert(hasher@ =~= coord_writes(seed, coord));
    }
    hasher.finish()
}

/// True when every axis of `c` lies within the configured limits.
pub open spec fn in_bounds(c: WorldCoord) -> bool {
    &&& -HORIZONTAL_LIMIT <= c.x <= HORIZONTAL_LIMIT
    &&& -HORIZONTAL_LIMIT <= c.y <= HORIZONTAL_LIMIT
    &&& -VERTICAL_LIMIT <= c.z <= VERTICAL_LIMIT
}

/// The generator works one level above the queried coordinate, saturating at
/// the top of the i32 range.
pub open spec fn shifted_up(c: WorldCoord) -> WorldCoord {
    let z = if c.z == i32::MAX {
        i32::MAX
    } else {
        (c.z + 1) as i32
    };
    WorldCoord { x: c.x, y: c.y, z }
}

/// Whether the deep rule yields ore at `c`: a one-in-twenty draw of the
/// coordinate's sub-generator.
pub open spec fn ore_at(seed: u64, c: WorldCoord) -> bool {
    draw_of(coord_seed_of(seed, c), 100) < 5
}

/// The block generated at `coord`: empty outside the configured limits, hard
/// caps at the vertical extremes, a dirt crust and a rock-or-ore depth rule
/// on the non-positive side of the x axis, and a diagonal rock-or-ore rule
/// on the positive side.
pub open spec fn block_at_spec(seed: u64, coord: WorldCoord) -> BlockId {
    let s = shifted_up(coord);
    if !in_bounds(s) {
        AIR
    } else if s.z == VERTICAL_LIMIT {
        AIR
    } else if s.z == -VERTICAL_LIMIT {
        BEDROCK
    } else if s.x <= 0 {
        if -4 <= s.z <= 0 {
            DIRT
        } else if -64 <= s.z <= -5 {
            if ore_at(seed, s) {
                IRON
            } else {
                STONE
            }
        } else {
            AIR
        }
    } else if (-64 <= s.z <= 0) || (s.x - s.z + 1 > 0 && s.z > 0) {
        if ore_at(seed, s) {
            IRON
        } else {
            STONE
        }
    } else {
        AIR
    }
}

/// A deterministic map: an immutable world seed, and nothing else.
#[derive(Debug, Clone)]
pub struct DeterministicMap {
    pub seed: u64,
}

impl DeterministicMap {
    pub fn new(seed: u64) -> (r: Self)
        ensures
            r.seed == seed,
    {
        Self { seed }
    }

    fn within_bounds(&self, coord: WorldCoord) -> (r: bool)
        ensures
            r == in_bounds(coord),
    {
        -HORIZONTAL_LIMIT <= coord.x && coord.x <= HORIZONTAL_LIMIT && -HORIZONTAL_LIMIT <= coord.y
            && coord.y <= HORIZONTAL_LIMIT && -VERTICAL_LIMIT <= coord.z && coord.z
            <= VERTICAL_LIMIT
    }

    /// The block at one world coordinate: a pure function of the seed and
    /// the coordinate, empty everywhere outside the configured limits.
    pub fn block_at(&self, coord: WorldCoord) -> (r: BlockId)
        ensures
            r == block_at_spec(self.seed, coord),
            !in_bounds(shifted_up(coord)) ==> r == AIR,
    {
        let shifted_z = if coord.z == i32::MAX {
            i32::MAX
        } else {
            coord.z + 1
        };
        let shifted = WorldCoord::new(coord.x, coord.y, shifted_z);

        if !self.within_bounds(shifted) {
            return AIR;
        }
        if shifted.z == VERTICAL_LIMIT {
            return AIR;
        }
        if shifted.z == -VERTICAL_LIMIT {
            return BEDROCK;
        }
        if shifted.x <= 0 {
            if -4 <= shifted.z && shifted.z <= 0 {
                return DIRT;
            }
            if -64 <= shifted.z && shifted.z <= -5 {
                if self.ore_roll(shifted) {
                    return IRON;
                }
                return STONE;
            }
            return AIR;
        }
        if (-64 <= shifted.z && shifted.z <= 0) || (shifted.x - shifted.z + 1 > 0 && shifted.z
            > 0) {
            if self.ore_roll(shifted) {
                return IRON;
            }
            return STONE;
        }
        AIR
    }

    /// Draws the deep rule's one-in-twenty ore chance for one coordinate.
    fn ore_roll(&self, coord: WorldCoord) -> (r: bool)
        ensures
            r == ore_at(self.seed, coord),
    {
        let sub_seed = coord_seed(self.seed, coord);
        draw_below(sub_seed, 100) < 5
    }
}

} // verus!

verus! {

use vstd::arithmetic::div_mod::lemma_fundamental_div_mod_converse;

/// The local coordinate whose dense index is `i`.
pub open spec fn coord_of_index(i: int) -> LocalBlockCoord {
    LocalBlockCoord {
        x: (i % (CHUNK_WIDTH as int)) as usize,
        y: ((i / (CHUNK_WIDTH as int)) % (CHUNK_DEPTH as int)) as usize,
        z: (i / ((CHUNK_WIDTH * CHUNK_DEPTH) as int)) as usize,
    }
}

/// The world coordinate of one voxel of the chunk at `position`.
pub open spec fn world_at(position: ChunkPosition, local: LocalBlockCoord) -> WorldCoord {
    WorldCoord {
        x: (position.x * CHUNK_WIDTH + local.x) as i32,
        y: (position.y * CHUNK_DEPTH + local.y) as i32,
        z: (position.z * CHUNK_HEIGHT + local.z) as i32,
    }
}

/// The dense block array that the generator produces for one whole chunk:
/// voxel by voxel, exactly what `block_at` returns.
pub open spec fn generated_blocks(seed: u64, position: ChunkPosition) -> Seq<BlockId> {
    Seq::new(CHUNK_BLOCKS as nat, |i: int| block_at_spec(seed, world_at(position, coord_of_index(i))))
}

/// Chunk positions whose world coordinates stay clear of i32 overflow.
pub open spec fn position_in_range(position: ChunkPosition) -> bool {
    &&& -0x0100_0000 <= position.x <= 0x0100_0000
    &&& -0x0100_0000 <= position.y <= 0x0100_0000
    &&& -0x0100_0000 <= position.z <= 0x0100_0000
}

impl DeterministicMap {
    /// Fills `chunk` with the generated contents of the chunk at `position`:
    /// one `block_at` result per voxel, in a fixed iteration order.
    pub fn populate_chunk(&self, chunk: &mut Chunk, position: ChunkPosition)
        requires
            old(chunk).wf(),
            position_in_range(position),
        ensures
            final(chunk).wf(),
            final(chunk).position == position,
            final(chunk).blocks_seq() == generated_blocks(self.seed, position),
    {
        chunk.position = position;
        let base_x = position.x * (CHUNK_WIDTH as i32);
        let base_y = position.y * (CHUNK_DEPTH as i32);
        let base_z = position.z * (CHUNK_HEIGHT as i32);

        let ghost gen = generated_blocks(self.seed, position);
        let mut z: usize = 0;
        while z < CHUNK_HEIGHT
            invariant
                self.seed == self.seed,
                z <= CHUNK_HEIGHT,
                chunk.wf(),
                chunk.position == position,
                position_in_range(position),
                base_x == position.x * CHUNK_WIDTH,
                base_y == position.y * CHUNK_DEPTH,
                base_z == position.z * CHUNK_HEIGHT,
                gen == generated_blocks(self.seed, position),
                forall|i: int|
                    0 <= i < z * (CHUNK_WIDTH * CHUNK_DEPTH) ==> chunk.blocks_seq()[i] == gen[i],
            decreases CHUNK_HEIGHT - z,
        {
            let mut y: usize = 0;
            while y < CHUNK_DEPTH
                invariant
                    z < CHUNK_HEIGHT,
                    y <= CHUNK_DEPTH,
                    chunk.wf(),
                    chunk.position == position,
                    position_in_range(position),
                    base_x == position.x * CHUNK_WIDTH,
                    base_y == position.y * CHUNK_DEPTH,
                    base_z == position.z * CHUNK_HEIGHT,
                    gen == generated_blocks(self.seed, position),
                    forall|i: int|
                        0 <= i < z * (CHUNK_WIDTH * CHUNK_DEPTH) + y * CHUNK_WIDTH
                            ==> chunk.blocks_seq()[i] == gen[i],
                decreases CHUNK_DEPTH - y,
            {
                let mut x: usize = 0;
                while x < CHUNK_WIDTH
                    invariant
                        z < CHUNK_HEIGHT,
                        y < CHUNK_DEPTH,
                        x <= CHUNK_WIDTH,
                        chunk.wf(),
                        chunk.position == position,
                        position_in_range(position),
                        base_x == position.x * CHUNK_WIDTH,
                        base_y == position.y * CHUNK_DEPTH,
                        base_z == position.z * CHUNK_HEIGHT,
                        gen == generated_blocks(self.seed, position),
                        forall|i: int|
                            0 <= i < z * (CHUNK_WIDTH * CHUNK_DEPTH) + y * CHUNK_WIDTH + x
                                ==> chunk.blocks_seq()[i] == gen[i],
                    decreases CHUNK_WIDTH - x,
                {
                    let world_coord = WorldCoord::new(
                        base_x + (x as i32),
                        base_y + (y as i32),
                        base_z + (z as i32),
                    );
                    let block = self.block_at(world_coord);
                    let local = LocalBlockCoord::new(x, y, z);
                    let ghost idx = local_index(local);
                    proof {
                        assert(idx == z * (CHUNK_WIDTH * CHUNK_DEPTH) + y * CHUNK_WIDTH + x);
                        lemma_fundamental_div_mod_converse(
                            idx,
                            CHUNK_WIDTH as int,
                            (y + z * CHUNK_DEPTH) as int,
                            x as int,
                        );
                        lemma_fundamental_div_mod_converse(
                            (y + z * CHUNK_DEPTH) as int,
                            CHUNK_DEPTH as int,
                            z as int,
                            y as int,
                        );
                        lemma_fundamental_div_mod_converse(
                            idx,
                            (CHUNK_WIDTH * CHUNK_DEPTH) as int,
                            z as int,
                            (y * CHUNK_WIDTH + x) as int,
                        );
                        assert(coord_of_index(idx) == local);
                        assert(world_at(position, local) == world_coord);
                        assert(gen[idx] == block);
                    }
                    let result = chunk.set_block(local, block);
                    proof {
                        assert(result is Ok);
                    }
                    x = x + 1;
                }
                y = y + 1;
            }
            z = z + 1;
        }
        proof {
            assert(chunk.blocks_seq() =~= gen);
        }
    }

    /// A freshly generated chunk at `position`.
    pub fn chunk_for_position(&self, position: ChunkPosition) -> (r: Chunk)
        requires
            position_in_range(position),
        ensures
            r.wf(),
            r.position == position,
            r.blocks_seq() == generated_blocks(self.seed, position),
    {
        let mut chunk = Chunk::new(position, AIR);
        self.populate_chunk(&mut chunk, position);
        chunk
    }
}

} // verus!
