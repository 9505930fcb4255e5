//! Palette-compressed chunks and the chunk cache: a keyed store of compressed
//! chunks with world-coordinate reads and writes, on-demand generation, and
//! bulk population within spatial limits.

use vstd::prelude::*;

verus! {

use crate::{AIR, BlockId};
use crate::chunk::{
    CHUNK_BLOCKS,
    CHUNK_DEPTH,
    CHUNK_HEIGHT,
    CHUNK_WIDTH,
    Chunk,
    ChunkBlocks,
    ChunkError,
    local_in_bounds,
    local_index,
};
use crate::coordinates::{ChunkPosition, LocalBlockCoord, WorldCoord};
use crate::packing::{
    bits_for,
    bits_required,
    build_palette,
    lemma_bits_for_covers,
    lemma_bits_for_small,
    lemma_bits_for_tight,
    lemma_palette_of_len,
    pack_blocks,
    palette_of,
    unpack_index,
    unpack_spec,
};
use vstd::arithmetic::mul::lemma_mul_inequality;
use vstd::arithmetic::power2::pow2;
use vstd::bits::lemma_u64_shl_is_mul;

/// A palette-compressed chunk: the distinct block ids present, in first-seen
/// order, and one bit-packed palette index per voxel.
#[derive(Debug, Clone)]
pub struct CachedChunk {
    pub position: ChunkPosition,
    pub palette: Vec<BlockId>,
    pub blocks: Vec<u64>,
    pub bits_per_index: u8,
    pub changed: bool,
}

impl CachedChunk {
    /// The palette is non-empty and duplicate-free, the index width is the
    /// minimum for the palette size, and every stored index hits the palette.
    pub open spec fn wf(self) -> bool {
        &&& 1 <= self.palette@.len() <= CHUNK_BLOCKS
        &&& self.palette@.no_duplicates()
        &&& self.bits_per_index as nat == bits_for(self.palette@.len() as nat)
        &&& (self.bits_per_index == 0 ==> self.blocks@.len() == 0)
        &&& (self.bits_per_index > 0 ==> {
            &&& self.blocks@.len() == (CHUNK_BLOCKS * (self.bits_per_index as usize) + 63) / 64
            &&& CHUNK_BLOCKS * (self.bits_per_index as usize) <= self.blocks@.len() * 64
            &&& forall|i: int|
                0 <= i < CHUNK_BLOCKS ==> (#[trigger] unpack_spec(
                    self.blocks@,
                    i as nat,
                    self.bits_per_index as nat,
                ) as int) < self.palette@.len()
        })
    }

    /// The block id decoded for the voxel at dense index `i`.
    pub open spec fn decoded_at(self, i: int) -> BlockId {
        if self.bits_per_index == 0 {
            self.palette@[0]
        } else {
            self.palette@[unpack_spec(self.blocks@, i as nat, self.bits_per_index as nat) as int]
        }
    }

    /// The chunk's full decoded contents: what decompression yields.
    pub open spec fn block_seq(self) -> Seq<BlockId> {
        Seq::new(CHUNK_BLOCKS as nat, |i: int| self.decoded_at(i))
    }

    /// Compresses a chunk, marked unchanged since generation.
    pub fn from_chunk(chunk: &Chunk) -> (r: Self)
        requires
            chunk.wf(),
        ensures
            r.wf(),
            r.position == chunk.position,
            r.changed == false,
            r.block_seq() == chunk.blocks_seq(),
            r.palette@ == palette_of(chunk.blocks_seq()),
    {
        Self::from_chunk_with_changed(chunk, false)
    }

    /// Compresses a chunk. Decoding the result gives back exactly the
    /// chunk's dense contents: the format is lossless.
    pub fn from_chunk_with_changed(chunk: &Chunk, changed: bool) -> (r: Self)
        requires
            chunk.wf(),
        ensures
            r.wf(),
            r.position == chunk.position,
            r.changed == changed,
            r.block_seq() == chunk.blocks_seq(),
            r.palette@ == palette_of(chunk.blocks_seq()),
    {
        let (palette, palette_indices) = build_palette(chunk.blocks());
        let bits_per_index = bits_required(palette.len());
        proof {
            lemma_palette_of_len(chunk.blocks_seq());
            assert(chunk.blocks_seq().contains(chunk.blocks_seq()[0]));
            lemma_bits_for_small(palette@.len() as nat);
            lemma_bits_for_covers(palette@.len() as nat);
            if bits_per_index > 0 {
                vstd::arithmetic::power2::lemma2_to64();
                if bits_per_index < 16 {
                    vstd::arithmetic::power2::lemma_pow2_strictly_increases(
                        bits_per_index as nat,
                        16,
                    );
                }
                lemma_u64_shl_is_mul(1u64, bits_per_index as u64);
                assert((1u64 << (bits_per_index as u64)) == pow2(bits_per_index as nat));
                assert forall|j: int| 0 <= j < chunk.blocks_seq().len() implies #[trigger]
                    palette_indices@.contains_key(chunk.blocks_seq()[j])
                    && (palette_indices@[chunk.blocks_seq()[j]] as u64) < (1u64 << (
                bits_per_index as u64)) by {
                    let b = chunk.blocks_seq()[j];
                    assert(chunk.blocks_seq().contains(b));
                    assert(palette@.contains(b));
                    assert(palette_indices@.contains_key(b));
                    assert(palette_indices@[b] < palette@.len());
                    assert(palette@.len() <= pow2(bits_per_index as nat));
                }
            }
        }
        let blocks = pack_blocks(chunk.blocks(), &palette_indices, bits_per_index);
        let r = Self { position: chunk.position, palette, blocks, bits_per_index, changed };
        proof {
            if bits_per_index == 0 {
                if r.palette@.len() >= 2 {
                    lemma_bits_for_tight(r.palette@.len() as nat);
                }
                assert(r.palette@.len() == 1);
                assert forall|i: int| 0 <= i < CHUNK_BLOCKS implies r.decoded_at(i)
                    == chunk.blocks_seq()[i] by {
                    assert(chunk.blocks_seq().contains(chunk.blocks_seq()[i]));
                    assert(r.palette@.contains(chunk.blocks_seq()[i]));
                    let k = choose|k: int|
                        0 <= k < r.palette@.len() && r.palette@[k] == chunk.blocks_seq()[i];
                    assert(k == 0);
                }
            } else {
                assert forall|i: int| 0 <= i < CHUNK_BLOCKS implies r.decoded_at(i)
                    == chunk.blocks_seq()[i] && (#[trigger] unpack_spec(
                    r.blocks@,
                    i as nat,
                    r.bits_per_index as nat,
                ) as int) < r.palette@.len() by {
                    let b = chunk.blocks_seq()[i];
                    assert(chunk.blocks_seq().contains(b));
                    assert(palette_indices@.contains_key(b));
                    assert(palette_indices@[b] < r.palette@.len());
                    assert(r.palette@[palette_indices@[b] as int] == b);
                    assert(unpack_spec(r.blocks@, i as nat, r.bits_per_index as nat)
                        == palette_indices@[b] as u64);
                }
                assert(chunk.blocks_seq().len() == CHUNK_BLOCKS);
                assert(r.blocks@.len() == (CHUNK_BLOCKS * (r.bits_per_index as usize) + 63)
                    / 64);
                assert(CHUNK_BLOCKS * (r.bits_per_index as usize) <= r.blocks@.len() * 64);
            }
            assert(r.wf());
            assert(r.block_seq() =~= chunk.blocks_seq());
        }
        r
    }

    /// Decodes the voxel at one local coordinate, rejecting coordinates
    /// outside the chunk.
    pub fn get_block(&self, coord: LocalBlockCoord) -> (r: Result<BlockId, ChunkError>)
        requires
            self.wf(),
        ensures
            local_in_bounds(coord) ==> r == Ok::<BlockId, ChunkError>(
                self.block_seq()[local_index(coord)],
            ),
            !local_in_bounds(coord) ==> r == Err::<BlockId, ChunkError>(ChunkError::OutOfBounds),
    {
        if self.palette.is_empty() {
            return Err(ChunkError::InvalidBlockCount(0));
        }
        let index = match Chunk::block_index(coord) {
            Ok(index) => index,
            Err(e) => {
                return Err(e);
            },
        };
        if self.bits_per_index == 0 {
            return Ok(self.palette[0]);
        }
        proof {
            lemma_bits_for_small(self.palette@.len() as nat);
            lemma_mul_inequality(
                index as int + 1,
                CHUNK_BLOCKS as int,
                self.bits_per_index as int,
            );
            assert(CHUNK_BLOCKS * (self.bits_per_index as usize) == 4096 * (
            self.bits_per_index as int));
            vstd::arithmetic::div_mod::lemma_fundamental_div_mod(
                (CHUNK_BLOCKS * (self.bits_per_index as usize) + 63) as int,
                64,
            );
        }
        let palette_index = unpack_index(&self.blocks, index, self.bits_per_index);
        match self.palette.get(palette_index as usize) {
            Some(block) => Ok(*block),
            None => Err(ChunkError::InvalidBlockCount(palette_index as usize)),
        }
    }

    /// Whether the chunk was written to after generation.
    pub fn changed(&self) -> (r: bool)
        ensures
            r == self.changed,
    {
        self.changed
    }
}

} // verus!

verus! {

/// Floored division: rounds toward negative infinity, unlike Rust's `/`.
pub fn div_floor(a: i32, b: i32) -> (r: i32)
    requires
        b > 0,
    ensures
        r == a as int / b as int,
        b * r <= a < b * (r + 1),
{
    let r = if a >= 0 {
        a / b
    } else {
        let na: u32 = (-(a as i64)) as u32;
        let ub: u32 = b as u32;
        let q: u32 = (na + ub - 1) / ub;
        proof {
            vstd::arithmetic::div_mod::lemma_fundamental_div_mod((na + ub - 1) as int, ub as int);
            let qe = ((na + ub - 1) as int) / (ub as int);
            assert(q == qe);
            let rem = (ub * qe - na) as int;
            assert(0 <= rem < b);
            assert(b as int * (-qe) == -((ub as int) * qe)) by (nonlinear_arith)
                requires
                    b == ub,
            ;
            vstd::arithmetic::div_mod::lemma_fundamental_div_mod_converse(
                a as int,
                b as int,
                -qe,
                rem,
            );
            assert(qe <= na) by (nonlinear_arith)
                requires
                    ub >= 1 && ub * qe <= na + ub - 1,
            ;
        }
        (-(q as i64)) as i32
    };
    proof {
        vstd::arithmetic::div_mod::lemma_fundamental_div_mod(a as int, b as int);
        assert(b * (r + 1) == b * r + b) by (nonlinear_arith);
    }
    r
}

} // verus!

verus! {

use vstd::arithmetic::div_mod::{lemma_fundamental_div_mod, lemma_fundamental_div_mod_converse};

/// The chunk that owns a world coordinate: a floored division by the chunk
/// extent on each axis.
pub open spec fn chunk_pos_of(c: WorldCoord) -> ChunkPosition {
    ChunkPosition {
        x: ((c.x as int) / (CHUNK_WIDTH as int)) as i32,
        y: ((c.y as int) / (CHUNK_DEPTH as int)) as i32,
        z: ((c.z as int) / (CHUNK_HEIGHT as int)) as i32,
    }
}

/// The voxel's coordinate inside the chunk that owns it.
pub open spec fn local_of(c: WorldCoord) -> LocalBlockCoord {
    LocalBlockCoord {
        x: ((c.x as int) % (CHUNK_WIDTH as int)) as usize,
        y: ((c.y as int) % (CHUNK_DEPTH as int)) as usize,
        z: ((c.z as int) % (CHUNK_HEIGHT as int)) as usize,
    }
}

/// Splits a world coordinate into its chunk position and the voxel's local
/// coordinate inside that chunk, flooring toward negative infinity so that
/// negative coordinates decompose correctly.
pub fn chunk_and_local_for_world_coord(coord: WorldCoord) -> (r: (ChunkPosition, LocalBlockCoord))
    ensures
        r.0 == chunk_pos_of(coord),
        r.1 == local_of(coord),
        local_in_bounds(r.1),
        crate::worldgen::world_at(r.0, r.1) == coord,
{
    let chunk_x = div_floor(coord.x, CHUNK_WIDTH as i32);
    let chunk_y = div_floor(coord.y, CHUNK_DEPTH as i32);
    let chunk_z = div_floor(coord.z, CHUNK_HEIGHT as i32);

    let local_x = (coord.x - chunk_x * (CHUNK_WIDTH as i32)) as usize;
    let local_y = (coord.y - chunk_y * (CHUNK_DEPTH as i32)) as usize;
    let local_z = (coord.z - chunk_z * (CHUNK_HEIGHT as i32)) as usize;

    proof {
        lemma_fundamental_div_mod(coord.x as int, CHUNK_WIDTH as int);
        lemma_fundamental_div_mod(coord.y as int, CHUNK_DEPTH as int);
        lemma_fundamental_div_mod(coord.z as int, CHUNK_HEIGHT as int);
    }
    (ChunkPosition::new(chunk_x, chunk_y, chunk_z), LocalBlockCoord::new(local_x, local_y, local_z))
}

/// A chunk position folded into one map key: each axis, offset into the
/// non-negative range, becomes one base-2^32 digit.
pub open spec fn pos_key_spec(p: ChunkPosition) -> u128 {
    (((p.x + 0x8000_0000) as u128) * 0x1_0000_0000_0000_0000 + ((p.y + 0x8000_0000) as u128)
        * 0x1_0000_0000 + ((p.z + 0x8000_0000) as u128)) as u128
}

/// Distinct chunk positions fold into distinct keys.
pub proof fn lemma_pos_key_injective(p: ChunkPosition, q: ChunkPosition)
    requires
        pos_key_spec(p) == pos_key_spec(q),
    ensures
        p == q,
{
    let base: int = 0x1_0000_0000;
    let px = p.x + 0x8000_0000;
    let py = p.y + 0x8000_0000;
    let pz = p.z + 0x8000_0000;
    let qx = q.x + 0x8000_0000;
    let qy = q.y + 0x8000_0000;
    let qz = q.z + 0x8000_0000;
    let k = pos_key_spec(p) as int;
    assert(k == (px * base + py) * base + pz) by (nonlinear_arith)
        requires
            k == px * (base * base) + py * base + pz,
            base == 0x1_0000_0000,
    ;
    assert(0 <= px * base + py < base * base) by (nonlinear_arith)
        requires
            0 <= px < base && 0 <= py < base && base == 0x1_0000_0000,
    ;
    lemma_fundamental_div_mod_converse(k, base, px * base + py, pz);
    assert(k == (qx * base + qy) * base + qz) by (nonlinear_arith)
        requires
            k == qx * (base * base) + qy * base + qz,
            base == 0x1_0000_0000,
    ;
    assert(0 <= qx * base + qy < base * base) by (nonlinear_arith)
        requires
            0 <= qx < base && 0 <= qy < base && base == 0x1_0000_0000,
    ;
    lemma_fundamental_div_mod_converse(k, base, qx * base + qy, qz);
    assert(pz == qz && px * base + py == qx * base + qy);
    lemma_fundamental_div_mod_converse(px * base + py, base, px, py);
    lemma_fundamental_div_mod_converse(qx * base + qy, base, qx, qy);
}

/// Folds a chunk position into its map key.
pub(crate) fn pos_key(p: &ChunkPosition) -> (r: u128)
    ensures
        r == pos_key_spec(*p),
{
    let xb = ((p.x as i64) + 0x8000_0000) as u128;
    let yb = ((p.y as i64) + 0x8000_0000) as u128;
    let zb = ((p.z as i64) + 0x8000_0000) as u128;
    xb * 0x1_0000_0000_0000_0000 + yb * 0x1_0000_0000 + zb
}

} // verus!

verus! {

use std::collections::HashMap;

/// What a world-coordinate read returns over the cache's contents: `None`
/// while the owning chunk is absent, else the decoded voxel.
pub open spec fn spec_block_at(m: Map<ChunkPosition, CachedChunk>, c: WorldCoord) -> Option<
    BlockId,
> {
    if m.contains_key(chunk_pos_of(c)) {
        Some(m[chunk_pos_of(c)].block_seq()[local_index(local_of(c))])
    } else {
        None
    }
}

/// A keyed store of palette-compressed chunks: a chunk is either absent (not
/// yet generated) or present in full, and mutation rebuilds the compressed
/// form from scratch.
#[derive(Debug, Clone)]
pub struct ChunkCache {
    chunks: HashMap<u128, CachedChunk>,
    levels: Vec<i32>,
    reusable_chunk: Chunk,
    last_save_bits: Option<u64>,
}

impl ChunkCache {
    /// The cache's contents, keyed by chunk position.
    pub closed spec fn spec_chunks(self) -> Map<ChunkPosition, CachedChunk> {
        Map::new(
            |p: ChunkPosition| self.chunks@.contains_key(pos_key_spec(p)),
            |p: ChunkPosition| self.chunks@[pos_key_spec(p)],
        )
    }

    /// The stored save-time metric, as raw bits of a binary64 value.
    pub closed spec fn spec_last_save_bits(self) -> Option<u64> {
        self.last_save_bits
    }

    /// Every stored chunk is well-formed and keyed by its own position, and
    /// the level list holds exactly the chunk-z values present.
    pub closed spec fn wf(self) -> bool {
        &&& forall|p: ChunkPosition|
            self.spec_chunks().contains_key(p) ==> (#[trigger] self.spec_chunks()[p]).wf()
                && self.spec_chunks()[p].position == p
        &&& forall|z: i32| #[trigger]
            self.levels@.contains(z) <==> exists|p: ChunkPosition| #[trigger]
                self.spec_chunks().contains_key(p) && p.z == z
        &&& self.reusable_chunk.wf()
        &&& self.spec_chunks().dom().finite()
        &&& self.spec_chunks().dom().len() == self.chunks@.dom().len()
    }

    pub fn new() -> (r: Self)
        ensures
            r.wf(),
            r.spec_chunks() == Map::<ChunkPosition, CachedChunk>::empty(),
            r.spec_last_save_bits() is None,
    {
        Self::with_capacity(0)
    }

    pub fn with_capacity(capacity: usize) -> (r: Self)
        ensures
            r.wf(),
            r.spec_chunks() == Map::<ChunkPosition, CachedChunk>::empty(),
            r.spec_last_save_bits() is None,
    {
        let r = Self {
            chunks: HashMap::with_capacity(capacity),
            levels: Vec::new(),
            reusable_chunk: Chunk::new(ChunkPosition::new(0, 0, 0), AIR),
            last_save_bits: None,
        };
        proof {
            assert(r.spec_chunks() =~= Map::<ChunkPosition, CachedChunk>::empty());
            assert(r.spec_chunks().dom() =~= Set::<ChunkPosition>::empty());
        }
        r
    }

    /// Whether some chunk at this z level is in the level list.
    fn level_listed(&self, chunk_z: i32) -> (r: bool)
        ensures
            r == self.levels@.contains(chunk_z),
    {
        let mut i: usize = 0;
        while i < self.levels.len()
            invariant
                i <= self.levels@.len(),
                forall|j: int| 0 <= j < i ==> self.levels@[j] != chunk_z,
            decreases self.levels@.len() - i,
        {
            if self.levels[i] == chunk_z {
                return true;
            }
            i = i + 1;
        }
        false
    }

    /// Stores one compressed chunk under its own position, overwriting any
    /// chunk already there: the load half of the per-chunk save/load
    /// contract.
    pub fn insert_cached(&mut self, cached: CachedChunk)
        requires
            old(self).wf(),
            cached.wf(),
        ensures
            final(self).wf(),
            final(self).spec_chunks() == old(self).spec_chunks().insert(cached.position, cached),
            final(self).spec_last_save_bits() == old(self).spec_last_save_bits(),
    {
        let ghost old_view = self.spec_chunks();
        let ghost old_levels = self.levels@;
        let p = cached.position;
        let key = pos_key(&p);
        if !self.level_listed(p.z) {
            self.levels.push(p.z);
        }
        self.chunks.insert(key, cached);
        proof {
            assert forall|q: ChunkPosition| #[trigger]
                self.spec_chunks().contains_key(q) == old_view.insert(p, cached).contains_key(q)
                && (self.spec_chunks().contains_key(q) ==> self.spec_chunks()[q] == old_view.insert(
                p,
                cached,
            )[q]) by {
                if q != p {
                    if pos_key_spec(q) == pos_key_spec(p) {
                        lemma_pos_key_injective(q, p);
                    }
                }
            }
            assert(self.spec_chunks() =~= old_view.insert(p, cached));
            // the level list still mirrors the set of populated levels
            assert forall|z: i32| #[trigger]
                self.levels@.contains(z) <==> exists|q: ChunkPosition| #[trigger]
                    self.spec_chunks().contains_key(q) && q.z == z by {
                if self.levels@.contains(z) {
                    let j = choose|j: int| 0 <= j < self.levels@.len() && self.levels@[j] == z;
                    if j < old_levels.len() {
                        assert(old_levels[j] == z);
                        assert(old_levels.contains(z));
                        let q = choose|q: ChunkPosition| #[trigger]
                            old_view.contains_key(q) && q.z == z;
                        assert(self.spec_chunks().contains_key(q));
                    } else {
                        assert(z == p.z);
                        assert(self.spec_chunks().contains_key(p));
                    }
                }
                if exists|q: ChunkPosition| #[trigger] self.spec_chunks().contains_key(q) && q.z
                    == z {
                    let q = choose|q: ChunkPosition| #[trigger]
                        self.spec_chunks().contains_key(q) && q.z == z;
                    if q == p {
                        if old_levels.contains(z) {
                            let j = choose|j: int|
                                0 <= j < old_levels.len() && old_levels[j] == z;
                            assert(self.levels@[j] == z);
                        } else {
                            assert(self.levels@[self.levels@.len() - 1] == z);
                        }
                    } else {
                        assert(old_view.contains_key(q));
                        assert(old_levels.contains(z));
                        let j = choose|j: int| 0 <= j < old_levels.len() && old_levels[j] == z;
                        assert(self.levels@[j] == z);
                    }
                }
            }
            // the key spaces stay in one-to-one correspondence
            assert(self.spec_chunks().dom() =~= old_view.dom().insert(p));
            if old_view.contains_key(p) {
                assert(old_view.dom().insert(p) =~= old_view.dom());
            }
        }
    }

    /// How many chunks are populated.
    pub fn len(&self) -> (r: usize)
        requires
            self.wf(),
        ensures
            r == self.spec_chunks().dom().len(),
    {
        self.chunks.len()
    }

    /// Whether the chunk at `position` is populated.
    pub fn has_chunk(&self, position: &ChunkPosition) -> (r: bool)
        ensures
            r == self.spec_chunks().contains_key(*position),
    {
        let key = pos_key(position);
        self.chunks.contains_key(&key)
    }

    /// The compressed chunk at `position`, if populated.
    pub fn chunk(&self, position: &ChunkPosition) -> (r: Option<&CachedChunk>)
        ensures
            match r {
                Some(c) => self.spec_chunks().contains_key(*position) && *c
                    == self.spec_chunks()[*position],
                None => !self.spec_chunks().contains_key(*position),
            },
    {
        let key = pos_key(position);
        self.chunks.get(&key)
    }

    /// Whether any chunk at the given chunk-z level is populated.
    pub fn has_level(&self, chunk_z: i32) -> (r: bool)
        requires
            self.wf(),
        ensures
            r == exists|p: ChunkPosition| #[trigger] self.spec_chunks().contains_key(p) && p.z
                == chunk_z,
    {
        self.level_listed(chunk_z)
    }

    /// Reads one voxel by world coordinate: `None` while the owning chunk is
    /// not yet generated, distinct from "generated and empty".
    pub fn block_at_world(&self, coord: WorldCoord) -> (r: Option<BlockId>)
        requires
            self.wf(),
        ensures
            r == spec_block_at(self.spec_chunks(), coord),
    {
        let (chunk_pos, local) = chunk_and_local_for_world_coord(coord);
        match self.chunk(&chunk_pos) {
            Some(cached) => match cached.get_block(local) {
                Ok(block) => Some(block),
                Err(_) => None,
            },
            None => None,
        }
    }
}

} // verus!

verus! {

use crate::worldgen::{DeterministicMap, generated_blocks, position_in_range};

/// Decompresses a cached chunk back into its dense per-voxel contents.
pub fn chunkblocks_from_cached(cached: &CachedChunk) -> (r: Vec<BlockId>)
    requires
        cached.wf(),
    ensures
        r@ == cached.block_seq(),
{
    let mut blocks: Vec<BlockId> = Vec::new();
    let mut z: usize = 0;
    while z < CHUNK_HEIGHT
        invariant
            z <= CHUNK_HEIGHT,
            cached.wf(),
            blocks@.len() == z * (CHUNK_WIDTH * CHUNK_DEPTH),
            forall|i: int| 0 <= i < blocks@.len() ==> blocks@[i] == cached.block_seq()[i],
        decreases CHUNK_HEIGHT - z,
    {
        let mut y: usize = 0;
        while y < CHUNK_DEPTH
            invariant
                z < CHUNK_HEIGHT,
                y <= CHUNK_DEPTH,
                cached.wf(),
                blocks@.len() == z * (CHUNK_WIDTH * CHUNK_DEPTH) + y * CHUNK_WIDTH,
                forall|i: int| 0 <= i < blocks@.len() ==> blocks@[i] == cached.block_seq()[i],
            decreases CHUNK_DEPTH - y,
        {
            let mut x: usize = 0;
            while x < CHUNK_WIDTH
                invariant
                    z < CHUNK_HEIGHT,
                    y < CHUNK_DEPTH,
                    x <= CHUNK_WIDTH,
                    cached.wf(),
                    blocks@.len() == z * (CHUNK_WIDTH * CHUNK_DEPTH) + y * CHUNK_WIDTH + x,
                    forall|i: int| 0 <= i < blocks@.len() ==> blocks@[i] == cached.block_seq()[i],
                decreases CHUNK_WIDTH - x,
            {
                let coord = LocalBlockCoord::new(x, y, z);
                let block = match cached.get_block(coord) {
                    Ok(block) => block,
                    Err(_) => AIR,
                };
                proof {
                    assert(local_index(coord) == blocks@.len() as int);
                }
                blocks.push(block);
                x = x + 1;
            }
            y = y + 1;
        }
        z = z + 1;
    }
    proof {
        assert(blocks@ =~= cached.block_seq());
    }
    blocks
}

/// Rebuilds an editable dense chunk from a cached one.
pub fn chunk_from_cached(cached: &CachedChunk) -> (r: Result<Chunk, ChunkError>)
    requires
        cached.wf(),
    ensures
        match r {
            Ok(c) => c.wf() && c.position == cached.position && c.blocks_seq()
                == cached.block_seq(),
            Err(_) => false,
        },
{
    let mut chunk = Chunk::new(cached.position, AIR);
    let blocks = chunkblocks_from_cached(cached);
    let blocks_struct = ChunkBlocks { position: cached.position, blocks };
    match chunk.apply_block_save(&blocks_struct) {
        Ok(_) => Ok(chunk),
        Err(e) => Err(e),
    }
}

/// True of the raw bits of a binary64 value that is finite and not below
/// zero: the exponent field is not all ones, and the sign bit is clear or
/// the value is negative zero.
pub open spec fn finite_nonneg_bits(bits: u64) -> bool {
    &&& ((bits >> 52u64) & 0x7ff) != 0x7ff
    &&& ((bits >> 63u64) == 0 || bits == 0x8000_0000_0000_0000)
}

impl ChunkCache {
    /// Generates (or regenerates) the chunk at `position` into the reusable
    /// scratch buffer, compresses it, and stores it, overwriting any chunk
    /// already there.
    pub fn populate_chunk_at(&mut self, generator: &DeterministicMap, position: ChunkPosition)
        requires
            old(self).wf(),
            position_in_range(position),
        ensures
            final(self).wf(),
            final(self).spec_chunks().contains_key(position),
            final(self).spec_chunks() == old(self).spec_chunks().insert(
                position,
                final(self).spec_chunks()[position],
            ),
            final(self).spec_chunks()[position].block_seq() == generated_blocks(
                generator.seed,
                position,
            ),
            final(self).spec_chunks()[position].changed == false,
            final(self).spec_chunks()[position].position == position,
            final(self).spec_last_save_bits() == old(self).spec_last_save_bits(),
    {
        generator.populate_chunk(&mut self.reusable_chunk, position);
        proof {
            assert(self.spec_chunks() =~= old(self).spec_chunks());
            assert(self.wf());
        }
        let cached = CachedChunk::from_chunk(&self.reusable_chunk);
        self.insert_cached(cached);
    }

    /// Overwrites one voxel in an already-populated chunk by rehydrating it,
    /// editing, and recompressing; fails without touching anything when the
    /// owning chunk is absent. A successful write leaves every other voxel
    /// and every other chunk unchanged and marks the chunk changed.
    pub fn set_block(&mut self, coord: WorldCoord, block: BlockId) -> (r: Result<(), ChunkError>)
        requires
            old(self).wf(),
        ensures
            final(self).wf(),
            final(self).spec_last_save_bits() == old(self).spec_last_save_bits(),
            old(self).spec_chunks().contains_key(chunk_pos_of(coord)) ==> {
                &&& r == Ok::<(), ChunkError>(())
                &&& final(self).spec_chunks() == old(self).spec_chunks().insert(
                    chunk_pos_of(coord),
                    final(self).spec_chunks()[chunk_pos_of(coord)],
                )
                &&& final(self).spec_chunks()[chunk_pos_of(coord)].block_seq() == old(
                    self,
                ).spec_chunks()[chunk_pos_of(coord)].block_seq().update(
                    local_index(local_of(coord)),
                    block,
                )
                &&& final(self).spec_chunks()[chunk_pos_of(coord)].changed == true
                &&& final(self).spec_chunks()[chunk_pos_of(coord)].position == chunk_pos_of(coord)
            },
            !old(self).spec_chunks().contains_key(chunk_pos_of(coord)) ==> r == Err::<
                (),
                ChunkError,
            >(ChunkError::OutOfBounds) && *final(self) == *old(self),
    {
        let (chunk_pos, local) = chunk_and_local_for_world_coord(coord);
        let mut chunk = match self.chunk(&chunk_pos) {
            Some(existing) => match chunk_from_cached(existing) {
                Ok(chunk) => chunk,
                Err(e) => {
                    return Err(e);
                },
            },
            None => {
                return Err(ChunkError::OutOfBounds);
            },
        };
        match chunk.set_block(local, block) {
            Ok(_) => (),
            Err(e) => {
                return Err(e);
            },
        }
        let updated = CachedChunk::from_chunk_with_changed(&chunk, true);
        self.insert_cached(updated);
        Ok(())
    }

    /// The last recorded save time, as the raw bits of a binary64 value in
    /// milliseconds.
    pub fn last_save_bits(&self) -> (r: Option<u64>)
        ensures
            r == self.spec_last_save_bits(),
    {
        self.last_save_bits
    }

    /// Records a save time handed in as the raw bits of a binary64 value in
    /// milliseconds, silently ignoring anything not finite and non-negative.
    pub fn record_save_time_bits(&mut self, bits: u64)
        requires
            old(self).wf(),
        ensures
            final(self).wf(),
            final(self).spec_chunks() == old(self).spec_chunks(),
            finite_nonneg_bits(bits) ==> final(self).spec_last_save_bits() == Some(bits),
            !finite_nonneg_bits(bits) ==> final(self).spec_last_save_bits() == old(
                self,
            ).spec_last_save_bits(),
    {
        let exponent = (bits >> 52u64) & 0x7ff;
        let sign = bits >> 63u64;
        if exponent != 0x7ff && (sign == 0 || bits == 0x8000_0000_0000_0000) {
            self.last_save_bits = Some(bits);
            proof {
                assert(self.spec_chunks() =~= old(self).spec_chunks());
            }
        }
    }
}

} // verus!

verus! {

/// The lowest chunk coordinate whose chunk covers some world coordinate of
/// magnitude at most `limit`, on an axis of the given extent.
pub open spec fn chunk_range_min(limit: i32, extent: int) -> int {
    (-(limit as int)) / extent
}

/// The highest such chunk coordinate.
pub open spec fn chunk_range_max(limit: i32, extent: int) -> int {
    (limit as int) / extent
}

/// The consecutive integers of `lo..=hi`.
pub open spec fn int_range_seq(lo: int, hi: int) -> Seq<i32> {
    if hi < lo {
        Seq::empty()
    } else {
        Seq::new((hi - lo + 1) as nat, |i: int| (lo + i) as i32)
    }
}

/// Whether a chunk position lies inside the chunk-coordinate box covering
/// the given horizontal and vertical world limits.
pub open spec fn within_chunk_limits(p: ChunkPosition, h: i32, v: i32) -> bool {
    &&& chunk_range_min(h, CHUNK_WIDTH as int) <= p.x <= chunk_range_max(h, CHUNK_WIDTH as int)
    &&& chunk_range_min(h, CHUNK_DEPTH as int) <= p.y <= chunk_range_max(h, CHUNK_DEPTH as int)
    &&& chunk_range_min(v, CHUNK_HEIGHT as int) <= p.z <= chunk_range_max(v, CHUNK_HEIGHT as int)
}

/// The consecutive chunk coordinates of `lo..=hi` as a vector.
fn range_vec(lo: i32, hi: i32) -> (r: Vec<i32>)
    requires
        hi < i32::MAX,
    ensures
        r@ == int_range_seq(lo as int, hi as int),
{
    let mut v: Vec<i32> = Vec::new();
    if hi < lo {
        return v;
    }
    let mut c: i32 = lo;
    while c <= hi
        invariant
            lo <= c <= hi + 1,
            hi < i32::MAX,
            v@.len() == c - lo,
            forall|j: int| 0 <= j < v@.len() ==> v@[j] == lo + j,
        decreases hi + 1 - c,
    {
        v.push(c);
        c = c + 1;
    }
    proof {
        assert(v@ =~= int_range_seq(lo as int, hi as int));
    }
    v
}

impl ChunkCache {
    /// The chunk coordinates, axis by axis, whose chunks cover world
    /// coordinates within the given limits, floored consistently so that
    /// ranges around zero are symmetric.
    pub fn chunk_ranges_for_limits(horizontal_limit: i32, vertical_limit: i32) -> (r: (
        Vec<i32>,
        Vec<i32>,
        Vec<i32>,
    ))
        requires
            -0x1000 <= horizontal_limit <= 0x1000,
            -0x1000 <= vertical_limit <= 0x1000,
        ensures
            r.0@ == int_range_seq(
                chunk_range_min(horizontal_limit, CHUNK_WIDTH as int),
                chunk_range_max(horizontal_limit, CHUNK_WIDTH as int),
            ),
            r.1@ == int_range_seq(
                chunk_range_min(horizontal_limit, CHUNK_DEPTH as int),
                chunk_range_max(horizontal_limit, CHUNK_DEPTH as int),
            ),
            r.2@ == int_range_seq(
                chunk_range_min(vertical_limit, CHUNK_HEIGHT as int),
                chunk_range_max(vertical_limit, CHUNK_HEIGHT as int),
            ),
    {
        let min_x = div_floor(-horizontal_limit, CHUNK_WIDTH as i32);
        let max_x = div_floor(horizontal_limit, CHUNK_WIDTH as i32);
        let min_y = div_floor(-horizontal_limit, CHUNK_DEPTH as i32);
        let max_y = div_floor(horizontal_limit, CHUNK_DEPTH as i32);
        let min_z = div_floor(-vertical_limit, CHUNK_HEIGHT as i32);
        let max_z = div_floor(vertical_limit, CHUNK_HEIGHT as i32);
        (range_vec(min_x, max_x), range_vec(min_y, max_y), range_vec(min_z, max_z))
    }

    /// How many chunks those ranges span.
    pub fn chunk_count_for_limits(horizontal_limit: i32, vertical_limit: i32) -> (r: usize)
        requires
            -0x1000 <= horizontal_limit <= 0x1000,
            -0x1000 <= vertical_limit <= 0x1000,
        ensures
            r == int_range_seq(
                chunk_range_min(horizontal_limit, CHUNK_WIDTH as int),
                chunk_range_max(horizontal_limit, CHUNK_WIDTH as int),
            ).len() * int_range_seq(
                chunk_range_min(horizontal_limit, CHUNK_DEPTH as int),
                chunk_range_max(horizontal_limit, CHUNK_DEPTH as int),
            ).len() * int_range_seq(
                chunk_range_min(vertical_limit, CHUNK_HEIGHT as int),
                chunk_range_max(vertical_limit, CHUNK_HEIGHT as int),
            ).len(),
    {
        let (xs, ys, zs) = Self::chunk_ranges_for_limits(horizontal_limit, vertical_limit);
        proof {
            assert(xs@.len() <= 0x101 && ys@.len() <= 0x101 && zs@.len() <= 0x801);
            assert(xs@.len() * ys@.len() <= 0x101 * 0x101) by (nonlinear_arith)
                requires
                    xs@.len() <= 0x101 && ys@.len() <= 0x101,
            ;
            assert((xs@.len() * ys@.len()) * zs@.len() <= 0x10201 * 0x801) by (nonlinear_arith)
                requires
                    xs@.len() * ys@.len() <= 0x10201 && zs@.len() <= 0x801,
            ;
        }
        xs.len() * ys.len() * zs.len()
    }
}

} // verus!

verus! {

use crate::worldgen::{HORIZONTAL_LIMIT, VERTICAL_LIMIT};

/// A consumer of bulk-population progress reports; the cache calls it at a
/// bounded interval and once at completion.
pub trait ProgressSink {
    fn notify(&mut self, loaded: usize, total: usize);
}

/// A sink that discards progress reports.
pub struct NoProgress;

impl ProgressSink for NoProgress {
    fn notify(&mut self, _loaded: usize, _total: usize) {
    }
}

/// The chunk at `p` holds exactly what the generator with this seed
/// produces, unmodified.
pub open spec fn populated_from(
    m: Map<ChunkPosition, CachedChunk>,
    seed: u64,
    p: ChunkPosition,
) -> bool {
    &&& m.contains_key(p)
    &&& m[p].block_seq() == generated_blocks(seed, p)
    &&& m[p].changed == false
    &&& m[p].position == p
}

/// Chunks outside the limit box are untouched.
pub open spec fn preserved_outside(
    old_m: Map<ChunkPosition, CachedChunk>,
    new_m: Map<ChunkPosition, CachedChunk>,
    h: i32,
    v: i32,
) -> bool {
    forall|q: ChunkPosition|
        !within_chunk_limits(q, h, v) ==> ((#[trigger] new_m.contains_key(q))
            == old_m.contains_key(q)) && (old_m.contains_key(q) ==> new_m[q] == old_m[q])
}

impl ChunkCache {
    /// Populates every chunk whose world coordinates intersect the given
    /// limits, reporting progress at a bounded interval and once at the end.
    pub fn populate_within_limits_with_progress<P: ProgressSink>(
        &mut self,
        generator: &DeterministicMap,
        horizontal_limit: i32,
        vertical_limit: i32,
        progress: &mut P,
    )
        requires
            old(self).wf(),
            -0x1000 <= horizontal_limit <= 0x1000,
            -0x1000 <= vertical_limit <= 0x1000,
        ensures
            final(self).wf(),
            final(self).spec_last_save_bits() == old(self).spec_last_save_bits(),
            forall|p: ChunkPosition| #[trigger]
                within_chunk_limits(p, horizontal_limit, vertical_limit) ==> populated_from(
                    final(self).spec_chunks(),
                    generator.seed,
                    p,
                ),
            preserved_outside(
                old(self).spec_chunks(),
                final(self).spec_chunks(),
                horizontal_limit,
                vertical_limit,
            ),
    {
        let (chunk_xs, chunk_ys, chunk_zs) = Self::chunk_ranges_for_limits(
            horizontal_limit,
            vertical_limit,
        );
        let total_chunks = Self::chunk_count_for_limits(horizontal_limit, vertical_limit);
        let ghost h = horizontal_limit;
        let ghost v = vertical_limit;
        let ghost old_m = self.spec_chunks();
        let ghost seed = generator.seed;
        let ghost min_x = chunk_range_min(h, CHUNK_WIDTH as int);
        let ghost min_y = chunk_range_min(h, CHUNK_DEPTH as int);
        let ghost min_z = chunk_range_min(v, CHUNK_HEIGHT as int);
        proof {
            lemma_fundamental_div_mod(-(h as int), CHUNK_WIDTH as int);
            lemma_fundamental_div_mod(h as int, CHUNK_WIDTH as int);
            lemma_fundamental_div_mod(-(h as int), CHUNK_DEPTH as int);
            lemma_fundamental_div_mod(h as int, CHUNK_DEPTH as int);
            lemma_fundamental_div_mod(-(v as int), CHUNK_HEIGHT as int);
            lemma_fundamental_div_mod(v as int, CHUNK_HEIGHT as int);
        }
        let mut loaded: usize = 0;
        let mut last_notified: usize = 0;
        let mut xi: usize = 0;
        while xi < chunk_xs.len()
            invariant
                self.wf(),
                xi <= chunk_xs@.len(),
                -0x1000 <= h <= 0x1000,
                -0x1000 <= v <= 0x1000,
                seed == generator.seed,
                chunk_xs@ == int_range_seq(min_x, chunk_range_max(h, CHUNK_WIDTH as int)),
                chunk_ys@ == int_range_seq(min_y, chunk_range_max(h, CHUNK_DEPTH as int)),
                chunk_zs@ == int_range_seq(min_z, chunk_range_max(v, CHUNK_HEIGHT as int)),
                min_x == chunk_range_min(h, CHUNK_WIDTH as int),
                min_y == chunk_range_min(h, CHUNK_DEPTH as int),
                min_z == chunk_range_min(v, CHUNK_HEIGHT as int),
                -0x81 <= min_x && min_x + chunk_xs@.len() <= 0x81,
                -0x81 <= min_y && min_y + chunk_ys@.len() <= 0x81,
                -0x401 <= min_z && min_z + chunk_zs@.len() <= 0x401,
                self.spec_last_save_bits() == old(self).spec_last_save_bits(),
                forall|p: ChunkPosition| #[trigger]
                    within_chunk_limits(p, h, v) && p.x < min_x + xi ==> populated_from(
                        self.spec_chunks(),
                        seed,
                        p,
                    ),
                preserved_outside(old(self).spec_chunks(), self.spec_chunks(), h, v),
            decreases chunk_xs@.len() - xi,
        {
            let chunk_x = chunk_xs[xi];
            let mut yi: usize = 0;
            while yi < chunk_ys.len()
                invariant
                    self.wf(),
                    xi < chunk_xs@.len(),
                    yi <= chunk_ys@.len(),
                    -0x1000 <= h <= 0x1000,
                    -0x1000 <= v <= 0x1000,
                    seed == generator.seed,
                    chunk_xs@ == int_range_seq(min_x, chunk_range_max(h, CHUNK_WIDTH as int)),
                    chunk_ys@ == int_range_seq(min_y, chunk_range_max(h, CHUNK_DEPTH as int)),
                    chunk_zs@ == int_range_seq(min_z, chunk_range_max(v, CHUNK_HEIGHT as int)),
                    min_x == chunk_range_min(h, CHUNK_WIDTH as int),
                    min_y == chunk_range_min(h, CHUNK_DEPTH as int),
                    min_z == chunk_range_min(v, CHUNK_HEIGHT as int),
                    -0x81 <= min_x && min_x + chunk_xs@.len() <= 0x81,
                    -0x81 <= min_y && min_y + chunk_ys@.len() <= 0x81,
                    -0x401 <= min_z && min_z + chunk_zs@.len() <= 0x401,
                    chunk_x == min_x + xi,
                    self.spec_last_save_bits() == old(self).spec_last_save_bits(),
                    forall|p: ChunkPosition| #[trigger]
                        within_chunk_limits(p, h, v) && (p.x < min_x + xi || (p.x == chunk_x && p.y
                            < min_y + yi)) ==> populated_from(self.spec_chunks(), seed, p),
                    preserved_outside(old(self).spec_chunks(), self.spec_chunks(), h, v),
                decreases chunk_ys@.len() - yi,
            {
                let chunk_y = chunk_ys[yi];
                let mut zi: usize = 0;
                while zi < chunk_zs.len()
                    invariant
                        self.wf(),
                        xi < chunk_xs@.len(),
                        yi < chunk_ys@.len(),
                        zi <= chunk_zs@.len(),
                        -0x1000 <= h <= 0x1000,
                        -0x1000 <= v <= 0x1000,
                        seed == generator.seed,
                        chunk_xs@ == int_range_seq(min_x, chunk_range_max(h, CHUNK_WIDTH as int)),
                        chunk_ys@ == int_range_seq(min_y, chunk_range_max(h, CHUNK_DEPTH as int)),
                        chunk_zs@ == int_range_seq(min_z, chunk_range_max(v, CHUNK_HEIGHT as int)),
                        min_x == chunk_range_min(h, CHUNK_WIDTH as int),
                        min_y == chunk_range_min(h, CHUNK_DEPTH as int),
                        min_z == chunk_range_min(v, CHUNK_HEIGHT as int),
                        -0x81 <= min_x && min_x + chunk_xs@.len() <= 0x81,
                        -0x81 <= min_y && min_y + chunk_ys@.len() <= 0x81,
                        -0x401 <= min_z && min_z + chunk_zs@.len() <= 0x401,
                        chunk_x == min_x + xi,
                        chunk_y == min_y + yi,
                        self.spec_last_save_bits() == old(self).spec_last_save_bits(),
                        forall|p: ChunkPosition| #[trigger]
                            within_chunk_limits(p, h, v) && (p.x < min_x + xi || (p.x == chunk_x
                                && p.y < min_y + yi) || (p.x == chunk_x && p.y == chunk_y && p.z
                                < min_z + zi)) ==> populated_from(self.spec_chunks(), seed, p),
                        preserved_outside(old(self).spec_chunks(), self.spec_chunks(), h, v),
                    decreases chunk_zs@.len() - zi,
                {
                    let chunk_z = chunk_zs[zi];
                    let position = ChunkPosition::new(chunk_x, chunk_y, chunk_z);
                    let ghost before = self.spec_chunks();
                    self.populate_chunk_at(generator, position);
                    proof {
                        assert(populated_from(self.spec_chunks(), seed, position));
                        assert forall|p: ChunkPosition| #[trigger]
                            within_chunk_limits(p, h, v) && (p.x < min_x + xi || (p.x == chunk_x
                                && p.y < min_y + yi) || (p.x == chunk_x && p.y == chunk_y && p.z
                                < min_z + zi + 1)) implies populated_from(
                            self.spec_chunks(),
                            seed,
                            p,
                        ) by {
                            if p != position {
                                assert(populated_from(before, seed, p));
                                assert(self.spec_chunks()[p] == before[p]);
                            }
                        }
                    }
                    loaded = loaded.saturating_add(1);
                    if loaded % 1000 == 0 || loaded == total_chunks {
                        progress.notify(loaded, total_chunks);
                        last_notified = loaded;
                    }
                    zi = zi + 1;
                }
                yi = yi + 1;
            }
            xi = xi + 1;
        }
        if loaded > 0 && loaded != last_notified {
            progress.notify(loaded, total_chunks);
        }
        proof {
            assert forall|p: ChunkPosition| #[trigger]
                within_chunk_limits(p, h, v) implies populated_from(
                self.spec_chunks(),
                seed,
                p,
            ) by {
                assert(p.x < min_x + chunk_xs@.len());
            }
        }
    }

    /// Populates every chunk whose world coordinates intersect the given
    /// limits.
    pub fn populate_within_limits(
        &mut self,
        generator: &DeterministicMap,
        horizontal_limit: i32,
        vertical_limit: i32,
    )
        requires
            old(self).wf(),
            -0x1000 <= horizontal_limit <= 0x1000,
            -0x1000 <= vertical_limit <= 0x1000,
        ensures
            final(self).wf(),
            final(self).spec_last_save_bits() == old(self).spec_last_save_bits(),
            forall|p: ChunkPosition| #[trigger]
                within_chunk_limits(p, horizontal_limit, vertical_limit) ==> populated_from(
                    final(self).spec_chunks(),
                    generator.seed,
                    p,
                ),
            preserved_outside(
                old(self).spec_chunks(),
                final(self).spec_chunks(),
                horizontal_limit,
                vertical_limit,
            ),
    {
        let mut sink = NoProgress;
        self.populate_within_limits_with_progress(
            generator,
            horizontal_limit,
            vertical_limit,
            &mut sink,
        );
    }

    /// A cache pre-populated over the whole configured world.
    pub fn from_generator_with_limits(generator: &DeterministicMap) -> (r: Self)
        ensures
            r.wf(),
            forall|p: ChunkPosition| #[trigger]
                within_chunk_limits(p, HORIZONTAL_LIMIT, VERTICAL_LIMIT) ==> populated_from(
                    r.spec_chunks(),
                    generator.seed,
                    p,
                ),
    {
        let total_chunks = Self::chunk_count_for_limits(HORIZONTAL_LIMIT, VERTICAL_LIMIT);
        let mut cache = Self::with_capacity(total_chunks);
        cache.populate_within_limits(generator, HORIZONTAL_LIMIT, VERTICAL_LIMIT);
        cache
    }

    /// A cache pre-populated over the whole configured world, reporting
    /// progress as it goes.
    pub fn from_generator_with_limits_with_progress<P: ProgressSink>(
        generator: &DeterministicMap,
        progress: &mut P,
    ) -> (r: Self)
        ensures
            r.wf(),
            forall|p: ChunkPosition| #[trigger]
                within_chunk_limits(p, HORIZONTAL_LIMIT, VERTICAL_LIMIT) ==> populated_from(
                    r.spec_chunks(),
                    generator.seed,
                    p,
                ),
    {
        let total_chunks = Self::chunk_count_for_limits(HORIZONTAL_LIMIT, VERTICAL_LIMIT);
        let mut cache = Self::with_capacity(total_chunks);
        cache.populate_within_limits_with_progress(
            generator,
            HORIZONTAL_LIMIT,
            VERTICAL_LIMIT,
            progress,
        );
        cache
    }
}

} // verus!

verus! {

use crate::linecast::{first_solid_supercover, line_query};

impl ChunkCache {
    /// The first solid block strictly after `start` on the supercover line
    /// toward `end`, walking one z level over this cache's contents; `None`
    /// when the line is clear. With the cache unchanged, repeated calls
    /// return the same result.
    pub fn first_solid_on_line(&self, start: WorldCoord, end: WorldCoord) -> (r: Option<
        WorldCoord,
    >)
        requires
            self.wf(),
            start.z == end.z,
            -0x0100_0000 <= start.x <= 0x0100_0000,
            -0x0100_0000 <= start.y <= 0x0100_0000,
            -0x0100_0000 <= end.x <= 0x0100_0000,
            -0x0100_0000 <= end.y <= 0x0100_0000,
        ensures
            line_query(
                |c: WorldCoord| spec_block_at(self.spec_chunks(), c),
                start,
                end,
            ) == Some(r),
    {
        let query = |c: WorldCoord| -> (out: Option<BlockId>)
            ensures
                out == spec_block_at(self.spec_chunks(), c),
            { self.block_at_world(c) };
        first_solid_supercover(
            query,
            start,
            end,
            Ghost(|c: WorldCoord| spec_block_at(self.spec_chunks(), c)),
        )
    }
}

} // verus!

verus! {

use crate::worldgen::{block_at_spec, coord_of_index, world_at};

/// Cache consistency: once the chunk owning `w` holds exactly what the
/// generator produces, a world-coordinate read at `w` returns precisely the
/// generator's output for `w`.
pub proof fn lemma_cache_serves_generator(
    m: Map<ChunkPosition, CachedChunk>,
    seed: u64,
    w: WorldCoord,
)
    requires
        populated_from(m, seed, chunk_pos_of(w)),
    ensures
        spec_block_at(m, w) == Some(block_at_spec(seed, w)),
{
    let cp = chunk_pos_of(w);
    let l = local_of(w);
    let idx = local_index(l);
    lemma_fundamental_div_mod(w.x as int, CHUNK_WIDTH as int);
    lemma_fundamental_div_mod(w.y as int, CHUNK_DEPTH as int);
    lemma_fundamental_div_mod(w.z as int, CHUNK_HEIGHT as int);
    assert(world_at(cp, l) == w);
    lemma_fundamental_div_mod_converse(
        idx,
        CHUNK_WIDTH as int,
        l.y + l.z * CHUNK_DEPTH,
        l.x as int,
    );
    lemma_fundamental_div_mod_converse(
        (l.y + l.z * CHUNK_DEPTH) as int,
        CHUNK_DEPTH as int,
        l.z as int,
        l.y as int,
    );
    lemma_fundamental_div_mod_converse(
        idx,
        (CHUNK_WIDTH * CHUNK_DEPTH) as int,
        l.z as int,
        (l.y * CHUNK_WIDTH + l.x) as int,
    );
    assert(coord_of_index(idx) == l);
    assert(m[cp].block_seq()[idx] == block_at_spec(seed, w));
}

} // verus!

verus! {

impl Default for ChunkCache {
    /// An empty cache.
    fn default() -> (r: Self)
        ensures
            r.wf(),
            r.spec_chunks() == Map::<ChunkPosition, CachedChunk>::empty(),
            r.spec_last_save_bits() is None,
    {
        Self::new()
    }
}

} // verus!
