//! The streaming population scheduler: a priority-ordered work queue of
//! not-yet-generated chunk positions, deduplicated by a membership set,
//! drained in fixed-size batches and rebuilt from scratch whenever the focus
//! level changes.

use vstd::prelude::*;

verus! {

use std::collections::HashSet;
use std::collections::VecDeque;
use crate::chunk::CHUNK_HEIGHT;
use crate::chunk_cache::{ChunkCache, div_floor, pos_key, pos_key_spec, lemma_pos_key_injective};
use crate::coordinates::ChunkPosition;
use crate::worldgen::{DeterministicMap, position_in_range};
use crate::chunk_cache::populated_from;

/// The level the view starts on.
pub const DEFAULT_VIEW_Z: i32 = 0;
/// How many levels around the focus are preloaded with priority.
pub const PRELOAD_Z_RADIUS: i32 = 5;
/// How many chunks one drain call may generate.
pub const CHUNKS_PER_FRAME: usize = 256;

/// The scheduler's queue of chunk positions awaiting generation, with a
/// membership set for constant-time deduplication, the world's chunk
/// coordinate ranges, and the one-shot flag that holds off the drain right
/// after a rebuild.
pub struct ChunkScheduler {
    queue: VecDeque<ChunkPosition>,
    queued: HashSet<u128>,
    world_chunk_xs: Vec<i32>,
    world_chunk_ys: Vec<i32>,
    world_chunk_zs: Vec<i32>,
    skip_next: bool,
}

impl ChunkScheduler {
    /// The queued positions, front (next to generate) first.
    pub closed spec fn spec_queue(self) -> Seq<ChunkPosition> {
        self.queue@
    }

    /// Whether the next drain call is skipped.
    pub closed spec fn spec_skip_next(self) -> bool {
        self.skip_next
    }

    /// The world's chunk coordinates along each axis.
    pub closed spec fn spec_world_xs(self) -> Seq<i32> {
        self.world_chunk_xs@
    }

    pub closed spec fn spec_world_ys(self) -> Seq<i32> {
        self.world_chunk_ys@
    }

    pub closed spec fn spec_world_zs(self) -> Seq<i32> {
        self.world_chunk_zs@
    }

    /// Whether a chunk position lies in the world's chunk-coordinate box.
    pub open spec fn in_world_box(self, p: ChunkPosition) -> bool {
        &&& self.spec_world_xs().contains(p.x)
        &&& self.spec_world_ys().contains(p.y)
        &&& self.spec_world_zs().contains(p.z)
    }

    /// The queue never holds a position twice, the membership set mirrors it
    /// exactly, and every queued or listed coordinate is in machine range.
    pub closed spec fn wf(self) -> bool {
        &&& forall|i: int|
            0 <= i < self.queue@.len() ==> self.queued@.contains(
                pos_key_spec(#[trigger] self.queue@[i]),
            )
        &&& forall|k: u128| #[trigger]
            self.queued@.contains(k) ==> exists|i: int|
                0 <= i < self.queue@.len() && pos_key_spec(#[trigger] self.queue@[i]) == k
        &&& forall|i: int, j: int|
            0 <= i < self.queue@.len() && 0 <= j < self.queue@.len() && i != j ==> self.queue@[i]
                != self.queue@[j]
        &&& forall|i: int|
            0 <= i < self.queue@.len() ==> position_in_range(#[trigger] self.queue@[i])
        &&& forall|i: int|
            0 <= i < self.world_chunk_xs@.len() ==> -0x0100_0000 <= #[trigger] self.world_chunk_xs@[i]
                <= 0x0100_0000
        &&& forall|i: int|
            0 <= i < self.world_chunk_ys@.len() ==> -0x0100_0000 <= #[trigger] self.world_chunk_ys@[i]
                <= 0x0100_0000
        &&& forall|i: int|
            0 <= i < self.world_chunk_zs@.len() ==> -0x0100_0000 <= #[trigger] self.world_chunk_zs@[i]
                <= 0x0100_0000
    }

    /// An idle scheduler over the given world chunk ranges.
    pub fn new(
        world_chunk_xs: Vec<i32>,
        world_chunk_ys: Vec<i32>,
        world_chunk_zs: Vec<i32>,
    ) -> (r: Self)
        requires
            forall|i: int|
                0 <= i < world_chunk_xs@.len() ==> -0x0100_0000 <= #[trigger] world_chunk_xs@[i]
                    <= 0x0100_0000,
            forall|i: int|
                0 <= i < world_chunk_ys@.len() ==> -0x0100_0000 <= #[trigger] world_chunk_ys@[i]
                    <= 0x0100_0000,
            forall|i: int|
                0 <= i < world_chunk_zs@.len() ==> -0x0100_0000 <= #[trigger] world_chunk_zs@[i]
                    <= 0x0100_0000,
        ensures
            r.wf(),
            r.spec_queue().len() == 0,
            !r.spec_skip_next(),
            forall|p: ChunkPosition| #[trigger]
                r.in_world_box(p) <==> world_chunk_xs@.contains(p.x) && world_chunk_ys@.contains(
                    p.y,
                ) && world_chunk_zs@.contains(p.z),
    {
        Self {
            queue: VecDeque::new(),
            queued: HashSet::new(),
            world_chunk_xs,
            world_chunk_ys,
            world_chunk_zs,
            skip_next: false,
        }
    }

    /// Enqueues one position unless it is already generated or already
    /// queued; queued order is preserved.
    pub fn queue_position(&mut self, cache: &ChunkCache, position: ChunkPosition)
        requires
            old(self).wf(),
            position_in_range(position),
        ensures
            final(self).wf(),
            final(self).spec_skip_next() == old(self).spec_skip_next(),
            final(self).spec_world_xs() == old(self).spec_world_xs(),
            final(self).spec_world_ys() == old(self).spec_world_ys(),
            final(self).spec_world_zs() == old(self).spec_world_zs(),
            cache.spec_chunks().contains_key(position) || old(self).spec_queue().contains(position)
                ==> final(self).spec_queue() == old(self).spec_queue(),
            !cache.spec_chunks().contains_key(position) && !old(self).spec_queue().contains(
                position,
            ) ==> final(self).spec_queue() == old(self).spec_queue().push(position),
    {
        if cache.has_chunk(&position) {
            return ;
        }
        let key = pos_key(&position);
        proof {
            if self.queued@.contains(pos_key_spec(position)) {
                let i = choose|i: int|
                    0 <= i < self.queue@.len() && pos_key_spec(#[trigger] self.queue@[i])
                        == pos_key_spec(position);
                lemma_pos_key_injective(self.queue@[i], position);
                assert(self.spec_queue().contains(position));
            }
            if self.spec_queue().contains(position) {
                let i = choose|i: int|
                    0 <= i < self.queue@.len() && self.queue@[i] == position;
                assert(self.queued@.contains(pos_key_spec(self.queue@[i])));
            }
        }
        if self.queued.contains(&key) {
            return ;
        }
        self.queued.insert(key);
        self.queue.push_back(position);
        proof {
            assert forall|i: int| 0 <= i < self.queue@.len() implies self.queued@.contains(
                pos_key_spec(#[trigger] self.queue@[i]),
            ) by {
                if i < self.queue@.len() - 1 {
                    assert(old(self).queued@.contains(pos_key_spec(old(self).queue@[i])));
                }
            }
            assert forall|k: u128| #[trigger] self.queued@.contains(k) implies exists|i: int|
                0 <= i < self.queue@.len() && pos_key_spec(#[trigger] self.queue@[i]) == k by {
                if k == pos_key_spec(position) {
                    assert(pos_key_spec(self.queue@[self.queue@.len() - 1]) == k);
                } else {
                    assert(old(self).queued@.contains(k));
                    let i = choose|i: int|
                        0 <= i < old(self).queue@.len() && pos_key_spec(
                            #[trigger] old(self).queue@[i],
                        ) == k;
                    assert(pos_key_spec(self.queue@[i]) == k);
                }
            }
            assert(forall|i: int|
                0 <= i < self.queue@.len() - 1 ==> #[trigger] self.queue@[i] != position);
        }
    }

    /// Enqueues every not-yet-generated chunk of one horizontal plane.
    pub fn queue_full_chunk_plane(&mut self, cache: &ChunkCache, chunk_z: i32)
        requires
            old(self).wf(),
            -0x0100_0000 <= chunk_z <= 0x0100_0000,
        ensures
            final(self).wf(),
            final(self).spec_skip_next() == old(self).spec_skip_next(),
            final(self).spec_world_xs() == old(self).spec_world_xs(),
            final(self).spec_world_ys() == old(self).spec_world_ys(),
            final(self).spec_world_zs() == old(self).spec_world_zs(),
            old(self).spec_queue().len() <= final(self).spec_queue().len(),
            final(self).spec_queue().take(old(self).spec_queue().len() as int) == old(
                self,
            ).spec_queue(),
            forall|p: ChunkPosition|
                old(self).in_world_box(p) && p.z == chunk_z && !cache.spec_chunks().contains_key(p)
                    ==> #[trigger] final(self).spec_queue().contains(p),
    {
        let ghost old_q = self.spec_queue();
        let mut yi: usize = 0;
        while yi < self.world_chunk_ys.len()
            invariant
                self.wf(),
                cache == cache,
                yi <= self.world_chunk_ys@.len(),
                -0x0100_0000 <= chunk_z <= 0x0100_0000,
                self.spec_skip_next() == old(self).spec_skip_next(),
                self.spec_world_xs() == old(self).spec_world_xs(),
                self.spec_world_ys() == old(self).spec_world_ys(),
                self.spec_world_zs() == old(self).spec_world_zs(),
                old_q.len() <= self.spec_queue().len(),
                self.spec_queue().take(old_q.len() as int) == old_q,
                forall|p: ChunkPosition|
                    {
                        exists|b: int|
                            0 <= b < yi && p.y == #[trigger] self.spec_world_ys()[b]
                                && self.spec_world_xs().contains(p.x)
                    } && p.z == chunk_z && !cache.spec_chunks().contains_key(p) ==> #[trigger]
                    self.spec_queue().contains(p),
            decreases self.world_chunk_ys@.len() - yi,
        {
            let chunk_y = self.world_chunk_ys[yi];
            let mut xi: usize = 0;
            while xi < self.world_chunk_xs.len()
                invariant
                    self.wf(),
                    cache == cache,
                    yi < self.world_chunk_ys@.len(),
                    xi <= self.world_chunk_xs@.len(),
                    -0x0100_0000 <= chunk_z <= 0x0100_0000,
                    chunk_y == self.spec_world_ys()[yi as int],
                    self.spec_skip_next() == old(self).spec_skip_next(),
                    self.spec_world_xs() == old(self).spec_world_xs(),
                    self.spec_world_ys() == old(self).spec_world_ys(),
                    self.spec_world_zs() == old(self).spec_world_zs(),
                    old_q.len() <= self.spec_queue().len(),
                    self.spec_queue().take(old_q.len() as int) == old_q,
                    forall|p: ChunkPosition|
                        {
                            exists|b: int|
                                0 <= b < yi && p.y == #[trigger] self.spec_world_ys()[b]
                                    && self.spec_world_xs().contains(p.x)
                        } && p.z == chunk_z && !cache.spec_chunks().contains_key(p) ==> #[trigger]
                        self.spec_queue().contains(p),
                    forall|p: ChunkPosition|
                        {
                            exists|a: int|
                                0 <= a < xi && p.x == #[trigger] self.spec_world_xs()[a]
                        } && p.y == chunk_y && p.z == chunk_z && !cache.spec_chunks().contains_key(
                        p,
                    ) ==> #[trigger] self.spec_queue().contains(p),
                decreases self.world_chunk_xs@.len() - xi,
            {
                let chunk_x = self.world_chunk_xs[xi];
                let position = ChunkPosition::new(chunk_x, chunk_y, chunk_z);
                let ghost q_before = self.spec_queue();
                self.queue_position(cache, position);
                proof {
                    assert forall|p: ChunkPosition| q_before.contains(p) implies #[trigger]
                        self.spec_queue().contains(p) by {
                        let i = choose|i: int| 0 <= i < q_before.len() && q_before[i] == p;
                        assert(self.spec_queue()[i] == p);
                    }
                    if !cache.spec_chunks().contains_key(position) {
                        if !q_before.contains(position) {
                            assert(self.spec_queue()[self.spec_queue().len() - 1] == position);
                        }
                        assert(self.spec_queue().contains(position));
                    }
                    assert(self.spec_queue().take(old_q.len() as int) =~= old_q);
                }
                xi = xi + 1;
            }
            yi = yi + 1;
            proof {
                assert forall|p: ChunkPosition|
                    ({
                        exists|b: int|
                            0 <= b < yi && p.y == #[trigger] self.spec_world_ys()[b]
                                && self.spec_world_xs().contains(p.x)
                    } && p.z == chunk_z && !cache.spec_chunks().contains_key(p)) implies #[trigger]
                    self.spec_queue().contains(p) by {
                    let b = choose|b: int|
                        0 <= b < yi && p.y == #[trigger] self.spec_world_ys()[b]
                            && self.spec_world_xs().contains(p.x);
                    if b == yi - 1 {
                        let a = choose|a: int|
                            0 <= a < self.spec_world_xs().len() && self.spec_world_xs()[a] == p.x;
                        assert(p.x == self.spec_world_xs()[a]);
                    }
                }
            }
        }
        proof {
            assert forall|p: ChunkPosition|
                old(self).in_world_box(p) && p.z == chunk_z && !cache.spec_chunks().contains_key(
                    p,
                ) implies #[trigger] self.spec_queue().contains(p) by {
                let b = choose|b: int|
                    0 <= b < self.world_chunk_ys@.len() && self.world_chunk_ys@[b] == p.y;
                assert(p.y == self.world_chunk_ys@[b] && self.spec_world_xs().contains(p.x));
            }
        }
    }
}

} // verus!

verus! {

/// Whether a vector of chunk coordinates holds `z`.
fn contains_i32(v: &Vec<i32>, z: i32) -> (r: bool)
    ensures
        r == v@.contains(z),
{
    let mut i: usize = 0;
    while i < v.len()
        invariant
            i <= v@.len(),
            forall|j: int| 0 <= j < i ==> v@[j] != z,
        decreases v@.len() - i,
    {
        if v[i] == z {
            return true;
        }
        i = i + 1;
    }
    false
}

/// An element of a preserved prefix is still in the longer sequence.
proof fn lemma_prefix_contains(old_q: Seq<ChunkPosition>, new_q: Seq<ChunkPosition>, p: ChunkPosition)
    requires
        old_q.len() <= new_q.len(),
        new_q.take(old_q.len() as int) == old_q,
        old_q.contains(p),
    ensures
        new_q.contains(p),
{
    let i = choose|i: int| 0 <= i < old_q.len() && old_q[i] == p;
    assert(new_q.take(old_q.len() as int)[i] == p);
    assert(new_q[i] == p);
}

impl ChunkScheduler {
    /// Invalidates and rebuilds the whole queue: the prioritized levels
    /// first, mapped to chunk-z and kept only where the world has them, then
    /// every remaining world level as a catch-all. Rebuilding from scratch
    /// rather than re-sorting is deliberate: it keeps dequeue order exactly
    /// the priority order.
    pub fn rebuild_from_world_levels(&mut self, cache: &ChunkCache, levels: &Vec<i32>)
        requires
            old(self).wf(),
        ensures
            final(self).wf(),
            final(self).spec_skip_next() == old(self).spec_skip_next(),
            final(self).spec_world_xs() == old(self).spec_world_xs(),
            final(self).spec_world_ys() == old(self).spec_world_ys(),
            final(self).spec_world_zs() == old(self).spec_world_zs(),
            forall|p: ChunkPosition|
                old(self).in_world_box(p) && !cache.spec_chunks().contains_key(p) ==> #[trigger]
                    final(self).spec_queue().contains(p),
    {
        self.queue = VecDeque::new();
        self.queued = HashSet::new();
        proof {
            assert(self.wf());
        }

        let mut ordered_chunk_zs: Vec<i32> = Vec::new();
        let mut li: usize = 0;
        while li < levels.len()
            invariant
                li <= levels@.len(),
                forall|j: int|
                    0 <= j < ordered_chunk_zs@.len() ==> self.spec_world_zs().contains(
                        #[trigger] ordered_chunk_zs@[j],
                    ),
            decreases levels@.len() - li,
        {
            let chunk_z = div_floor(levels[li], CHUNK_HEIGHT as i32);
            if contains_i32(&self.world_chunk_zs, chunk_z) && !contains_i32(
                &ordered_chunk_zs,
                chunk_z,
            ) {
                ordered_chunk_zs.push(chunk_z);
            }
            li = li + 1;
        }

        let mut zi: usize = 0;
        while zi < self.world_chunk_zs.len()
            invariant
                zi <= self.spec_world_zs().len(),
                forall|j: int|
                    0 <= j < ordered_chunk_zs@.len() ==> self.spec_world_zs().contains(
                        #[trigger] ordered_chunk_zs@[j],
                    ),
                forall|j: int|
                    0 <= j < zi ==> ordered_chunk_zs@.contains(
                        #[trigger] self.spec_world_zs()[j],
                    ),
            decreases self.spec_world_zs().len() - zi,
        {
            let z = self.world_chunk_zs[zi];
            let ghost before = ordered_chunk_zs@;
            if !contains_i32(&ordered_chunk_zs, z) {
                ordered_chunk_zs.push(z);
                proof {
                    assert(ordered_chunk_zs@[ordered_chunk_zs@.len() - 1] == z);
                }
            }
            proof {
                assert(ordered_chunk_zs@.contains(z));
                assert forall|j: int| 0 <= j < zi + 1 implies ordered_chunk_zs@.contains(
                    #[trigger] self.spec_world_zs()[j],
                ) by {
                    if j < zi {
                        let k = choose|k: int|
                            0 <= k < before.len() && before[k] == self.spec_world_zs()[j];
                        assert(ordered_chunk_zs@[k] == self.spec_world_zs()[j]);
                    }
                }
            }
            zi = zi + 1;
        }

        let mut oi: usize = 0;
        while oi < ordered_chunk_zs.len()
            invariant
                self.wf(),
                cache == cache,
                oi <= ordered_chunk_zs@.len(),
                self.spec_skip_next() == old(self).spec_skip_next(),
                self.spec_world_xs() == old(self).spec_world_xs(),
                self.spec_world_ys() == old(self).spec_world_ys(),
                self.spec_world_zs() == old(self).spec_world_zs(),
                forall|j: int|
                    0 <= j < ordered_chunk_zs@.len() ==> self.spec_world_zs().contains(
                        #[trigger] ordered_chunk_zs@[j],
                    ),
                forall|j: int|
                    0 <= j < self.spec_world_zs().len() ==> ordered_chunk_zs@.contains(
                        #[trigger] self.spec_world_zs()[j],
                    ),
                forall|p: ChunkPosition|
                    self.in_world_box(p) && ordered_chunk_zs@.take(oi as int).contains(p.z)
                        && !cache.spec_chunks().contains_key(p) ==> #[trigger]
                        self.spec_queue().contains(p),
            decreases ordered_chunk_zs@.len() - oi,
        {
            let chunk_z = ordered_chunk_zs[oi];
            proof {
                let k = choose|k: int|
                    0 <= k < self.spec_world_zs().len() && self.spec_world_zs()[k] == chunk_z;
                assert(-0x0100_0000 <= chunk_z <= 0x0100_0000);
            }
            let ghost q_before = self.spec_queue();
            self.queue_full_chunk_plane(cache, chunk_z);
            proof {
                assert forall|p: ChunkPosition|
                    self.in_world_box(p) && ordered_chunk_zs@.take(oi + 1).contains(p.z)
                        && !cache.spec_chunks().contains_key(p) implies #[trigger]
                    self.spec_queue().contains(p) by {
                    if p.z == chunk_z {
                        assert(self.spec_queue().contains(p));
                    } else {
                        let k = choose|k: int|
                            0 <= k < oi + 1 && #[trigger] ordered_chunk_zs@.take(oi + 1)[k]
                                == p.z;
                        assert(ordered_chunk_zs@.take(oi as int)[k] == p.z);
                        assert(ordered_chunk_zs@.take(oi as int).contains(p.z));
                        assert(q_before.contains(p));
                        lemma_prefix_contains(q_before, self.spec_queue(), p);
                    }
                }
            }
            oi = oi + 1;
        }
        proof {
            assert forall|p: ChunkPosition|
                old(self).in_world_box(p) && !cache.spec_chunks().contains_key(p) implies #[trigger]
                self.spec_queue().contains(p) by {
                let j = choose|j: int|
                    0 <= j < self.spec_world_zs().len() && self.spec_world_zs()[j] == p.z;
                assert(ordered_chunk_zs@.contains(self.spec_world_zs()[j]));
                let k = choose|k: int|
                    0 <= k < ordered_chunk_zs@.len() && ordered_chunk_zs@[k] == p.z;
                assert(ordered_chunk_zs@.take(ordered_chunk_zs@.len() as int)[k] == p.z);
                assert(ordered_chunk_zs@.take(ordered_chunk_zs@.len() as int).contains(p.z));
            }
        }
    }

    /// Builds the initial queue around the default view level.
    pub fn prime(&mut self, cache: &ChunkCache)
        requires
            old(self).wf(),
        ensures
            final(self).wf(),
            final(self).spec_skip_next() == old(self).spec_skip_next(),
            final(self).spec_world_xs() == old(self).spec_world_xs(),
            final(self).spec_world_ys() == old(self).spec_world_ys(),
            final(self).spec_world_zs() == old(self).spec_world_zs(),
            forall|p: ChunkPosition|
                old(self).in_world_box(p) && !cache.spec_chunks().contains_key(p) ==> #[trigger]
                    final(self).spec_queue().contains(p),
    {
        let levels = prioritized_levels(DEFAULT_VIEW_Z);
        self.rebuild_from_world_levels(cache, &levels);
    }

    /// Rebuilds the queue around a new focus level and holds off the next
    /// drain once, so a just-rebuilt queue is not drained before the new
    /// priorities take effect.
    pub fn reprioritize_for_view(&mut self, cache: &ChunkCache, base_world_z: i32)
        requires
            old(self).wf(),
        ensures
            final(self).wf(),
            final(self).spec_skip_next(),
            final(self).spec_world_xs() == old(self).spec_world_xs(),
            final(self).spec_world_ys() == old(self).spec_world_ys(),
            final(self).spec_world_zs() == old(self).spec_world_zs(),
            forall|p: ChunkPosition|
                old(self).in_world_box(p) && !cache.spec_chunks().contains_key(p) ==> #[trigger]
                    final(self).spec_queue().contains(p),
    {
        self.skip_next = true;
        proof {
            assert(self.queue@ == old(self).queue@);
            assert(self.queued@ == old(self).queued@);
            assert(self.world_chunk_xs@ == old(self).world_chunk_xs@);
            assert(self.world_chunk_ys@ == old(self).world_chunk_ys@);
            assert(self.world_chunk_zs@ == old(self).world_chunk_zs@);
            assert(self.wf());
        }
        let levels = prioritized_levels(base_world_z);
        self.rebuild_from_world_levels(cache, &levels);
    }

    /// Drains up to one batch: pops queued positions front to back, skips
    /// any that became generated in the meantime, and generates the rest.
    /// Right after a reprioritization one call is skipped. Returns how many
    /// chunks were generated.
    pub fn process(&mut self, cache: &mut ChunkCache, generator: &DeterministicMap) -> (processed:
        usize)
        requires
            old(self).wf(),
            old(cache).wf(),
        ensures
            final(self).wf(),
            final(cache).wf(),
            !final(self).spec_skip_next(),
            final(self).spec_world_xs() == old(self).spec_world_xs(),
            final(self).spec_world_ys() == old(self).spec_world_ys(),
            final(self).spec_world_zs() == old(self).spec_world_zs(),
            old(self).spec_skip_next() ==> final(self).spec_queue() == old(self).spec_queue()
                && *final(cache) == *old(cache) && processed == 0,
            !old(self).spec_skip_next() ==> processed == CHUNKS_PER_FRAME
                || final(self).spec_queue().len() == 0,
            !old(self).spec_skip_next() ==> {
                &&& exists|k: int|
                    0 <= k <= old(self).spec_queue().len()
                        && final(self).spec_queue() == old(self).spec_queue().skip(k)
                        && (forall|q: ChunkPosition|
                        final(cache).spec_chunks().contains_key(q)
                            && !old(cache).spec_chunks().contains_key(q)
                            ==> #[trigger] old(self).spec_queue().take(k).contains(q))
                &&& forall|q: ChunkPosition| #[trigger]
                    old(cache).spec_chunks().contains_key(q)
                        ==> final(cache).spec_chunks().contains_key(q)
                        && final(cache).spec_chunks()[q] == old(cache).spec_chunks()[q]
                &&& forall|q: ChunkPosition|
                    #[trigger] final(cache).spec_chunks().contains_key(q)
                        && !old(cache).spec_chunks().contains_key(q) ==> populated_from(
                        final(cache).spec_chunks(),
                        generator.seed,
                        q,
                    )
            },
    {
        if self.skip_next {
            self.skip_next = false;
            proof {
                assert(self.queue@ == old(self).queue@);
                assert(self.queued@ == old(self).queued@);
                assert(self.world_chunk_xs@ == old(self).world_chunk_xs@);
                assert(self.world_chunk_ys@ == old(self).world_chunk_ys@);
                assert(self.world_chunk_zs@ == old(self).world_chunk_zs@);
                assert(self.wf());
            }
            return 0;
        }
        let mut processed: usize = 0;
        let ghost old_q = self.spec_queue();
        let ghost mut k: int = 0;
        while processed < CHUNKS_PER_FRAME && self.queue.len() > 0
            invariant
                self.wf(),
                cache.wf(),
                generator == generator,
                processed <= CHUNKS_PER_FRAME,
                !self.spec_skip_next(),
                self.spec_world_xs() == old(self).spec_world_xs(),
                self.spec_world_ys() == old(self).spec_world_ys(),
                self.spec_world_zs() == old(self).spec_world_zs(),
                0 <= k <= old_q.len(),
                self.spec_queue() == old_q.skip(k),
                forall|q: ChunkPosition|
                    cache.spec_chunks().contains_key(q)
                        && !old(cache).spec_chunks().contains_key(q)
                        ==> #[trigger] old_q.take(k).contains(q),
                forall|q: ChunkPosition| #[trigger]
                    old(cache).spec_chunks().contains_key(q)
                        ==> cache.spec_chunks().contains_key(q)
                        && cache.spec_chunks()[q] == old(cache).spec_chunks()[q],
                forall|q: ChunkPosition|
                    #[trigger] cache.spec_chunks().contains_key(q)
                        && !old(cache).spec_chunks().contains_key(q) ==> populated_from(
                        cache.spec_chunks(),
                        generator.seed,
                        q,
                    ),
            decreases self.spec_queue().len(),
        {
            let position = match self.queue.pop_front() {
                Some(position) => position,
                None => {
                    proof {
                        assert(false);
                    }
                    ChunkPosition::new(0, 0, 0)
                },
            };
            let key = pos_key(&position);
            self.queued.remove(&key);
            proof {
                assert(old_q.skip(k)[0] == position);
                assert(old_q[k] == position);
                assert(self.spec_queue() =~= old_q.skip(k + 1));
                // the popped position leaves the membership set with the rest intact
                assert forall|i: int| 0 <= i < self.queue@.len() implies self.queued@.contains(
                    pos_key_spec(#[trigger] self.queue@[i]),
                ) by {
                    if pos_key_spec(self.queue@[i]) == pos_key_spec(position) {
                        lemma_pos_key_injective(self.queue@[i], position);
                        assert(old_q.skip(k)[i + 1] == self.queue@[i]);
                        assert(old_q.skip(k)[0] == position);
                        assert(false);
                    }
                }
                assert forall|kk: u128| #[trigger] self.queued@.contains(kk) implies exists|i: int|
                    0 <= i < self.queue@.len() && pos_key_spec(#[trigger] self.queue@[i])
                        == kk by {
                    let i = choose|i: int|
                        0 <= i < old_q.skip(k).len() && pos_key_spec(
                            #[trigger] old_q.skip(k)[i],
                        ) == kk;
                    assert(i > 0);
                    assert(self.queue@[i - 1] == old_q.skip(k)[i]);
                }
                k = k + 1;
            }
            if !cache.has_chunk(&position) {
                let ghost cache_before = cache.spec_chunks();
                cache.populate_chunk_at(generator, position);
                processed = processed + 1;
                proof {
                    assert(old_q.take(k)[k - 1] == old_q[k - 1]);
                    assert(old_q.take(k).contains(old_q[k - 1]));
                    assert forall|q: ChunkPosition|
                        cache.spec_chunks().contains_key(q)
                            && !old(cache).spec_chunks().contains_key(q) implies #[trigger]
                        old_q.take(k).contains(q) by {
                        if q != position {
                            assert(cache_before.contains_key(q));
                            assert(old_q.take(k - 1).contains(q));
                            let j = choose|j: int| 0 <= j < k - 1 && #[trigger] old_q.take(k - 1)[j] == q;
                            assert(old_q.take(k)[j] == q);
                        } else {
                            assert(old_q.take(k)[k - 1] == q);
                        }
                    }
                    assert forall|q: ChunkPosition|
                        #[trigger] cache.spec_chunks().contains_key(q)
                            && !old(cache).spec_chunks().contains_key(q) implies populated_from(
                        cache.spec_chunks(),
                        generator.seed,
                        q,
                    ) by {
                        if q != position {
                            assert(cache_before.contains_key(q));
                            assert(cache.spec_chunks()[q] == cache_before[q]);
                        }
                    }
                }
            } else {
                proof {
                    assert forall|q: ChunkPosition|
                        cache.spec_chunks().contains_key(q)
                            && !old(cache).spec_chunks().contains_key(q) implies #[trigger]
                        old_q.take(k).contains(q) by {
                        assert(old_q.take(k - 1).contains(q));
                        let j = choose|j: int| 0 <= j < k - 1 && #[trigger] old_q.take(k - 1)[j] == q;
                        assert(old_q.take(k)[j] == q);
                    }
                }
            }
        }
        processed
    }
}

/// The streaming priority order: the level just below the focus and the
/// focus itself first, then the preload band around them.
fn prioritized_levels(base_world_z: i32) -> (levels: Vec<i32>)
    ensures
        levels@.len() >= 2,
{
    let base_minus = if base_world_z == i32::MIN {
        i32::MIN
    } else {
        base_world_z - 1
    };
    let mut levels: Vec<i32> = Vec::new();
    levels.push(base_minus);
    levels.push(base_world_z);
    let mut dz: i32 = -PRELOAD_Z_RADIUS - 1;
    while dz <= PRELOAD_Z_RADIUS
        invariant
            -PRELOAD_Z_RADIUS - 1 <= dz <= PRELOAD_Z_RADIUS + 1,
            levels@.len() >= 2,
        decreases PRELOAD_Z_RADIUS + 1 - dz,
    {
        if dz != -1 && dz != 0 {
            let shifted = if base_world_z >= 0 && dz > 0 && base_world_z > i32::MAX - dz {
                i32::MAX
            } else if base_world_z < 0 && dz < 0 && base_world_z < i32::MIN - dz {
                i32::MIN
            } else {
                base_world_z + dz
            };
            levels.push(shifted);
        }
        dz = dz + 1;
    }
    levels
}

} // verus!

verus! {

use crate::worldgen::{HORIZONTAL_LIMIT, VERTICAL_LIMIT};

impl ChunkScheduler {
    /// An idle scheduler over the chunk ranges of the whole configured
    /// world.
    pub fn for_world_limits() -> (r: Self)
        ensures
            r.wf(),
            r.spec_queue().len() == 0,
            !r.spec_skip_next(),
    {
        let (xs, ys, zs) = ChunkCache::chunk_ranges_for_limits(HORIZONTAL_LIMIT, VERTICAL_LIMIT);
        proof {
            assert forall|i: int| 0 <= i < xs@.len() implies -0x0100_0000 <= #[trigger] xs@[i]
                <= 0x0100_0000 by {
                assert(xs@[i] == crate::chunk_cache::chunk_range_min(HORIZONTAL_LIMIT, 32) + i);
            }
            assert forall|i: int| 0 <= i < ys@.len() implies -0x0100_0000 <= #[trigger] ys@[i]
                <= 0x0100_0000 by {
                assert(ys@[i] == crate::chunk_cache::chunk_range_min(HORIZONTAL_LIMIT, 32) + i);
            }
            assert forall|i: int| 0 <= i < zs@.len() implies -0x0100_0000 <= #[trigger] zs@[i]
                <= 0x0100_0000 by {
                assert(zs@[i] == crate::chunk_cache::chunk_range_min(VERTICAL_LIMIT, 4) + i);
            }
        }
        Self::new(xs, ys, zs)
    }
}

} // verus!
