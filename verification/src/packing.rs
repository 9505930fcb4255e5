//! Bit-packing of palette indices: each voxel's palette index is stored in
//! the minimum number of bits, packed back to back into 64-bit words, with a
//! value split across a word boundary when it straddles two words.

use vstd::prelude::*;

verus! {

use vstd::arithmetic::power2::{
    pow2,
    lemma_pow2_unfold,
    lemma_pow2_strictly_increases,
    lemma2_to64,
};

/// The number of bits needed to store any index below `len`: zero when the
/// palette has at most one entry, else the bit width of `len - 1`.
pub open spec fn bits_for(len: nat) -> nat
    decreases len,
{
    if len <= 1 {
        0
    } else {
        1 + bits_for(((len + 1) / 2) as nat)
    }
}

/// `bits_for(len)` bits can hold every index below `len`.
pub proof fn lemma_bits_for_covers(len: nat)
    ensures
        len <= pow2(bits_for(len)),
    decreases len,
{
    if len <= 1 {
        lemma2_to64();
    } else {
        let m = ((len + 1) / 2) as nat;
        lemma_bits_for_covers(m);
        lemma_pow2_unfold((1 + bits_for(m)) as nat);
        assert(2 * m >= len);
    }
}

/// One bit fewer than `bits_for(len)` cannot hold every index below `len`.
pub proof fn lemma_bits_for_tight(len: nat)
    requires
        len >= 2,
    ensures
        bits_for(len) >= 1,
        pow2((bits_for(len) - 1) as nat) < len,
    decreases len,
{
    let m = ((len + 1) / 2) as nat;
    if m <= 1 {
        lemma2_to64();
    } else {
        lemma_bits_for_tight(m);
        lemma_pow2_unfold(bits_for(m));
        assert(2 * m - 2 < len);
    }
}

/// A chunk-sized palette never needs more than 16 bits per index.
pub proof fn lemma_bits_for_small(len: nat)
    requires
        len <= 0x10000,
    ensures
        bits_for(len) <= 16,
{
    if len >= 2 {
        lemma_bits_for_tight(len);
        let b = bits_for(len);
        if b >= 17 {
            lemma2_to64();
            if b - 1 > 16 {
                lemma_pow2_strictly_increases(16, (b - 1) as nat);
            }
            assert(pow2((b - 1) as nat) >= pow2(16));
            assert(false);
        }
    }
}

/// Computes `bits_for(palette_len)`: the smallest width whose range covers
/// every palette index.
pub fn bits_required(palette_len: usize) -> (r: u8)
    ensures
        r as nat == bits_for(palette_len as nat),
    {
    let mut bits: u8 = 0;
    let mut cap: u128 = 1;
    proof {
        lemma2_to64();
    }
    while cap < palette_len as u128
        invariant
            bits <= 64,
            cap >= 1,
            cap == pow2(bits as nat),
            bits > 0 ==> pow2((bits - 1) as nat) < palette_len as nat,
        decreases 64 - bits,
    {
        proof {
            if bits == 64 {
                vstd::arithmetic::power2::lemma2_to64_rest();
                assert(false);
            }
            lemma_pow2_unfold((bits + 1) as nat);
            lemma2_to64_rest_bound((bits + 1) as nat);
        }
        bits = bits + 1;
        cap = cap * 2;
    }
    proof {
        let len = palette_len as nat;
        let b = bits as nat;
        lemma_bits_for_covers(len);
        if len <= 1 {
            if b > 0 {
                vstd::arithmetic::power2::lemma_pow2_pos((b - 1) as nat);
            }
            assert(b == bits_for(len));
        } else {
            lemma_bits_for_tight(len);
            let bf = bits_for(len);
            if b < bf {
                if b < bf - 1 {
                    lemma_pow2_strictly_increases(b, (bf - 1) as nat);
                }
                assert(pow2(b) < len);
                assert(false);
            }
            if b > bf {
                lemma_pow2_strictly_increases(bf, (b - 1) as nat + 1);
                if bf < b - 1 {
                    lemma_pow2_strictly_increases(bf, (b - 1) as nat);
                }
                assert(pow2((b - 1) as nat) >= pow2(bf) >= len);
                assert(false);
            }
        }
    }
    bits
}

/// `pow2(64)` bounds every smaller power of two below `u128`'s range.
pub proof fn lemma2_to64_rest_bound(e: nat)
    requires
        e <= 64,
    ensures
        pow2(e) <= 0x1_0000_0000_0000_0000,
    {
    vstd::arithmetic::power2::lemma2_to64();
    vstd::arithmetic::power2::lemma2_to64_rest();
    if e < 64 {
        lemma_pow2_strictly_increases(e, 64);
    }
}

} // verus!

verus! {

use vstd::arithmetic::div_mod::{lemma_fundamental_div_mod, lemma_fundamental_div_mod_converse};
use vstd::arithmetic::mul::lemma_mul_inequality;

/// A word with exactly the `n` low bits set.
pub open spec fn mask_low(n: u64) -> u64
    recommends
        n < 64,
{
    ((1u64 << n) - 1) as u64
}

/// The `i`-th stored index: `bits` bits read at bit offset `i * bits`,
/// reassembled from two words when the offset straddles a word boundary.
pub open spec fn unpack_spec(words: Seq<u64>, i: nat, bits: nat) -> u64
    recommends
        1 <= bits <= 16,
        (i + 1) * bits <= words.len() * 64,
{
    let off = i * bits;
    let wi = (off / 64) as int;
    let lo = (off % 64) as u64;
    let b = bits as u64;
    let head = (words[wi] >> lo) & mask_low(b);
    if lo + b <= 64 {
        head
    } else {
        let spill_bits = ((lo + b) - 64) as u64;
        let spill = words[wi + 1] & mask_low(spill_bits);
        head | (spill << ((b - spill_bits) as u64))
    }
}

/// Every bit at position `boundary` or above is zero.
pub open spec fn zero_from(words: Seq<u64>, boundary: nat) -> bool {
    let bw = (boundary / 64) as int;
    let lo = (boundary % 64) as u64;
    &&& forall|k: int| bw < k < words.len() ==> words[k] == 0
    &&& (bw < words.len() ==> words[bw] >> lo == 0)
}

/// The two word sequences agree on every bit below `boundary`.
pub open spec fn agree_below(a: Seq<u64>, b: Seq<u64>, boundary: nat) -> bool {
    let bw = (boundary / 64) as int;
    let lo = (boundary % 64) as u64;
    &&& a.len() == b.len()
    &&& forall|k: int| 0 <= k < bw && k < a.len() ==> a[k] == b[k]
    &&& (bw < a.len() && lo > 0 ==> a[bw] & mask_low(lo) == b[bw] & mask_low(lo))
}

/// An index stored entirely below `boundary` reads the same out of two word
/// sequences that agree below `boundary`.
pub proof fn lemma_unpack_agree(a: Seq<u64>, b: Seq<u64>, boundary: nat, i: nat, bits: nat)
    requires
        1 <= bits <= 16,
        (i + 1) * bits <= boundary,
        boundary <= a.len() * 64,
        agree_below(a, b, boundary),
    ensures
        unpack_spec(a, i, bits) == unpack_spec(b, i, bits),
{
    let off = i * bits;
    assert((i + 1) * bits == i * bits + bits) by (nonlinear_arith);
    let wi = off / 64;
    let lo = (off % 64) as u64;
    let bw = boundary / 64;
    let blo = (boundary % 64) as u64;
    lemma_fundamental_div_mod(off as int, 64);
    lemma_fundamental_div_mod(boundary as int, 64);
    let bv = bits as u64;
    if lo + bv <= 64 {
        if wi < bw {
            assert(a[wi as int] == b[wi as int]);
        } else {
            assert(wi == bw && lo + bv <= blo);
            let x = a[wi as int];
            let y = b[wi as int];
            assert((x >> lo) & mask_low(bv) == (y >> lo) & mask_low(bv)) by (bit_vector)
                requires
                    x & (((1u64 << blo) - 1) as u64) == y & (((1u64 << blo) - 1) as u64),
                    lo + bv <= blo,
                    blo < 64,
                    mask_low(bv) == ((1u64 << bv) - 1) as u64,
            ;
        }
    } else {
        let s = ((lo + bv) - 64) as u64;
        assert(64 * wi + 64 < 64 * bw + blo);
        assert(wi + 1 <= bw);
        assert(a[wi as int] == b[wi as int]);
        if wi + 1 < bw {
            assert(a[wi as int + 1] == b[wi as int + 1]);
        } else {
            assert(wi + 1 == bw && s <= blo);
            let x = a[wi as int + 1];
            let y = b[wi as int + 1];
            assert(x & mask_low(s) == y & mask_low(s)) by (bit_vector)
                requires
                    x & (((1u64 << blo) - 1) as u64) == y & (((1u64 << blo) - 1) as u64),
                    s <= blo,
                    blo < 64,
                    mask_low(s) == ((1u64 << s) - 1) as u64,
            ;
        }
    }
}

} // verus!

verus! {

/// A vector of `n` zeroed words.
fn zero_words(n: usize) -> (r: Vec<u64>)
    ensures
        r@.len() == n,
        forall|k: int| 0 <= k < n ==> r@[k] == 0,
{
    let mut words: Vec<u64> = Vec::new();
    let mut i: usize = 0;
    while i < n
        invariant
            i <= n,
            words@.len() == i,
            forall|k: int| 0 <= k < i ==> words@[k] == 0,
        decreases n - i,
    {
        words.push(0);
        i = i + 1;
    }
    words
}

/// Reads the `block_index`-th stored palette index back out of the packed
/// words, reassembling a value that straddles two words.
pub fn unpack_index(packed: &Vec<u64>, block_index: usize, bits_per_index: u8) -> (r: u64)
    requires
        1 <= bits_per_index <= 16,
        (block_index + 1) * (bits_per_index as usize) <= packed@.len() * 64,
        packed@.len() <= 0x0100_0000,
    ensures
        r == unpack_spec(packed@, block_index as nat, bits_per_index as nat),
{
    let bits_usize = bits_per_index as usize;
    proof {
        assert((block_index + 1) * bits_usize == block_index * bits_usize + bits_usize)
            by (nonlinear_arith);
        assert(block_index * bits_usize + bits_usize <= packed@.len() * 64);
        assert(packed@.len() * 64 <= 0x4000_0000);
        assert(block_index * bits_usize == block_index * bits_per_index) by (nonlinear_arith)
            requires
                bits_usize == bits_per_index,
        ;
        lemma_fundamental_div_mod((block_index * bits_per_index) as int, 64);
    }
    let offset = block_index * bits_usize;
    let word_index = offset / 64;
    let bit_in_word = (offset % 64) as u64;
    let bits = bits_per_index as u64;
    proof {
        assert((1u64 << bits) >= 1) by (bit_vector)
            requires
                bits <= 16,
        ;
        if word_index >= packed@.len() {
            assert(false);
        }
    }
    let mask = ((1u64 << bits) - 1) as u64;
    let mut value = (packed[word_index] >> bit_in_word) & mask;
    let bits_read = bit_in_word + bits;
    if bits_read > 64 {
        let spill_bits = (bits_read - 64) as u64;
        proof {
            assert((1u64 << spill_bits) >= 1) by (bit_vector)
                requires
                    spill_bits < 16,
            ;
            if word_index + 1 >= packed@.len() {
                assert(false);
            }
        }
        let spill_mask = ((1u64 << spill_bits) - 1) as u64;
        let spill = packed[word_index + 1] & spill_mask;
        value = value | (spill << (bits - spill_bits));
    }
    value
}

} // verus!

verus! {

use std::collections::HashMap;
use crate::BlockId;

/// Packs one palette index per voxel into 64-bit words, `bits_per_index`
/// bits each, starting at bit offset `i * bits_per_index` for voxel `i` and
/// splitting a value across two words when it straddles a word boundary.
/// With at most one palette entry no bits are stored at all.
pub fn pack_blocks(
    blocks: &Vec<BlockId>,
    palette_indices: &HashMap<BlockId, usize>,
    bits_per_index: u8,
) -> (packed: Vec<u64>)
    requires
        bits_per_index <= 16,
        blocks@.len() <= 0x0010_0000,
        bits_per_index > 0 ==> forall|j: int|
            0 <= j < blocks@.len() ==> #[trigger] palette_indices@.contains_key(blocks@[j])
                && (palette_indices@[blocks@[j]] as u64) < (1u64 << (bits_per_index as u64)),
    ensures
        bits_per_index == 0 ==> packed@.len() == 0,
        bits_per_index > 0 ==> {
            &&& packed@.len() == (blocks@.len() * (bits_per_index as usize) + 63) / 64
            &&& blocks@.len() * (bits_per_index as usize) <= packed@.len() * 64
            &&& forall|j: int|
                0 <= j < blocks@.len() ==> unpack_spec(
                    packed@,
                    j as nat,
                    bits_per_index as nat,
                ) == palette_indices@[blocks@[j]] as u64
        },
{
    if bits_per_index == 0 {
        let packed: Vec<u64> = Vec::new();
        return packed;
    }
    let bits = bits_per_index as usize;
    proof {
        assert(blocks@.len() * bits <= 0x0010_0000 * 16) by (nonlinear_arith)
            requires
                blocks@.len() <= 0x0010_0000,
                bits <= 16,
        ;
    }
    let total_bits = blocks.len() * bits;
    let u64_len = (total_bits + 63) / 64;
    proof {
        lemma_fundamental_div_mod((total_bits + 63) as int, 64);
    }
    let mut packed = zero_words(u64_len);
    let bits64 = bits_per_index as u64;
    proof {
        assert((1u64 << bits64) >= 1) by (bit_vector)
            requires
                bits64 <= 16,
        ;
    }
    let mask = ((1u64 << bits64) - 1) as u64;
    proof {
        let z = if packed@.len() > 0 {
            packed@[0]
        } else {
            0u64
        };
        assert(z == 0 ==> z >> 0u64 == 0) by (bit_vector);
    }
    let mut i: usize = 0;
    while i < blocks.len()
        invariant
            1 <= bits_per_index <= 16,
            bits == bits_per_index as usize,
            bits64 == bits_per_index as u64,
            mask == mask_low(bits64),
            blocks@.len() <= 0x0010_0000,
            total_bits == blocks@.len() * bits,
            u64_len == (total_bits + 63) / 64,
            packed@.len() == u64_len,
            total_bits <= packed@.len() * 64,
            i <= blocks@.len(),
            forall|j: int|
                0 <= j < blocks@.len() ==> #[trigger] palette_indices@.contains_key(blocks@[j])
                    && (palette_indices@[blocks@[j]] as u64) < (1u64 << (bits_per_index as u64)),
            zero_from(packed@, (i * bits) as nat),
            forall|j: int|
                0 <= j < i ==> unpack_spec(packed@, j as nat, bits_per_index as nat)
                    == palette_indices@[blocks@[j]] as u64,
        decreases blocks@.len() - i,
    {
        proof {
            assert((i + 1) * bits == i * bits + bits) by (nonlinear_arith);
            lemma_mul_inequality(i as int + 1, blocks@.len() as int, bits as int);
            lemma_fundamental_div_mod((i * bits) as int, 64);
        }
        let block = blocks[i];
        let palette_index = *palette_indices.get(&block).unwrap();
        let offset = i * bits;
        let word_index = offset / 64;
        let bit_in_word = (offset % 64) as u64;
        proof {
            if word_index >= packed@.len() {
                assert(false);
            }
        }
        let value = (palette_index as u64) & mask;
        proof {
            let pv = palette_index as u64;
            assert(pv & mask == pv) by (bit_vector)
                requires
                    pv < (1u64 << bits64),
                    mask == ((1u64 << bits64) - 1) as u64,
                    bits64 <= 16,
            ;
        }
        let ghost old_packed = packed@;
        let ghost w = packed@[word_index as int];
        let w0 = packed[word_index];
        packed.set(word_index, w0 | (value << bit_in_word));
        let bits_written = bit_in_word + bits64;
        if bits_written <= 64 {
            proof {
                let nw = packed@[word_index as int];
                let lo = bit_in_word;
                let b = bits64;
                let v = value;
                assert(((nw >> lo) & (((1u64 << b) - 1) as u64)) == v && (lo > 0 ==> nw & (((1u64
                    << lo) - 1) as u64) == w & (((1u64 << lo) - 1) as u64)) && (lo + b < 64 ==> nw
                    >> ((lo + b) as u64) == 0) && (lo + b == 64 ==> true)) by (bit_vector)
                    requires
                        nw == w | (v << lo),
                        w >> lo == 0,
                        v < (1u64 << b),
                        1 <= b <= 16,
                        lo + b <= 64,
                        lo < 64,
                ;
                assert(unpack_spec(packed@, i as nat, bits_per_index as nat) == value);
                // bits at or past the new boundary stay clear
                if lo + b < 64 {
                    lemma_fundamental_div_mod_converse(
                        (offset + bits) as int,
                        64,
                        word_index as int,
                        (lo + b) as int,
                    );
                } else {
                    lemma_fundamental_div_mod_converse(
                        (offset + bits) as int,
                        64,
                        word_index as int + 1,
                        0,
                    );
                    if word_index + 1 < packed@.len() {
                        let z = packed@[word_index as int + 1];
                        assert(z >> 0u64 == z) by (bit_vector);
                    }
                }
                assert(zero_from(packed@, ((i + 1) * bits) as nat));
            }
        } else {
            let spill_bits = bits_written - 64;
            proof {
                if word_index + 1 >= packed@.len() {
                    assert(false);
                }
            }
            let w1 = packed[word_index + 1];
            packed.set(word_index + 1, w1 | (value >> (bits64 - spill_bits)));
            proof {
                let nw0 = packed@[word_index as int];
                let nw1 = packed@[word_index as int + 1];
                let lo = bit_in_word;
                let b = bits64;
                let v = value;
                let s = spill_bits;
                assert(w1 == 0);
                assert(((((nw0 >> lo) & (((1u64 << b) - 1) as u64)) | ((nw1 & (((1u64 << s)
                    - 1) as u64)) << ((b - s) as u64))) == v) && ((nw0 & (((1u64 << lo)
                    - 1) as u64)) == (w & (((1u64 << lo) - 1) as u64))) && (nw1 >> s == 0)) by (bit_vector)
                    requires
                        nw0 == w | (v << lo),
                        nw1 == 0u64 | (v >> ((b - s) as u64)),
                        w >> lo == 0,
                        v < (1u64 << b),
                        1 <= b <= 16,
                        lo < 64,
                        lo + b > 64,
                        s + 64 == lo + b,
                ;
                assert(unpack_spec(packed@, i as nat, bits_per_index as nat) == value);
                lemma_fundamental_div_mod_converse(
                    (offset + bits) as int,
                    64,
                    word_index as int + 1,
                    s as int,
                );
                assert(zero_from(packed@, ((i + 1) * bits) as nat));
            }
        }
        proof {
            assert(agree_below(old_packed, packed@, (i * bits) as nat));
            assert forall|j: int| 0 <= j < i implies unpack_spec(
                packed@,
                j as nat,
                bits_per_index as nat,
            ) == palette_indices@[blocks@[j]] as u64 by {
                lemma_mul_inequality(j + 1, i as int, bits as int);
                lemma_unpack_agree(
                    old_packed,
                    packed@,
                    (i * bits) as nat,
                    j as nat,
                    bits_per_index as nat,
                );
            }
        }
        i = i + 1;
    }
    packed
}

} // verus!

verus! {

/// The palette of a block sequence: each distinct block id, in order of
/// first appearance.
pub open spec fn palette_of(s: Seq<BlockId>) -> Seq<BlockId>
    decreases s.len(),
{
    if s.len() == 0 {
        Seq::empty()
    } else {
        let p = palette_of(s.drop_last());
        if p.contains(s.last()) {
            p
        } else {
            p.push(s.last())
        }
    }
}

/// A palette is never longer than the sequence it was drawn from, and it
/// holds exactly the ids that occur in that sequence.
pub proof fn lemma_palette_of_len(s: Seq<BlockId>)
    ensures
        palette_of(s).len() <= s.len(),
        forall|v: BlockId| palette_of(s).contains(v) <==> s.contains(v),
    decreases s.len(),
{
    if s.len() > 0 {
        lemma_palette_of_len(s.drop_last());
        let p = palette_of(s.drop_last());
        assert forall|v: BlockId| s.contains(v) implies palette_of(s).contains(v) by {
            let k = choose|k: int| 0 <= k < s.len() && s[k] == v;
            if k < s.len() - 1 {
                assert(s.drop_last()[k] == v);
                assert(s.drop_last().contains(v));
                if !p.contains(s.last()) {
                    let m = choose|m: int| 0 <= m < p.len() && p[m] == v;
                    assert(p.push(s.last())[m] == v);
                }
            } else {
                if !p.contains(s.last()) {
                    assert(p.push(s.last())[p.len() as int] == v);
                }
            }
        }
        assert forall|v: BlockId| palette_of(s).contains(v) implies s.contains(v) by {
            if p.contains(v) {
                assert(s.drop_last().contains(v));
                let k = choose|k: int| 0 <= k < s.drop_last().len() && s.drop_last()[k] == v;
                assert(s[k] == v);
            } else {
                let m = choose|m: int| 0 <= m < palette_of(s).len() && palette_of(s)[m] == v;
                if m < p.len() {
                    assert(p[m] == v);
                    assert(s.drop_last().contains(v));
                    let k = choose|k: int| 0 <= k < s.drop_last().len() && s.drop_last()[k] == v;
                    assert(s[k] == v);
                } else {
                    assert(v == s.last());
                    assert(s[s.len() - 1] == v);
                }
            }
        }
    }
}

/// Scans the blocks once, building the first-seen palette and the lookup
/// from block id to palette index.
#[verifier::rlimit(50)]
pub fn build_palette(blocks: &Vec<BlockId>) -> (r: (Vec<BlockId>, HashMap<BlockId, usize>))
    ensures
        r.0@ == palette_of(blocks@),
        r.0@.no_duplicates(),
        forall|k: int|
            0 <= k < r.0@.len() ==> #[trigger] r.1@.contains_key(r.0@[k]) && r.1@[r.0@[k]] == k,
        forall|b: BlockId| #[trigger] r.1@.contains_key(b) <==> r.0@.contains(b),
        forall|b: BlockId| #[trigger]
            r.1@.contains_key(b) ==> r.1@[b] < r.0@.len() && r.0@[r.1@[b] as int] == b,
{
    let mut palette: Vec<BlockId> = Vec::new();
    let mut indices: HashMap<BlockId, usize> = HashMap::new();
    let mut i: usize = 0;
    while i < blocks.len()
        invariant
            i <= blocks@.len(),
            palette@ == palette_of(blocks@.take(i as int)),
            forall|k: int|
                0 <= k < palette@.len() ==> #[trigger] indices@.contains_key(palette@[k])
                    && indices@[palette@[k]] == k,
            forall|b: BlockId| #[trigger] indices@.contains_key(b) <==> palette@.contains(b),
            forall|b: BlockId| #[trigger]
                indices@.contains_key(b) ==> indices@[b] < palette@.len()
                    && palette@[indices@[b] as int] == b,
        decreases blocks@.len() - i,
    {
        let block = blocks[i];
        proof {
            assert(blocks@.take(i + 1) =~= blocks@.take(i as int).push(blocks@[i as int]));
            assert(blocks@.take(i + 1).drop_last() =~= blocks@.take(i as int));
        }
        if !indices.contains_key(&block) {
            let ghost old_palette = palette@;
            let ghost old_indices = indices@;
            let idx = palette.len();
            palette.push(block);
            indices.insert(block, idx);
            proof {
                assert(!old_palette.contains(block));
                assert forall|k: int| 0 <= k < palette@.len() implies #[trigger]
                    indices@.contains_key(palette@[k]) && indices@[palette@[k]] == k by {
                    if k < old_palette.len() {
                        assert(old_indices.contains_key(old_palette[k]));
                        assert(palette@[k] == old_palette[k]);
                        assert(palette@[k] != block);
                    } else {
                        assert(palette@[k] == block);
                    }
                }
                assert forall|b: BlockId| #[trigger] indices@.contains_key(b) implies
                    palette@.contains(b) by {
                    if b == block {
                        assert(palette@[idx as int] == b);
                    } else {
                        assert(old_palette.contains(b));
                        let k = choose|k: int| 0 <= k < old_palette.len() && old_palette[k] == b;
                        assert(palette@[k] == b);
                    }
                }
                assert forall|b: BlockId| palette@.contains(b) implies
                    #[trigger] indices@.contains_key(b) by {
                    let k = choose|k: int| 0 <= k < palette@.len() && palette@[k] == b;
                    if k < old_palette.len() {
                        assert(old_palette[k] == b);
                        assert(old_palette.contains(b));
                    } else {
                        assert(b == block);
                    }
                }
            }
        } else {
            proof {
                assert(palette@.contains(block));
                assert(forall|k: int|
                    0 <= k < palette@.len() ==> #[trigger] indices@.contains_key(palette@[k])
                        && indices@[palette@[k]] == k);
            }
        }
        i = i + 1;
    }
    proof {
        assert(blocks@.take(blocks@.len() as int) =~= blocks@);
        assert forall|k1: int, k2: int|
            0 <= k1 < palette@.len() && 0 <= k2 < palette@.len() && k1 != k2 implies palette@[k1]
            != palette@[k2] by {
            if palette@[k1] == palette@[k2] {
                assert(indices@.contains_key(palette@[k1]));
                assert(indices@.contains_key(palette@[k2]));
                assert(indices@[palette@[k1]] == k1);
                assert(indices@[palette@[k2]] == k2);
            }
        }
    }
    (palette, indices)
}

} // verus!
