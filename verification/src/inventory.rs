//! A drone's inventory: a fixed number of slots, each holding at most one
//! block type with a count, capped by a total unit capacity.

use vstd::prelude::*;

verus! {

use crate::BlockId;

/// Slots per inventory.
pub const INVENTORY_SLOTS: usize = 10;
/// Total units an inventory can hold across all slots.
pub const MAX_INVENTORY_UNITS: u32 = 64;

/// One inventory slot: a block type and how many units of it are held.
#[derive(Clone, Copy, Debug, PartialEq, Eq, Structural)]
pub struct InventorySlot {
    pub block: Option<BlockId>,
    pub count: u32,
}

impl Default for InventorySlot {
    /// An empty slot.
    fn default() -> (r: Self)
        ensures
            r.block is None,
            r.count == 0,
    {
        InventorySlot { block: None, count: 0 }
    }
}

pub type InventorySlots = [InventorySlot; INVENTORY_SLOTS];

/// The units held across the first `n` slots.
pub open spec fn unit_count_prefix(slots: Seq<InventorySlot>, n: int) -> int
    decreases n,
{
    if n <= 0 {
        0
    } else {
        unit_count_prefix(slots, n - 1) + slots[n - 1].count
    }
}

/// The units held across all slots.
pub open spec fn unit_count_spec(slots: Seq<InventorySlot>) -> int {
    unit_count_prefix(slots, slots.len() as int)
}

/// Every slot's count is bounded by the whole inventory's unit count.
pub proof fn lemma_unit_count_bounds(slots: Seq<InventorySlot>, i: int, n: int)
    requires
        0 <= i < n <= slots.len(),
    ensures
        slots[i].count <= unit_count_prefix(slots, n),
        unit_count_prefix(slots, n) >= 0,
    decreases n,
{
    if i == n - 1 {
        lemma_unit_count_nonneg(slots, n - 1);
    } else {
        lemma_unit_count_bounds(slots, i, n - 1);
    }
}

/// A sum of counts is never negative.
pub proof fn lemma_unit_count_nonneg(slots: Seq<InventorySlot>, n: int)
    ensures
        unit_count_prefix(slots, n) >= 0,
    decreases n,
{
    if n > 0 {
        lemma_unit_count_nonneg(slots, n - 1);
    }
}

/// Updating one slot changes the unit count by that slot's difference.
pub proof fn lemma_unit_count_update(slots: Seq<InventorySlot>, i: int, v: InventorySlot, n: int)
    requires
        0 <= i < slots.len(),
        n <= slots.len(),
    ensures
        i < n ==> unit_count_prefix(slots.update(i, v), n) == unit_count_prefix(slots, n)
            - slots[i].count + v.count,
        i >= n ==> unit_count_prefix(slots.update(i, v), n) == unit_count_prefix(slots, n),
    decreases n,
{
    if n > 0 {
        lemma_unit_count_update(slots, i, v, n - 1);
    }
}

/// A fresh, fully empty inventory.
pub fn empty_inventory() -> (r: InventorySlots)
    ensures
        forall|i: int| 0 <= i < INVENTORY_SLOTS ==> r@[i].block is None && r@[i].count == 0,
        unit_count_spec(r@) == 0,
{
    let slot = InventorySlot::default();
    let r = [slot, slot, slot, slot, slot, slot, slot, slot, slot, slot];
    proof {
        assert forall|n: int| 0 <= n <= INVENTORY_SLOTS implies unit_count_prefix(r@, n) == 0 by {
            lemma_unit_count_zero(r@, n);
        }
    }
    r
}

proof fn lemma_unit_count_zero(slots: Seq<InventorySlot>, n: int)
    requires
        n <= slots.len(),
        forall|i: int| 0 <= i < slots.len() ==> slots[i].count == 0,
    ensures
        unit_count_prefix(slots, n) == 0,
    decreases n,
{
    if n > 0 {
        lemma_unit_count_zero(slots, n - 1);
    }
}

/// What `slot_block` reports for one slot.
pub open spec fn slot_block_spec(slots: Seq<InventorySlot>, slot_index: int) -> Option<
    (BlockId, u32),
> {
    if 0 <= slot_index < slots.len() && slots[slot_index].block is Some
        && slots[slot_index].count > 0 {
        Some((slots[slot_index].block->Some_0, slots[slot_index].count))
    } else {
        None
    }
}

/// What `remove_block_from_slot` returns for one slot.
pub open spec fn remove_result_spec(slots: Seq<InventorySlot>, slot_index: int) -> Option<
    BlockId,
> {
    if 0 <= slot_index < slots.len() && slots[slot_index].count > 0 {
        slots[slot_index].block
    } else {
        None
    }
}

/// The slots left behind by `remove_block_from_slot`.
pub open spec fn remove_slots_spec(slots: Seq<InventorySlot>, slot_index: int) -> Seq<
    InventorySlot,
> {
    if !(0 <= slot_index < slots.len()) {
        slots
    } else {
        let s = slots[slot_index];
        if s.count == 0 {
            slots.update(slot_index, InventorySlot { block: None, count: 0u32 })
        } else {
            slots.update(
                slot_index,
                InventorySlot {
                    block: if s.count == 1 {
                        None
                    } else {
                        s.block
                    },
                    count: (s.count - 1) as u32,
                },
            )
        }
    }
}

/// The block and count held in one slot, when the slot index is valid, the
/// slot holds a block, and its count is positive.
pub fn slot_block(slots: &InventorySlots, slot_index: usize) -> (r: Option<(BlockId, u32)>)
    ensures
        r == slot_block_spec(slots@, slot_index as int),
{
    if slot_index >= INVENTORY_SLOTS {
        return None;
    }
    let slot = slots[slot_index];
    match slot.block {
        Some(block) => {
            if slot.count > 0 {
                Some((block, slot.count))
            } else {
                None
            }
        },
        None => None,
    }
}

/// Removes one unit from a slot: the count drops by one and the slot is
/// cleared once it reaches zero. Returns the block removed, or `None` when
/// the index is invalid or the slot was already empty.
pub fn remove_block_from_slot(slots: &mut InventorySlots, slot_index: usize) -> (r: Option<
    BlockId,
>)
    ensures
        r == remove_result_spec(old(slots)@, slot_index as int),
        final(slots)@ == remove_slots_spec(old(slots)@, slot_index as int),
{
    if slot_index >= INVENTORY_SLOTS {
        proof {
            assert(final(slots)@ =~= old(slots)@);
        }
        return None;
    }
    let slot = slots[slot_index];
    if slot.count == 0 {
        slots[slot_index] = InventorySlot { block: None, count: 0 };
        return None;
    }
    let new_count = slot.count - 1;
    let block = slot.block;
    slots[slot_index] = InventorySlot {
        block: if new_count == 0 {
            None
        } else {
            slot.block
        },
        count: new_count,
    };
    block
}

/// The total units held across the whole inventory.
pub fn inventory_unit_count(slots: &InventorySlots) -> (r: u32)
    requires
        unit_count_spec(slots@) <= u32::MAX,
    ensures
        r == unit_count_spec(slots@),
{
    let mut total: u32 = 0;
    let mut i: usize = 0;
    while i < INVENTORY_SLOTS
        invariant
            i <= INVENTORY_SLOTS,
            unit_count_spec(slots@) <= u32::MAX,
            total == unit_count_prefix(slots@, i as int),
        decreases INVENTORY_SLOTS - i,
    {
        proof {
            lemma_unit_count_nonneg(slots@, i as int);
            lemma_unit_count_step_bound(slots@, i as int + 1, INVENTORY_SLOTS as int);
        }
        total = total + slots[i].count;
        i = i + 1;
    }
    total
}

/// A prefix of the unit count never exceeds the whole.
proof fn lemma_unit_count_step_bound(slots: Seq<InventorySlot>, n: int, m: int)
    requires
        0 <= n <= m <= slots.len(),
    ensures
        unit_count_prefix(slots, n) <= unit_count_prefix(slots, m),
    decreases m,
{
    if n < m {
        lemma_unit_count_nonneg(slots, m - 1);
        lemma_unit_count_step_bound(slots, n, m - 1);
    }
}

/// Adds one unit of `block`: stacks onto the first slot already holding that
/// block, else fills the first empty slot; fails when the inventory is at
/// its unit capacity or no slot can take the block.
pub fn add_block_to_slots(slots: &mut InventorySlots, block: BlockId) -> (r: bool)
    requires
        unit_count_spec(old(slots)@) <= u32::MAX,
    ensures
        !r ==> final(slots)@ == old(slots)@,
        !r ==> unit_count_spec(old(slots)@) >= MAX_INVENTORY_UNITS || (forall|i: int|
            0 <= i < INVENTORY_SLOTS ==> (#[trigger] old(slots)@[i]).block != Some(block)
                && old(slots)@[i].block is Some),
        r ==> unit_count_spec(old(slots)@) < MAX_INVENTORY_UNITS,
        r ==> exists|i: int|
            {
                &&& 0 <= i < INVENTORY_SLOTS
                &&& final(slots)@ == old(slots)@.update(i, (#[trigger] final(slots)@[i]))
                &&& final(slots)@[i].block == Some(block)
                &&& (old(slots)@[i].block == Some(block) && final(slots)@[i].count == old(
                    slots,
                )@[i].count + 1 || old(slots)@[i].block is None && final(slots)@[i].count == 1)
            },
{
    if inventory_unit_count(slots) >= MAX_INVENTORY_UNITS {
        proof {
            assert(final(slots)@ =~= old(slots)@);
        }
        return false;
    }
    let mut i: usize = 0;
    while i < INVENTORY_SLOTS
        invariant
            i <= INVENTORY_SLOTS,
            slots@ == old(slots)@,
            unit_count_spec(old(slots)@) < MAX_INVENTORY_UNITS,
            forall|j: int| 0 <= j < i ==> (#[trigger] slots@[j]).block != Some(block),
        decreases INVENTORY_SLOTS - i,
    {
        let slot = slots[i];
        if slot.block == Some(block) {
            proof {
                lemma_unit_count_bounds(slots@, i as int, INVENTORY_SLOTS as int);
            }
            let updated = InventorySlot { block: slot.block, count: slot.count + 1 };
            slots[i] = updated;
            proof {
                lemma_unit_count_update(old(slots)@, i as int, updated, INVENTORY_SLOTS as int);
                assert(slots@ == old(slots)@.update(i as int, slots@[i as int]));
                assert(slots@[i as int].block == Some(block));
            }
            return true;
        }
        i = i + 1;
    }
    let mut j: usize = 0;
    while j < INVENTORY_SLOTS
        invariant
            j <= INVENTORY_SLOTS,
            slots@ == old(slots)@,
            unit_count_spec(old(slots)@) < MAX_INVENTORY_UNITS,
            forall|k: int| 0 <= k < INVENTORY_SLOTS ==> (#[trigger] slots@[k]).block != Some(block),
            forall|k: int| 0 <= k < j ==> (#[trigger] slots@[k]).block is Some,
        decreases INVENTORY_SLOTS - j,
    {
        let slot = slots[j];
        if slot.block.is_none() {
            let updated = InventorySlot { block: Some(block), count: 1 };
            slots[j] = updated;
            proof {
                lemma_unit_count_update(old(slots)@, j as int, updated, INVENTORY_SLOTS as int);
                assert(slots@ == old(slots)@.update(j as int, slots@[j as int]));
                assert(slots@[j as int].block == Some(block));
            }
            return true;
        }
        j = j + 1;
    }
    proof {
        assert(final(slots)@ =~= old(slots)@);
    }
    false
}

} // verus!
