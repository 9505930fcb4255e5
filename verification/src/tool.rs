//! The placement tool: a held selection drawn from an inventory slot, and
//! the rule chain that places the selected block into the world next to the
//! drone.

use vstd::prelude::*;

verus! {

use crate::{AIR, BlockId};
use crate::chunk::{ChunkError, local_index};
use crate::chunk_cache::{chunk_pos_of, ChunkCache, local_of, spec_block_at};
use crate::coordinates::WorldCoord;
use crate::inventory::{
    InventorySlot,
    InventorySlots,
    remove_block_from_slot,
    remove_result_spec,
    remove_slots_spec,
    slot_block,
    slot_block_spec,
};

/// The block held by the tool, with the slot it came from and how many
/// units that slot reported.
#[derive(Debug, Clone, Copy, PartialEq, Eq, Structural)]
pub struct ToolSelection {
    pub block: BlockId,
    pub slot_index: usize,
    pub remaining: u32,
}

/// What a successful placement did.
#[derive(Debug, Clone, Copy, PartialEq, Eq, Structural)]
pub struct PlacementOutcome {
    pub placed_block: BlockId,
    pub target: WorldCoord,
    pub remaining_in_slot: u32,
    pub selection_cleared: bool,
}

/// Why a placement was rejected, in the order the rules are checked.
#[derive(Debug, Clone, PartialEq, Eq, Structural)]
pub enum PlacementErrorReason {
    NoSelection,
    SlotEmpty,
    SlotMismatch,
    DifferentLevel,
    TooFar,
    SameTile,
    TargetBlocked,
    TargetUnloaded,
    Chunk(ChunkError),
}

#[derive(Debug, Clone, PartialEq, Eq, Structural)]
pub struct PlacementError {
    pub reason: PlacementErrorReason,
}

/// The user-facing message for each rejection.
pub open spec fn placement_message_spec(reason: PlacementErrorReason) -> Seq<char> {
    match reason {
        PlacementErrorReason::NoSelection => "select a block to place"@,
        PlacementErrorReason::SlotEmpty => "selected slot is empty"@,
        PlacementErrorReason::SlotMismatch => "selected slot changed"@,
        PlacementErrorReason::DifferentLevel => "target must be on the same level"@,
        PlacementErrorReason::TooFar => "target must be adjacent to the drone"@,
        PlacementErrorReason::SameTile => "cannot place on the drone's tile"@,
        PlacementErrorReason::TargetBlocked => "target tile is not empty"@,
        PlacementErrorReason::TargetUnloaded => "target tile is not loaded"@,
        PlacementErrorReason::Chunk(_) => "failed to save placed block"@,
    }
}

impl PlacementError {
    pub fn new(reason: PlacementErrorReason) -> (r: Self)
        ensures
            r.reason == reason,
    {
        Self { reason }
    }

    pub fn message(&self) -> (r: &'static str)
        ensures
            r@ == placement_message_spec(self.reason),
    {
        match self.reason {
            PlacementErrorReason::NoSelection => "select a block to place",
            PlacementErrorReason::SlotEmpty => "selected slot is empty",
            PlacementErrorReason::SlotMismatch => "selected slot changed",
            PlacementErrorReason::DifferentLevel => "target must be on the same level",
            PlacementErrorReason::TooFar => "target must be adjacent to the drone",
            PlacementErrorReason::SameTile => "cannot place on the drone's tile",
            PlacementErrorReason::TargetBlocked => "target tile is not empty",
            PlacementErrorReason::TargetUnloaded => "target tile is not loaded",
            PlacementErrorReason::Chunk(_) => "failed to save placed block",
        }
    }
}

/// The distance between two coordinates on one axis.
pub open spec fn abs_diff(a: int, b: int) -> int {
    if a >= b {
        a - b
    } else {
        b - a
    }
}

/// The rejection a target earns before any inventory or world state is
/// consulted: wrong level, the drone's own tile, or out of reach.
pub open spec fn validate_spec(
    max_distance: i32,
    drone_tile: WorldCoord,
    target_tile: WorldCoord,
) -> Option<PlacementErrorReason> {
    if drone_tile.z != target_tile.z {
        Some(PlacementErrorReason::DifferentLevel)
    } else if target_tile.x == drone_tile.x && target_tile.y == drone_tile.y {
        Some(PlacementErrorReason::SameTile)
    } else if abs_diff(target_tile.x as int, drone_tile.x as int) > max_distance || abs_diff(
        target_tile.y as int,
        drone_tile.y as int,
    ) > max_distance {
        Some(PlacementErrorReason::TooFar)
    } else {
        None
    }
}

/// What the selection becomes after the inventory may have changed: kept
/// with a fresh count while the slot still holds the selected block,
/// dropped otherwise.
pub open spec fn refreshed_selection(
    selection: Option<ToolSelection>,
    slots: Seq<InventorySlot>,
) -> Option<ToolSelection> {
    match selection {
        Some(current) => match slot_block_spec(slots, current.slot_index as int) {
            Some((block, count)) => if block == current.block {
                Some(ToolSelection { block, slot_index: current.slot_index, remaining: count })
            } else {
                None
            },
            None => None,
        },
        None => None,
    }
}

/// The controller holding the current selection and the placement reach.
#[derive(Debug, Clone)]
pub struct ToolController {
    pub selection: Option<ToolSelection>,
    pub max_distance: i32,
}

impl ToolController {
    pub fn new() -> (r: Self)
        ensures
            r.selection is None,
            r.max_distance == 1,
    {
        Self::with_max_distance(1)
    }

    pub fn with_max_distance(max_distance: i32) -> (r: Self)
        ensures
            r.selection is None,
            r.max_distance == if max_distance >= 0 {
                max_distance
            } else {
                0
            },
    {
        Self {
            selection: None,
            max_distance: if max_distance >= 0 {
                max_distance
            } else {
                0
            },
        }
    }

    pub fn selection(&self) -> (r: Option<ToolSelection>)
        ensures
            r == self.selection,
    {
        self.selection
    }

    pub fn clear_selection(&mut self)
        ensures
            final(self).selection is None,
            final(self).max_distance == old(self).max_distance,
    {
        self.selection = None;
    }

    /// Selects from one inventory slot: the selection is taken exactly when
    /// the slot holds a positive count of some block.
    pub fn select_from_inventory(&mut self, slots: &InventorySlots, slot_index: usize) -> (r:
        Option<ToolSelection>)
        ensures
            final(self).max_distance == old(self).max_distance,
            r == final(self).selection,
            final(self).selection == match slot_block_spec(slots@, slot_index as int) {
                Some((block, remaining)) => Some(ToolSelection { block, slot_index, remaining }),
                None => None::<ToolSelection>,
            },
    {
        let selection = match slot_block(slots, slot_index) {
            Some((block, remaining)) => Some(ToolSelection { block, slot_index, remaining }),
            None => None,
        };
        self.selection = selection;
        selection
    }

    /// Re-reads the selected slot, keeping the selection only while the slot
    /// still holds the selected block.
    pub fn refresh_from_inventory(&mut self, slots: &InventorySlots)
        ensures
            final(self).max_distance == old(self).max_distance,
            final(self).selection == refreshed_selection(old(self).selection, slots@),
    {
        match self.selection {
            Some(current) => {
                let refreshed = match slot_block(slots, current.slot_index) {
                    Some((block, count)) => {
                        if block == current.block {
                            Some(
                                ToolSelection {
                                    block,
                                    slot_index: current.slot_index,
                                    remaining: count,
                                },
                            )
                        } else {
                            None
                        }
                    },
                    None => None,
                };
                self.selection = refreshed;
            },
            None => (),
        }
    }

    fn validate_target(&self, drone_tile: WorldCoord, target_tile: WorldCoord) -> (r: Result<
        (),
        PlacementError,
    >)
        ensures
            r == match validate_spec(self.max_distance, drone_tile, target_tile) {
                Some(reason) => Err::<(), PlacementError>(PlacementError { reason }),
                None => Ok::<(), PlacementError>(()),
            },
    {
        if drone_tile.z != target_tile.z {
            return Err(PlacementError::new(PlacementErrorReason::DifferentLevel));
        }

        let dx64 = if target_tile.x >= drone_tile.x {
            (target_tile.x as i64) - (drone_tile.x as i64)
        } else {
            (drone_tile.x as i64) - (target_tile.x as i64)
        };
        let dy64 = if target_tile.y >= drone_tile.y {
            (target_tile.y as i64) - (drone_tile.y as i64)
        } else {
            (drone_tile.y as i64) - (target_tile.y as i64)
        };

        if dx64 == 0 && dy64 == 0 {
            return Err(PlacementError::new(PlacementErrorReason::SameTile));
        }

        if dx64 > self.max_distance as i64 || dy64 > self.max_distance as i64 {
            return Err(PlacementError::new(PlacementErrorReason::TooFar));
        }

        Ok(())
    }

    /// Places the selected block at the target tile: the target must pass
    /// the reach rules, be loaded and empty, and the selected slot must
    /// still yield the selected block; on success the one voxel is written,
    /// one unit leaves the slot, and the selection is refreshed.
    pub fn place_selected_block(
        &mut self,
        slots: &mut InventorySlots,
        chunk_cache: &mut ChunkCache,
        drone_tile: WorldCoord,
        target_tile: WorldCoord,
    ) -> (r: Result<PlacementOutcome, PlacementError>)
        requires
            old(chunk_cache).wf(),
        ensures
            final(chunk_cache).wf(),
            final(self).max_distance == old(self).max_distance,
            ({
                let sel = old(self).selection;
                let validated = validate_spec(old(self).max_distance, drone_tile, target_tile);
                let current = spec_block_at(old(chunk_cache).spec_chunks(), target_tile);
                if sel is None {
                    &&& r == Err::<PlacementOutcome, PlacementError>(
                        PlacementError { reason: PlacementErrorReason::NoSelection },
                    )
                    &&& *final(self) == *old(self)
                    &&& final(slots)@ == old(slots)@
                    &&& *final(chunk_cache) == *old(chunk_cache)
                } else if validated is Some {
                    &&& r == Err::<PlacementOutcome, PlacementError>(
                        PlacementError { reason: validated->Some_0 },
                    )
                    &&& *final(self) == *old(self)
                    &&& final(slots)@ == old(slots)@
                    &&& *final(chunk_cache) == *old(chunk_cache)
                } else if current is None {
                    &&& r == Err::<PlacementOutcome, PlacementError>(
                        PlacementError { reason: PlacementErrorReason::TargetUnloaded },
                    )
                    &&& *final(self) == *old(self)
                    &&& final(slots)@ == old(slots)@
                    &&& *final(chunk_cache) == *old(chunk_cache)
                } else if current != Some(AIR) {
                    &&& r == Err::<PlacementOutcome, PlacementError>(
                        PlacementError { reason: PlacementErrorReason::TargetBlocked },
                    )
                    &&& *final(self) == *old(self)
                    &&& final(slots)@ == old(slots)@
                    &&& *final(chunk_cache) == *old(chunk_cache)
                } else {
                    let s = sel->Some_0;
                    let removed = remove_result_spec(old(slots)@, s.slot_index as int);
                    let new_slots = remove_slots_spec(old(slots)@, s.slot_index as int);
                    &&& final(slots)@ == new_slots
                    &&& final(self).selection == refreshed_selection(sel, new_slots)
                    &&& if removed is None {
                        &&& r == Err::<PlacementOutcome, PlacementError>(
                            PlacementError { reason: PlacementErrorReason::SlotEmpty },
                        )
                        &&& *final(chunk_cache) == *old(chunk_cache)
                    } else if removed != Some(s.block) {
                        &&& r == Err::<PlacementOutcome, PlacementError>(
                            PlacementError { reason: PlacementErrorReason::SlotMismatch },
                        )
                        &&& *final(chunk_cache) == *old(chunk_cache)
                    } else {
                        &&& r matches Ok(outcome) && outcome.placed_block == s.block
                            && outcome.target == target_tile && outcome.selection_cleared == (
                        final(self).selection is None)
                        &&& final(chunk_cache).spec_chunks() == old(
                            chunk_cache,
                        ).spec_chunks().insert(
                            chunk_pos_of(target_tile),
                            final(chunk_cache).spec_chunks()[chunk_pos_of(target_tile)],
                        )
                        &&& final(chunk_cache).spec_chunks()[chunk_pos_of(
                            target_tile,
                        )].block_seq() == old(chunk_cache).spec_chunks()[chunk_pos_of(
                            target_tile,
                        )].block_seq().update(local_index(local_of(target_tile)), s.block)
                        &&& final(chunk_cache).spec_chunks()[chunk_pos_of(target_tile)].changed
                            == true
                    }
                }
            }),
    {
        let selection = match self.selection {
            Some(selection) => selection,
            None => {
                return Err(PlacementError::new(PlacementErrorReason::NoSelection));
            },
        };

        match self.validate_target(drone_tile, target_tile) {
            Ok(_) => (),
            Err(e) => {
                return Err(e);
            },
        }

        let current_block = match chunk_cache.block_at_world(target_tile) {
            Some(block) => block,
            None => {
                return Err(PlacementError::new(PlacementErrorReason::TargetUnloaded));
            },
        };
        if current_block != AIR {
            return Err(PlacementError::new(PlacementErrorReason::TargetBlocked));
        }

        let removed_block = match remove_block_from_slot(slots, selection.slot_index) {
            Some(block) => block,
            None => {
                self.refresh_from_inventory(slots);
                return Err(PlacementError::new(PlacementErrorReason::SlotEmpty));
            },
        };

        if removed_block != selection.block {
            self.refresh_from_inventory(slots);
            return Err(PlacementError::new(PlacementErrorReason::SlotMismatch));
        }

        match chunk_cache.set_block(target_tile, removed_block) {
            Ok(_) => (),
            Err(e) => {
                return Err(PlacementError::new(PlacementErrorReason::Chunk(e)));
            },
        }
        self.refresh_from_inventory(slots);

        let remaining_in_slot = match slot_block(slots, selection.slot_index) {
            Some((block, count)) => {
                if block == selection.block {
                    count
                } else {
                    0
                }
            },
            None => 0,
        };

        let selection_cleared = self.selection.is_none();

        Ok(
            PlacementOutcome {
                placed_block: removed_block,
                target: target_tile,
                remaining_in_slot,
                selection_cleared,
            },
        )
    }
}

} // verus!
