//! The hotbar selection: which kind of voxel the player places next.

use vstd::prelude::*;
use crate::components::TypeVoxel;

verus! {

/// The number of slots in the hotbar.
pub const HOTBAR_ELEMENT_NUMBER: usize = 9;

/// The kind in hotbar slot `index`; the last slot and any later index hold a
/// flip-flop.
pub open spec fn slot_kind(index: int) -> TypeVoxel {
    if index == 0 {
        TypeVoxel::Tile
    } else if index == 1 {
        TypeVoxel::Wire
    } else if index == 2 {
        TypeVoxel::Out
    } else if index == 3 {
        TypeVoxel::Switch
    } else if index == 4 {
        TypeVoxel::And
    } else if index == 5 {
        TypeVoxel::Or
    } else if index == 6 {
        TypeVoxel::Xor
    } else if index == 7 {
        TypeVoxel::Not
    } else {
        TypeVoxel::DFlipFlop
    }
}

#[derive(Clone, Copy, Debug, PartialEq, Eq, Structural)]
pub struct VoxelSelector {
    pub current_index: usize,
}

impl VoxelSelector {
    pub fn new() -> (r: VoxelSelector)
        ensures
            r.current_index == 0,
    {
        VoxelSelector { current_index: 0 }
    }

    /// Moves to the next slot, wrapping after the last.
    pub fn next(&mut self)
        requires
            old(self).current_index < usize::MAX,
        ensures
            final(self).current_index == (old(self).current_index + 1) % (HOTBAR_ELEMENT_NUMBER as int),
    {
        self.current_index = (self.current_index + 1) % HOTBAR_ELEMENT_NUMBER;
    }

    /// Moves to the previous slot, wrapping before the first.
    pub fn previous(&mut self)
        requires
            old(self).current_index + HOTBAR_ELEMENT_NUMBER <= usize::MAX,
        ensures
            final(self).current_index == (old(self).current_index + HOTBAR_ELEMENT_NUMBER - 1) % (
            HOTBAR_ELEMENT_NUMBER as int),
    {
        self.current_index = (self.current_index + HOTBAR_ELEMENT_NUMBER - 1) % HOTBAR_ELEMENT_NUMBER;
    }

    /// The kind in the selected slot.
    pub fn current_voxel_type(&self) -> (r: TypeVoxel)
        ensures
            r == slot_kind(self.current_index as int),
    {
        match self.current_index {
            0 => TypeVoxel::Tile,
            1 => TypeVoxel::Wire,
            2 => TypeVoxel::Out,
            3 => TypeVoxel::Switch,
            4 => TypeVoxel::And,
            5 => TypeVoxel::Or,
            6 => TypeVoxel::Xor,
            7 => TypeVoxel::Not,
            _ => TypeVoxel::DFlipFlop,
        }
    }
}

} // verus!
