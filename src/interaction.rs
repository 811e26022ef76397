//! The player's commands on the grid: what the looked-at voxel is, and the
//! placement, removal and switch toggles that clicks ask for.

use vstd::prelude::*;
use crate::components::{Coord, TypeVoxel};
use crate::grid::{Cells, Voxel};
use crate::scheduler::SpeedBar;
use crate::selector::{slot_kind, VoxelSelector};

verus! {

/// The voxel the player looks at: its position, the empty position in front
/// of the face looked at, whether it is within reach, and its kind and
/// signal when there is a voxel there.
#[derive(Clone, Copy, Debug, PartialEq, Eq, Structural)]
pub struct VoxelInfo {
    pub position: Coord,
    pub adjacent: Coord,
    pub voxel_type: Option<TypeVoxel>,
    pub in_range: bool,
    pub is_on: Option<bool>,
}

impl VoxelInfo {
    pub fn new() -> (r: VoxelInfo)
        ensures
            r.position == (Coord { x: 0, y: 0, z: 0 }),
            r.adjacent == (Coord { x: 0, y: 0, z: 0 }),
            r.voxel_type.is_none(),
            !r.in_range,
            r.is_on.is_none(),
    {
        VoxelInfo {
            position: Coord { x: 0, y: 0, z: 0 },
            adjacent: Coord { x: 0, y: 0, z: 0 },
            voxel_type: None,
            in_range: false,
            is_on: None,
        }
    }

    fn reset_voxel_info(&mut self)
        ensures
            final(self).voxel_type.is_none(),
            final(self).is_on.is_none(),
            final(self).position == old(self).position,
            final(self).adjacent == old(self).adjacent,
            final(self).in_range == old(self).in_range,
    {
        self.is_on = None;
        self.voxel_type = None;
    }

    /// Takes in what a ray from the camera hit, as (position, adjacent
    /// position, within reach), and looks the position up in `world`. When
    /// nothing was hit, only the kind and signal are cleared.
    pub fn update_info(&mut self, world: &Voxel, hit: Option<(Coord, Coord, bool)>)
        requires
            world.wf(),
        ensures
            match hit {
                Some((p, a, r)) => {
                    &&& final(self).position == p
                    &&& final(self).adjacent == a
                    &&& final(self).in_range == r
                    &&& final(self).voxel_type == if world@.contains_key(p) {
                        Some(world@[p].0)
                    } else {
                        None
                    }
                    &&& final(self).is_on == if world@.contains_key(p) {
                        Some(world@[p].1)
                    } else {
                        None
                    }
                },
                None => {
                    &&& final(self).position == old(self).position
                    &&& final(self).adjacent == old(self).adjacent
                    &&& final(self).in_range == old(self).in_range
                    &&& final(self).voxel_type.is_none()
                    &&& final(self).is_on.is_none()
                },
            },
    {
        match hit {
            Some((position, adjacent, in_range)) => {
                self.position = position;
                self.adjacent = adjacent;
                self.in_range = in_range;
                match world.get(position) {
                    Some((kind, state)) => {
                        self.is_on = Some(state.0);
                        self.voxel_type = Some(kind);
                    },
                    None => self.reset_voxel_info(),
                }
            },
            None => self.reset_voxel_info(),
        }
    }
}

/// The player's input in one frame, as the host reads it.
#[derive(Clone, Copy, Debug, PartialEq, Eq, Structural)]
pub struct InteractionInput {
    /// The primary button was pressed this frame.
    pub primary_pressed: bool,
    /// The primary button is held and its repeat delay has run out.
    pub primary_repeat: bool,
    /// The secondary button was pressed this frame, or is held and its
    /// repeat delay has run out.
    pub secondary: bool,
    /// The modifier key is held.
    pub modifier: bool,
    pub speed_up: bool,
    pub speed_down: bool,
}

/// `g` after the placement that `input` asks for.
pub open spec fn after_place(g: Cells, info: VoxelInfo, selector: VoxelSelector, input: InteractionInput) -> Cells {
    if info.in_range && (input.primary_pressed || input.primary_repeat) && !input.modifier {
        g.insert(info.adjacent, (slot_kind(selector.current_index as int), false))
    } else {
        g
    }
}

/// `g` after the switch toggle that `input` asks for.
pub open spec fn after_toggle(g: Cells, info: VoxelInfo, input: InteractionInput) -> Cells {
    if info.in_range && input.primary_pressed && input.modifier && info.voxel_type == Some(
        TypeVoxel::Switch,
    ) && info.is_on.is_some() && g.contains_key(info.position) && g[info.position].0
        == TypeVoxel::Switch {
        g.insert(info.position, (TypeVoxel::Switch, !info.is_on.unwrap()))
    } else {
        g
    }
}

/// `g` after the removal that `input` asks for.
pub open spec fn after_remove(g: Cells, info: VoxelInfo, input: InteractionInput) -> Cells {
    if info.in_range && input.secondary {
        g.remove(info.position)
    } else {
        g
    }
}

/// Applies one frame of player input: the speed keys move the speed bar; when
/// the looked-at voxel is in reach, a primary click without the modifier
/// places the selected kind in front of it, a primary click with the
/// modifier flips it if it is a switch, and a secondary click removes it.
pub fn voxel_interaction_system(
    world: &mut Voxel,
    info: &VoxelInfo,
    voxel_selector: &VoxelSelector,
    speed_bar: &mut SpeedBar,
    input: &InteractionInput,
)
    requires
        old(world).wf(),
    ensures
        final(world).wf(),
        final(world)@ == after_remove(
            after_toggle(after_place(old(world)@, *info, *voxel_selector, *input), *info, *input),
            *info,
            *input,
        ),
        final(speed_bar).speed_index == if input.speed_up {
            crate::scheduler::clamp(old(speed_bar).speed_index as int, 1, 4) + 1
        } else if input.speed_down {
            crate::scheduler::clamp(old(speed_bar).speed_index as int, 2, 5) - 1
        } else {
            old(speed_bar).speed_index as int
        },
{
    speed_bar.adjust(input.speed_up, input.speed_down);
    if info.in_range {
        if (input.primary_pressed || input.primary_repeat) && !input.modifier {
            world.place(info.adjacent, voxel_selector, false);
        }
        if let (Some(state), Some(TypeVoxel::Switch)) = (info.is_on, info.voxel_type) {
            if input.primary_pressed && input.modifier {
                world.set_state(info.position, !state);
            }
        }
        if input.secondary {
            world.remove(info.position);
        }
    }
}

} // verus!
