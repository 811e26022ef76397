//! The tick scheduler: elapsed time accumulates until the interval is
//! reached, then exactly one pass runs.

use vstd::prelude::*;
use crate::grid::Voxel;
use crate::simulation::{logic_pass, pass_result};

verus! {

/// The interval between two passes at start, in milliseconds.
pub const SIMULATION_RATE: u64 = 100;

pub const NANOS_PER_MILLI: u64 = 1_000_000;

/// Accumulates elapsed time, in nanoseconds, against a target interval.
#[derive(Clone, Copy, Debug, PartialEq, Eq, Structural)]
pub struct MyTimer {
    pub duration_nanos: u64,
    pub elapsed_nanos: u64,
}

impl MyTimer {
    pub fn new(duration_nanos: u64) -> (r: MyTimer)
        ensures
            r.duration_nanos == duration_nanos,
            r.elapsed_nanos == 0,
    {
        MyTimer { duration_nanos, elapsed_nanos: 0 }
    }

    /// Changes the interval; the time accumulated so far stays.
    pub fn set_duration(&mut self, duration_nanos: u64)
        ensures
            final(self).duration_nanos == duration_nanos,
            final(self).elapsed_nanos == old(self).elapsed_nanos,
    {
        self.duration_nanos = duration_nanos;
    }

    /// Adds `delta_nanos` to the accumulated time. When the sum reaches the
    /// interval the timer fires and the accumulated time drops to zero; the
    /// excess is not carried over.
    pub fn tick(&mut self, delta_nanos: u64) -> (fired: bool)
        ensures
            fired == (old(self).elapsed_nanos + delta_nanos >= old(self).duration_nanos),
            final(self).duration_nanos == old(self).duration_nanos,
            final(self).elapsed_nanos == if fired {
                0
            } else {
                old(self).elapsed_nanos + delta_nanos
            },
    {
        if self.elapsed_nanos as u128 + delta_nanos as u128 >= self.duration_nanos as u128 {
            self.elapsed_nanos = 0;
            true
        } else {
            self.elapsed_nanos = self.elapsed_nanos + delta_nanos;
            false
        }
    }
}

/// Advances the timer by `delta_nanos` and, when it fires, runs one pass
/// over `world`. Returns whether a pass ran.
pub fn logic_operation_system(world: &mut Voxel, timer: &mut MyTimer, delta_nanos: u64) -> (ran: bool)
    requires
        old(world).wf(),
    ensures
        ran == (old(timer).elapsed_nanos + delta_nanos >= old(timer).duration_nanos),
        final(timer).duration_nanos == old(timer).duration_nanos,
        final(timer).elapsed_nanos == if ran {
            0
        } else {
            old(timer).elapsed_nanos + delta_nanos
        },
        final(world).wf(),
        final(world).positions() == old(world).positions(),
        final(world)@ == if ran {
            pass_result(old(world)@, old(world).positions())
        } else {
            old(world)@
        },
{
    let ran = timer.tick(delta_nanos);
    if ran {
        logic_pass(world);
    }
    ran
}

/// The interval of each speed preset, in milliseconds.
pub open spec fn preset_millis(index: int) -> u64 {
    if index == 1 {
        500
    } else if index == 2 {
        100
    } else if index == 3 {
        10
    } else if index == 4 {
        1
    } else {
        0
    }
}

/// The simulation speed chosen by the player, from 1 to 5.
#[derive(Clone, Copy, Debug, PartialEq, Eq, Structural)]
pub struct SpeedBar {
    pub speed_index: usize,
}

pub open spec fn clamp(v: int, lo: int, hi: int) -> int {
    if v < lo {
        lo
    } else if v > hi {
        hi
    } else {
        v
    }
}

impl SpeedBar {
    pub fn new() -> (r: SpeedBar)
        ensures
            r.speed_index == 1,
    {
        SpeedBar { speed_index: 1 }
    }

    /// One step up when `up` is pressed, else one step down when `down` is
    /// pressed, staying within 1 to 5.
    pub fn adjust(&mut self, up: bool, down: bool)
        ensures
            final(self).speed_index == if up {
                clamp(old(self).speed_index as int, 1, 4) + 1
            } else if down {
                clamp(old(self).speed_index as int, 2, 5) - 1
            } else {
                old(self).speed_index as int
            },
    {
        if up {
            self.speed_index = if self.speed_index < 1 {
                1
            } else if self.speed_index > 4 {
                4
            } else {
                self.speed_index
            } + 1;
        } else if down {
            self.speed_index = if self.speed_index < 2 {
                2
            } else if self.speed_index > 5 {
                5
            } else {
                self.speed_index
            } - 1;
        }
    }
}

/// Sets the interval of `timer` to the preset of `speed_bar`, and returns
/// the preset's index, from 0.
pub fn simulation_speed_widget(speed_bar: &SpeedBar, timer: &mut MyTimer) -> (index: usize)
    requires
        speed_bar.speed_index >= 1,
    ensures
        index == speed_bar.speed_index - 1,
        final(timer).duration_nanos == preset_millis(index as int) * NANOS_PER_MILLI,
        final(timer).elapsed_nanos == old(timer).elapsed_nanos,
{
    let index = speed_bar.speed_index - 1;
    let millis: u64 = match index {
        1 => 500,
        2 => 100,
        3 => 10,
        4 => 1,
        _ => 0,
    };
    timer.set_duration(millis * NANOS_PER_MILLI);
    index
}

} // verus!
