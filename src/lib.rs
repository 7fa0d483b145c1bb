//! Simulation core of a top-down survival game: a player avatar moves under
//! directional input and fires projectiles, enemies steer toward it, and waves
//! of enemies grow harder as they are cleared.
//!
//! All positions are fixed-point integers: one arena unit is `SCALE`
//! fixed-point steps (see `geometry`).

pub mod geometry;
pub mod game;

use vstd::prelude::*;

verus! {

/// Which direction keys are held down, as sampled once per tick.
#[derive(Clone, Copy, Debug)]
pub struct PressedKeys {
    pub right: bool,
    pub left: bool,
    pub up: bool,
    pub down: bool,
}

impl Default for PressedKeys {
    /// No key held.
    fn default() -> (r: PressedKeys)
        ensures
            !r.right && !r.left && !r.up && !r.down,
    {
        PressedKeys { right: false, left: false, up: false, down: false }
    }
}

} // verus!
