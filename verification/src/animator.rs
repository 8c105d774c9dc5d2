use vstd::prelude::*;
use crate::cell::Grid;
use crate::effect::Effect;

verus! {

/// Plays one effect over a grid of cells for a given time.
pub struct Animator {
    pub grid: Grid,
    pub effect: Effect,
    /// Length of the effect, in nanoseconds.
    pub duration_nanos: u64,
}

impl Animator {
    pub fn new(grid: Grid, effect: Effect, duration_nanos: u64) -> (a: Animator)
        ensures
            a.grid == grid,
            a.effect == effect,
            a.duration_nanos == duration_nanos,
    {
        Animator { grid, effect, duration_nanos }
    }
}

} // verus!
