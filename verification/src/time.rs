//! The tick contract: the law for how time advances.
//!
//! 1. The simulation advances only in fixed steps of `SIM_DT` (60 Hz).
//!    It never samples a wall clock and never uses a variable step, so
//!    `(scene, seed, ticks)` reproduces a checksum exactly.
//! 2. Render paths sample time; they never advance it.
//! 3. Wall-clock time exists only at an interactive boundary, as an
//!    accumulator: each presented frame adds its delta, whole ticks are
//!    taken out of it, and the rest is the interpolation factor.
use vstd::prelude::*;

verus! {

/// Fixed simulation rate in hertz. Budgets and trend baselines were all
/// measured at this rate, so it is a compatibility surface.
pub const TICK_HZ: u32 = 60;

/// Seconds of simulation time per tick, as the bit pattern of the single
/// nearest to `1 / TICK_HZ`: the only step the simulation may use.
pub const SIM_DT: u32 = 0x3C88_8889;

} // verus!
