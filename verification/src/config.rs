//! Immutable physical constants of a simulation run.

use crate::fixed::SCALE;
use vstd::prelude::*;

verus! {

/// Largest admissible gravity magnitude (a thousand world units per second
/// squared), a machine limit of the fixed-point representation.
pub const GRAVITY_LIMIT: i64 = 1000000;

/// Gravity, restitution and friction, fixed for the whole run.
pub struct Physics {
    /// Vertical acceleration in world units per second squared; negative is
    /// downward.
    pub gravity: i64,
    /// Fraction of normal velocity retained on a bounce, in `[0, SCALE]`.
    pub restitution: i64,
    /// Tangential damping applied only on floor contact, in `[0, SCALE]`.
    pub friction: i64,
}

/// The constants a run may use: restitution and friction are proper
/// fractions, gravity's magnitude stays representable.
pub open spec fn physics_wf(p: Physics) -> bool {
    &&& -GRAVITY_LIMIT <= p.gravity <= GRAVITY_LIMIT
    &&& 0 <= p.restitution <= SCALE
    &&& 0 <= p.friction <= SCALE
}

impl Default for Physics {
    /// Earth-like gravity, a fairly bouncy restitution, light floor friction.
    fn default() -> (r: Self)
        ensures
            r.gravity == -9800,
            r.restitution == 700,
            r.friction == 990,
            physics_wf(r),
    {
        Physics { gravity: -9800, restitution: 700, friction: 990 }
    }
}

} // verus!
