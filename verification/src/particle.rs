//! Particle state, motion integration, and boundary collision response.

use crate::boundary::{boundary_wf, Boundary};
use crate::config::{physics_wf, Physics};
use crate::fixed::{abs_s, fmul, fmul_s, lemma_fmul_contract, SCALE};
use vstd::prelude::*;

verus! {

/// Largest admissible particle radius (a thousand world units), a machine
/// limit of the fixed-point representation.
pub const RADIUS_LIMIT: i64 = 1000000;

/// Smallest admissible mass (one world unit of mass); below it a reciprocal
/// would not be representable.
pub const MASS_MIN: i64 = 1000;

/// Largest admissible mass (a thousand world units of mass); above it the
/// reciprocal used by the impulse would truncate to zero.
pub const MASS_MAX: i64 = 1000000;

/// Magnitude up to which positions and velocities may be integrated without
/// leaving the representable range.
pub const COORD_RANGE: i64 = 4000000000000000000;

/// Speed below which a floor bounce comes to rest instead of rebounding.
pub const VELOCITY_THRESHOLD: i64 = 100;

/// A two-dimensional vector of fixed-point scalars.
#[derive(Clone, Copy, Debug, PartialEq, Eq, Structural)]
pub struct Vec2 {
    pub x: i64,
    pub y: i64,
}

impl Vec2 {
    pub fn new(x: i64, y: i64) -> (r: Vec2)
        ensures
            r.x == x,
            r.y == y,
    {
        Vec2 { x, y }
    }
}

/// A rigid disk: position and velocity in world units, positive radius and
/// mass, and an appearance word that the physics never reads.
#[derive(Clone, Copy, Debug, PartialEq, Eq, Structural)]
pub struct Particle {
    pub position: Vec2,
    pub velocity: Vec2,
    pub radius: i64,
    pub mass: i64,
    pub appearance: u32,
}

/// The mathematical state of one particle.
pub ghost struct PState {
    pub px: int,
    pub py: int,
    pub vx: int,
    pub vy: int,
    pub radius: int,
    pub mass: int,
    pub appearance: int,
}

impl View for Particle {
    type V = PState;

    open spec fn view(&self) -> PState {
        PState {
            px: self.position.x as int,
            py: self.position.y as int,
            vx: self.velocity.x as int,
            vy: self.velocity.y as int,
            radius: self.radius as int,
            mass: self.mass as int,
            appearance: self.appearance as int,
        }
    }
}

/// The construction-time invariant: positive representable radius, mass in
/// the representable band.
pub open spec fn particle_wf(s: PState) -> bool {
    &&& 0 < s.radius <= RADIUS_LIMIT
    &&& MASS_MIN <= s.mass <= MASS_MAX
}

/// Position and velocity small enough to integrate without overflow.
pub open spec fn in_coord_range(s: PState) -> bool {
    &&& abs_s(s.px) <= COORD_RANGE
    &&& abs_s(s.py) <= COORD_RANGE
    &&& abs_s(s.vx) <= COORD_RANGE
    &&& abs_s(s.vy) <= COORD_RANGE
}

/// One semi-implicit Euler step: gravity changes the vertical velocity
/// first, then the already-updated velocity moves the position.
pub open spec fn integrate_s(s: PState, gravity: int, dt: int) -> PState {
    let vy = s.vy + fmul_s(gravity, dt);
    PState {
        px: s.px + fmul_s(s.vx, dt),
        py: s.py + fmul_s(vy, dt),
        vy: vy,
        ..s
    }
}

/// The state after boundary contact.  The vertical check comes first: floor
/// contact clamps, damps the tangential velocity by friction and reflects a
/// downward velocity with restitution, coming to rest below the threshold;
/// ceiling contact clamps and reflects an upward velocity with restitution
/// only.  The horizontal check then acts on the (possibly damped) state,
/// clamping at one wall at most and reflecting with restitution, with no
/// threshold and no friction.
pub open spec fn boundary_response(s: PState, b: Boundary, restitution: int, friction: int) -> PState {
    let min_x = b.left + s.radius;
    let max_x = b.right - s.radius;
    let min_y = b.bottom + s.radius;
    let max_y = b.top - s.radius;
    let v = if s.py <= min_y {
        let vx = fmul_s(s.vx, friction);
        let vy = if s.vy < 0 {
            let w = fmul_s(-s.vy, restitution);
            if abs_s(w) < VELOCITY_THRESHOLD {
                0
            } else {
                w
            }
        } else {
            s.vy
        };
        PState { py: min_y, vx: vx, vy: vy, ..s }
    } else if s.py >= max_y {
        let vy = if s.vy > 0 {
            fmul_s(-s.vy, restitution)
        } else {
            s.vy
        };
        PState { py: max_y, vy: vy, ..s }
    } else {
        s
    };
    if v.px <= min_x {
        let vx = if v.vx < 0 {
            fmul_s(-v.vx, restitution)
        } else {
            v.vx
        };
        PState { px: min_x, vx: vx, ..v }
    } else if v.px >= max_x {
        let vx = if v.vx > 0 {
            fmul_s(-v.vx, restitution)
        } else {
            v.vx
        };
        PState { px: max_x, vx: vx, ..v }
    } else {
        v
    }
}

impl Particle {
    pub fn new(position: Vec2, velocity: Vec2, radius: i64, mass: i64, appearance: u32) -> (r: Particle)
        requires
            0 < radius <= RADIUS_LIMIT,
            MASS_MIN <= mass <= MASS_MAX,
        ensures
            r.position == position,
            r.velocity == velocity,
            r.radius == radius,
            r.mass == mass,
            r.appearance == appearance,
            particle_wf(r@),
    {
        Particle { position, velocity, radius, mass, appearance }
    }

    /// Advance this particle's motion by `dt` under gravity, touching no
    /// other particle and doing no clamping.
    pub fn update(&mut self, physics: &Physics, dt: i64)
        requires
            physics_wf(*physics),
            0 < dt <= SCALE,
            in_coord_range(old(self)@),
        ensures
            final(self)@ == integrate_s(old(self)@, physics.gravity as int, dt as int),
    {
        proof {
            lemma_fmul_contract(physics.gravity as int, dt as int);
        }
        let g_dt = fmul(physics.gravity, dt);
        self.velocity.y = self.velocity.y + g_dt;
        proof {
            lemma_fmul_contract(self.velocity.x as int, dt as int);
            lemma_fmul_contract(self.velocity.y as int, dt as int);
        }
        let step_x = fmul(self.velocity.x, dt);
        let step_y = fmul(self.velocity.y, dt);
        self.position.x = self.position.x + step_x;
        self.position.y = self.position.y + step_y;
    }

    /// Clamp this particle into the boundary rectangle and reflect its
    /// velocity, vertical check first, exactly as [`boundary_response`]
    /// states.
    pub fn handle_boundary_collision(&mut self, physics: &Physics, bounds: &Boundary)
        requires
            physics_wf(*physics),
            boundary_wf(*bounds),
            particle_wf(old(self)@),
            in_coord_range(old(self)@),
        ensures
            final(self)@ == boundary_response(
                old(self)@,
                *bounds,
                physics.restitution as int,
                physics.friction as int,
            ),
    {
        let min_x = bounds.left + self.radius;
        let max_x = bounds.right - self.radius;
        let min_y = bounds.bottom + self.radius;
        let max_y = bounds.top - self.radius;

        if self.position.y <= min_y {
            self.position.y = min_y;
            proof {
                lemma_fmul_contract(self.velocity.x as int, physics.friction as int);
            }
            self.velocity.x = fmul(self.velocity.x, physics.friction);
            if self.velocity.y < 0 {
                proof {
                    lemma_fmul_contract(-(self.velocity.y as int), physics.restitution as int);
                }
                let w = fmul(-self.velocity.y, physics.restitution);
                let wa = if w < 0 {
                    -w
                } else {
                    w
                };
                if wa < VELOCITY_THRESHOLD {
                    self.velocity.y = 0;
                } else {
                    self.velocity.y = w;
                }
            }
        } else if self.position.y >= max_y {
            self.position.y = max_y;
            if self.velocity.y > 0 {
                proof {
                    lemma_fmul_contract(-(self.velocity.y as int), physics.restitution as int);
                }
                self.velocity.y = fmul(-self.velocity.y, physics.restitution);
            }
        }

        if self.position.x <= min_x {
            self.position.x = min_x;
            if self.velocity.x < 0 {
                proof {
                    lemma_fmul_contract(-(self.velocity.x as int), physics.restitution as int);
                }
                self.velocity.x = fmul(-self.velocity.x, physics.restitution);
            }
        } else if self.position.x >= max_x {
            self.position.x = max_x;
            if self.velocity.x > 0 {
                proof {
                    lemma_fmul_contract(-(self.velocity.x as int), physics.restitution as int);
                }
                self.velocity.x = fmul(-self.velocity.x, physics.restitution);
            }
        }
    }
}

} // verus!
