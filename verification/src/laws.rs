//! The general guarantees of the simulator, stated and proved once over the
//! mathematical model that the executable contracts pin down.

use crate::boundary::Boundary;
use crate::collision::{dist_s, resolve_s, vel_along_normal_s};
use crate::fixed::{
    abs_s, fdiv_s, fmul_s, lemma_fmul_nonpos, lemma_sqrt_exists, lemma_sqrt_is, lemma_tz_div_error,
    lemma_tz_div_sign, SCALE,
};
use crate::particle::{
    boundary_response, integrate_s, particle_wf, PState, VELOCITY_THRESHOLD,
};
use vstd::arithmetic::div_mod::{lemma_div_by_multiple, lemma_div_is_ordered};
use vstd::arithmetic::mul::{lemma_mul_is_distributive_add, lemma_mul_is_distributive_sub};
use vstd::prelude::*;

verus! {

/// The state after `n` integration steps with no collision of any kind.
pub open spec fn integrate_n(s: PState, gravity: int, dt: int, n: nat) -> PState
    decreases n,
{
    if n == 0 {
        s
    } else {
        integrate_n(integrate_s(s, gravity, dt), gravity, dt, (n - 1) as nat)
    }
}

/// Integration adds exactly one gravity increment to the vertical velocity
/// per step.
pub proof fn lemma_integrate_n_velocity(s: PState, gravity: int, dt: int, n: nat)
    ensures
        integrate_n(s, gravity, dt, n).vy == s.vy + n * fmul_s(gravity, dt),
        integrate_n(s, gravity, dt, n).vx == s.vx,
    decreases n,
{
    if n == 0 {
        assert(integrate_n(s, gravity, dt, n) == s);
        assert(n * fmul_s(gravity, dt) == 0);
    } else {
        let m = integrate_s(s, gravity, dt);
        let k = (n - 1) as nat;
        let f = fmul_s(gravity, dt);
        lemma_integrate_n_velocity(m, gravity, dt, k);
        assert(integrate_n(s, gravity, dt, n) == integrate_n(m, gravity, dt, k));
        assert(m.vy == s.vy + f);
        assert(integrate_n(s, gravity, dt, n).vy == s.vy + f + k * f);
        assert(s.vy + f + k * f == s.vy + n * f) by (nonlinear_arith)
            requires
                k + 1 == n,
        ;
    }
}

/// Law: a particle with zero initial vertical velocity carries exactly
/// `n` times the per-step gravity increment after `n` collision-free steps.
pub proof fn lemma_gravity_accumulates(s: PState, gravity: int, dt: int, n: nat)
    requires
        s.vy == 0,
    ensures
        integrate_n(s, gravity, dt, n).vy == n * fmul_s(gravity, dt),
{
    lemma_integrate_n_velocity(s, gravity, dt, n);
}

/// Law: a floor contact whose rebound falls below the velocity threshold
/// puts the particle exactly on the floor line with zero vertical velocity.
pub proof fn lemma_floor_rest(s: PState, b: Boundary, restitution: int, friction: int)
    requires
        s.py <= b.bottom + s.radius,
        s.vy < 0,
        abs_s(fmul_s(-s.vy, restitution)) < VELOCITY_THRESHOLD,
    ensures
        boundary_response(s, b, restitution, friction).py == b.bottom + s.radius,
        boundary_response(s, b, restitution, friction).vy == 0,
{
}

/// Law: a particle at rest on the floor stays at rest there under any
/// further sub-step whose single gravity increment rebounds below the
/// threshold: integration pulls it down, the floor puts it back.
pub proof fn lemma_floor_rest_stays(
    s: PState,
    b: Boundary,
    gravity: int,
    restitution: int,
    friction: int,
    dt: int,
)
    requires
        s.py == b.bottom + s.radius,
        s.vy == 0,
        gravity <= 0,
        0 < dt,
        abs_s(fmul_s(-fmul_s(gravity, dt), restitution)) < VELOCITY_THRESHOLD,
    ensures
        ({
            let t = boundary_response(integrate_s(s, gravity, dt), b, restitution, friction);
            &&& t.py == s.py
            &&& t.vy == 0
        }),
{
    lemma_fmul_nonpos(gravity, dt);
    let m = integrate_s(s, gravity, dt);
    lemma_fmul_nonpos(m.vy, dt);
    assert(m.py <= s.py);
}

/// Law: a left-wall contact away from the floor reflects the horizontal
/// velocity with restitution alone: no threshold ever zeroes it, and any
/// rebound of at least one fixed-point unit stays nonzero.
pub proof fn lemma_wall_reflection(s: PState, b: Boundary, restitution: int, friction: int)
    requires
        b.bottom + s.radius < s.py,
        s.px <= b.left + s.radius,
        s.vx < 0,
    ensures
        ({
            let t = boundary_response(s, b, restitution, friction);
            &&& t.px == b.left + s.radius
            &&& t.vx == fmul_s(-s.vx, restitution)
            &&& (-s.vx * restitution >= SCALE ==> t.vx >= 1)
        }),
{
    if -s.vx * restitution >= SCALE {
        lemma_div_is_ordered(SCALE as int, -s.vx * restitution, SCALE as int);
        lemma_div_by_multiple(1, SCALE as int);
    }
}

/// Law: a ceiling contact reflects an upward velocity with restitution
/// alone, with no threshold and no friction.
pub proof fn lemma_ceiling_reflection(s: PState, b: Boundary, restitution: int, friction: int)
    requires
        b.bottom + s.radius < s.py,
        s.py >= b.top - s.radius,
        s.vy > 0,
    ensures
        ({
            let t = boundary_response(s, b, restitution, friction);
            &&& t.py == b.top - s.radius
            &&& t.vy == fmul_s(-s.vy, restitution)
            &&& (s.vy * restitution >= SCALE ==> t.vy <= -1)
        }),
{
    assert((-s.vy) * restitution == -(s.vy * restitution)) by (nonlinear_arith);
    if s.vy * restitution >= SCALE {
        lemma_div_is_ordered(SCALE as int, s.vy * restitution, SCALE as int);
        lemma_div_by_multiple(1, SCALE as int);
    }
}

/// Law: whenever the particle fits between the inner limits at all, its
/// center ends every boundary resolution inside them, wherever it started;
/// this is what keeps every particle within the padded rectangle at the end
/// of each sub-step.
pub proof fn lemma_boundary_contains(s: PState, b: Boundary, restitution: int, friction: int)
    requires
        b.left + s.radius <= b.right - s.radius,
        b.bottom + s.radius <= b.top - s.radius,
    ensures
        ({
            let t = boundary_response(s, b, restitution, friction);
            &&& b.left + s.radius <= t.px <= b.right - s.radius
            &&& b.bottom + s.radius <= t.py <= b.top - s.radius
        }),
{
}

/// Law: a pairwise resolution conserves momentum along each axis to within
/// one velocity quantum per particle; the positional correction never
/// touches velocities, and the impulse is equal and opposite up to the
/// rounding of the two mass divisions.
pub proof fn lemma_impulse_momentum(a: PState, b: PState, restitution: int)
    requires
        particle_wf(a),
        particle_wf(b),
    ensures
        ({
            let r = resolve_s(a, b, restitution);
            &&& abs_s((r.0.mass * r.0.vx + r.1.mass * r.1.vx) - (a.mass * a.vx + b.mass * b.vx))
                < a.mass + b.mass
            &&& abs_s((r.0.mass * r.0.vy + r.1.mass * r.1.vy) - (a.mass * a.vy + b.mass * b.vy))
                < a.mass + b.mass
        }),
{
    let r = resolve_s(a, b, restitution);
    let dist = dist_s(a, b);
    let min_dist = a.radius + b.radius;
    if dist >= min_dist || dist == 0 {
    } else if vel_along_normal_s(a, b) > 0 {
    } else {
        let nx = fdiv_s(b.px - a.px, dist);
        let ny = fdiv_s(b.py - a.py, dist);
        let van = vel_along_normal_s(a, b);
        let inv_a = fdiv_s(SCALE as int, a.mass);
        let inv_b = fdiv_s(SCALE as int, b.mass);
        let j = fdiv_s(-fmul_s(SCALE + restitution, van), inv_a + inv_b);
        let jx = fmul_s(j, nx);
        let jy = fmul_s(j, ny);
        lemma_tz_div_error(jx * SCALE, a.mass);
        lemma_tz_div_error(jx * SCALE, b.mass);
        lemma_tz_div_error(jy * SCALE, a.mass);
        lemma_tz_div_error(jy * SCALE, b.mass);
        lemma_mul_is_distributive_sub(a.mass, a.vx, fdiv_s(jx, a.mass));
        lemma_mul_is_distributive_add(b.mass, b.vx, fdiv_s(jx, b.mass));
        lemma_mul_is_distributive_sub(a.mass, a.vy, fdiv_s(jy, a.mass));
        lemma_mul_is_distributive_add(b.mass, b.vy, fdiv_s(jy, b.mass));
    }
}

/// One axis of the positional correction: pushing along the normal, scaled
/// by nonnegative mass fractions, never shrinks the center offset's
/// magnitude on that axis.
proof fn lemma_axis_separates(delta: int, dist: int, overlap: int, fa: int, fb: int)
    requires
        1 <= dist,
        0 <= overlap,
        0 <= fa,
        0 <= fb,
    ensures
        ({
            let push = fmul_s(fdiv_s(delta, dist), overlap);
            let grown = delta + fmul_s(push, fa) + fmul_s(push, fb);
            grown * grown >= delta * delta
        }),
{
    let nx = fdiv_s(delta, dist);
    let push = fmul_s(nx, overlap);
    let ca = fmul_s(push, fa);
    let cb = fmul_s(push, fb);
    let grown = delta + ca + cb;
    if delta >= 0 {
        lemma_tz_div_sign(delta * SCALE, dist);
        assert(nx * overlap >= 0) by (nonlinear_arith)
            requires
                nx >= 0,
                overlap >= 0,
        ;
        lemma_tz_div_sign(nx * overlap, SCALE as int);
        assert(push * fa >= 0 && push * fb >= 0) by (nonlinear_arith)
            requires
                push >= 0,
                fa >= 0,
                fb >= 0,
        ;
        lemma_tz_div_sign(push * fa, SCALE as int);
        lemma_tz_div_sign(push * fb, SCALE as int);
        assert(grown * grown >= delta * delta) by (nonlinear_arith)
            requires
                0 <= delta <= grown,
        ;
    } else {
        lemma_tz_div_sign(delta * SCALE, dist);
        assert(nx * overlap <= 0) by (nonlinear_arith)
            requires
                nx <= 0,
                overlap >= 0,
        ;
        lemma_tz_div_sign(nx * overlap, SCALE as int);
        assert(push * fa <= 0 && push * fb <= 0) by (nonlinear_arith)
            requires
                push <= 0,
                fa >= 0,
                fb >= 0,
        ;
        lemma_tz_div_sign(push * fa, SCALE as int);
        lemma_tz_div_sign(push * fb, SCALE as int);
        assert(grown * grown >= delta * delta) by (nonlinear_arith)
            requires
                grown <= delta <= 0,
        ;
    }
}

/// Law: a pairwise resolution never moves the two centers closer together:
/// the squared distance between them after the resolution is at least what
/// it was before.  (The positional correction pushes both centers outward
/// along the normal; the impulse touches only velocities.)
pub proof fn lemma_resolution_separates(a: PState, b: PState, restitution: int)
    requires
        particle_wf(a),
        particle_wf(b),
    ensures
        ({
            let r = resolve_s(a, b, restitution);
            let dx1 = r.1.px - r.0.px;
            let dy1 = r.1.py - r.0.py;
            let dx0 = b.px - a.px;
            let dy0 = b.py - a.py;
            dx1 * dx1 + dy1 * dy1 >= dx0 * dx0 + dy0 * dy0
        }),
{
    let dx = b.px - a.px;
    let dy = b.py - a.py;
    assert(0 <= dx * dx && 0 <= dy * dy) by (nonlinear_arith);
    lemma_sqrt_exists(dx * dx + dy * dy);
    let dist = dist_s(a, b);
    let min_dist = a.radius + b.radius;
    if dist >= min_dist || dist == 0 {
    } else {
        let overlap = min_dist - dist;
        let total = a.mass + b.mass;
        lemma_tz_div_sign(b.mass * SCALE, total);
        lemma_tz_div_sign(a.mass * SCALE, total);
        let fa = fdiv_s(b.mass, total);
        let fb = fdiv_s(a.mass, total);
        lemma_axis_separates(dx, dist, overlap, fa, fb);
        lemma_axis_separates(dy, dist, overlap, fa, fb);
    }
}

/// Law: a pair that is already separating keeps both velocities unchanged;
/// only positions may move.
pub proof fn lemma_separating_velocities(a: PState, b: PState, restitution: int)
    requires
        vel_along_normal_s(a, b) > 0,
    ensures
        resolve_s(a, b, restitution).0.vx == a.vx,
        resolve_s(a, b, restitution).0.vy == a.vy,
        resolve_s(a, b, restitution).1.vx == b.vx,
        resolve_s(a, b, restitution).1.vy == b.vy,
{
}

/// Law: two particles with coincident centers are left untouched, whatever
/// their radii: the undefined normal is skipped, not guessed.
pub proof fn lemma_coincident_no_op(a: PState, b: PState, restitution: int)
    requires
        a.px == b.px,
        a.py == b.py,
    ensures
        resolve_s(a, b, restitution) == (a, b),
{
    lemma_sqrt_is(0, 0);
}

} // verus!
