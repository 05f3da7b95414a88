//! Pairwise particle-particle collision detection and impulse resolution.

use crate::config::{physics_wf, Physics};
use crate::fixed::{
    abs_s, fdiv, fdiv_s, fmul, fmul_s, isqrt, lemma_fdiv_bound, lemma_fmul_bound, lemma_mul_le,
    lemma_sq_le, lemma_sqrt_exists, sqrt_s, SCALE,
};
use crate::particle::{particle_wf, Particle, PState};
use vstd::prelude::*;

verus! {

/// Largest position magnitude a pairwise resolution accepts, a machine limit
/// of the fixed-point representation.
pub const PAIR_POS_RANGE: i64 = 1000000000;

/// Largest velocity magnitude a pairwise resolution accepts, a machine limit
/// of the fixed-point representation.
pub const PAIR_VEL_RANGE: i64 = 1000000000000;

/// Positions and velocities small enough for the impulse arithmetic.
pub open spec fn in_pair_range(s: PState) -> bool {
    &&& abs_s(s.px) <= PAIR_POS_RANGE
    &&& abs_s(s.py) <= PAIR_POS_RANGE
    &&& abs_s(s.vx) <= PAIR_VEL_RANGE
    &&& abs_s(s.vy) <= PAIR_VEL_RANGE
}

/// Distance between the two centers (the integer square root of the squared
/// center offset).
pub open spec fn dist_s(a: PState, b: PState) -> int {
    sqrt_s((b.px - a.px) * (b.px - a.px) + (b.py - a.py) * (b.py - a.py))
}

/// Relative velocity along the collision normal, at fixed-point scale.
pub open spec fn vel_along_normal_s(a: PState, b: PState) -> int {
    let dist = dist_s(a, b);
    let nx = fdiv_s(b.px - a.px, dist);
    let ny = fdiv_s(b.py - a.py, dist);
    fmul_s(b.vx - a.vx, nx) + fmul_s(b.vy - a.vy, ny)
}

/// The pair after one resolution.  Non-overlapping or coincident centers are
/// left untouched.  Overlapping circles are first pushed apart along the
/// normal, each by the other's mass fraction of the overlap; then, unless
/// the pair is already separating, an impulse along the normal exchanges
/// momentum, scaled by `1 + restitution` over the summed reciprocal masses.
pub open spec fn resolve_s(a: PState, b: PState, restitution: int) -> (PState, PState) {
    let dx = b.px - a.px;
    let dy = b.py - a.py;
    let dist = dist_s(a, b);
    let min_dist = a.radius + b.radius;
    if dist >= min_dist || dist == 0 {
        (a, b)
    } else {
        let nx = fdiv_s(dx, dist);
        let ny = fdiv_s(dy, dist);
        let overlap = min_dist - dist;
        let total = a.mass + b.mass;
        let fa = fdiv_s(b.mass, total);
        let fb = fdiv_s(a.mass, total);
        let a1 = PState {
            px: a.px - fmul_s(fmul_s(nx, overlap), fa),
            py: a.py - fmul_s(fmul_s(ny, overlap), fa),
            ..a
        };
        let b1 = PState {
            px: b.px + fmul_s(fmul_s(nx, overlap), fb),
            py: b.py + fmul_s(fmul_s(ny, overlap), fb),
            ..b
        };
        let van = vel_along_normal_s(a, b);
        if van > 0 {
            (a1, b1)
        } else {
            let inv_a = fdiv_s(SCALE as int, a.mass);
            let inv_b = fdiv_s(SCALE as int, b.mass);
            let j = fdiv_s(-fmul_s(SCALE + restitution, van), inv_a + inv_b);
            let jx = fmul_s(j, nx);
            let jy = fmul_s(j, ny);
            let a2 = PState {
                vx: a1.vx - fdiv_s(jx, a.mass),
                vy: a1.vy - fdiv_s(jy, a.mass),
                ..a1
            };
            let b2 = PState {
                vx: b1.vx + fdiv_s(jx, b.mass),
                vy: b1.vy + fdiv_s(jy, b.mass),
                ..b1
            };
            (a2, b2)
        }
    }
}

/// Largest position magnitude a resolution can produce from in-range inputs.
pub const RESOLVED_POS_RANGE: i64 = 1002000000;

/// Largest velocity magnitude a resolution can produce from in-range inputs.
pub const RESOLVED_VEL_RANGE: i64 = 5000000000000000;

/// Positions and velocities a resolution may have produced.
pub open spec fn in_resolved_range(s: PState) -> bool {
    &&& abs_s(s.px) <= RESOLVED_POS_RANGE
    &&& abs_s(s.py) <= RESOLVED_POS_RANGE
    &&& abs_s(s.vx) <= RESOLVED_VEL_RANGE
    &&& abs_s(s.vy) <= RESOLVED_VEL_RANGE
}

/// A resolution never touches radius, mass or appearance, and from in-range
/// inputs its outputs stay within the resolved range.
pub proof fn lemma_resolve_bounds(a: PState, b: PState, restitution: int)
    requires
        particle_wf(a),
        particle_wf(b),
        in_pair_range(a),
        in_pair_range(b),
        0 <= restitution <= SCALE,
    ensures
        resolve_s(a, b, restitution).0.radius == a.radius,
        resolve_s(a, b, restitution).0.mass == a.mass,
        resolve_s(a, b, restitution).0.appearance == a.appearance,
        resolve_s(a, b, restitution).1.radius == b.radius,
        resolve_s(a, b, restitution).1.mass == b.mass,
        resolve_s(a, b, restitution).1.appearance == b.appearance,
        in_resolved_range(resolve_s(a, b, restitution).0),
        in_resolved_range(resolve_s(a, b, restitution).1),
{
    let dx = b.px - a.px;
    let dy = b.py - a.py;
    assert(0 <= dx * dx && 0 <= dy * dy) by (nonlinear_arith);
    lemma_sqrt_exists(dx * dx + dy * dy);
    let dist = dist_s(a, b);
    let min_dist = a.radius + b.radius;
    if dist >= min_dist || dist == 0 {
    } else {
        assert(1 <= dist < 2000000);
        lemma_sq_le(dx, dist);
        lemma_sq_le(dy, dist);
        lemma_fdiv_bound(dx, dist, SCALE as int);
        lemma_fdiv_bound(dy, dist, SCALE as int);
        let nx = fdiv_s(dx, dist);
        let ny = fdiv_s(dy, dist);
        let overlap = min_dist - dist;
        let total = a.mass + b.mass;
        lemma_fdiv_bound(b.mass, total, SCALE as int);
        lemma_fdiv_bound(a.mass, total, SCALE as int);
        let fa = fdiv_s(b.mass, total);
        let fb = fdiv_s(a.mass, total);
        lemma_mul_le(abs_s(nx), abs_s(overlap), SCALE as int, 2000000);
        lemma_fmul_bound(nx, overlap, 2000000);
        lemma_mul_le(abs_s(ny), abs_s(overlap), SCALE as int, 2000000);
        lemma_fmul_bound(ny, overlap, 2000000);
        lemma_mul_le(abs_s(fmul_s(nx, overlap)), abs_s(fa), 2000000, SCALE as int);
        lemma_fmul_bound(fmul_s(nx, overlap), fa, 2000000);
        lemma_mul_le(abs_s(fmul_s(ny, overlap)), abs_s(fa), 2000000, SCALE as int);
        lemma_fmul_bound(fmul_s(ny, overlap), fa, 2000000);
        lemma_mul_le(abs_s(fmul_s(nx, overlap)), abs_s(fb), 2000000, SCALE as int);
        lemma_fmul_bound(fmul_s(nx, overlap), fb, 2000000);
        lemma_mul_le(abs_s(fmul_s(ny, overlap)), abs_s(fb), 2000000, SCALE as int);
        lemma_fmul_bound(fmul_s(ny, overlap), fb, 2000000);
        lemma_mul_le(abs_s(b.vx - a.vx), abs_s(nx), 2000000000000, SCALE as int);
        lemma_fmul_bound(b.vx - a.vx, nx, 2000000000000);
        lemma_mul_le(abs_s(b.vy - a.vy), abs_s(ny), 2000000000000, SCALE as int);
        lemma_fmul_bound(b.vy - a.vy, ny, 2000000000000);
        let van = vel_along_normal_s(a, b);
        if van > 0 {
        } else {
            lemma_fdiv_bound(SCALE as int, a.mass, SCALE as int);
            lemma_fdiv_bound(SCALE as int, b.mass, SCALE as int);
            vstd::arithmetic::div_mod::lemma_div_is_ordered_by_denominator(1000000, a.mass, 1000000);
            vstd::arithmetic::div_mod::lemma_div_is_ordered_by_denominator(1000000, b.mass, 1000000);
            vstd::arithmetic::div_mod::lemma_div_by_multiple(1, 1000000);
            let inv_a = fdiv_s(SCALE as int, a.mass);
            let inv_b = fdiv_s(SCALE as int, b.mass);
            assert(1 <= inv_a <= SCALE && 1 <= inv_b <= SCALE);
            lemma_mul_le(abs_s(SCALE + restitution), abs_s(van), 2000, 4000000000000);
            lemma_fmul_bound(SCALE + restitution, van, 8000000000000);
            let num = fmul_s(SCALE + restitution, van);
            lemma_fdiv_bound(-num, inv_a + inv_b, 4000000000000000);
            let j = fdiv_s(-num, inv_a + inv_b);
            lemma_mul_le(abs_s(j), abs_s(nx), 4000000000000000, SCALE as int);
            lemma_fmul_bound(j, nx, 4000000000000000);
            lemma_mul_le(abs_s(j), abs_s(ny), 4000000000000000, SCALE as int);
            lemma_fmul_bound(j, ny, 4000000000000000);
            lemma_fdiv_bound(fmul_s(j, nx), a.mass, 4000000000000000);
            lemma_fdiv_bound(fmul_s(j, ny), a.mass, 4000000000000000);
            lemma_fdiv_bound(fmul_s(j, nx), b.mass, 4000000000000000);
            lemma_fdiv_bound(fmul_s(j, ny), b.mass, 4000000000000000);
        }
    }
}

/// Detect and resolve a collision between two particles, exactly as
/// [`resolve_s`] states: positional correction first, then the impulse,
/// skipped for separating pairs; non-overlapping or coincident pairs are
/// left untouched.
pub fn resolve_particle_collision(p1: &mut Particle, p2: &mut Particle, physics: &Physics)
    requires
        physics_wf(*physics),
        particle_wf(old(p1)@),
        particle_wf(old(p2)@),
        in_pair_range(old(p1)@),
        in_pair_range(old(p2)@),
    ensures
        (final(p1)@, final(p2)@) == resolve_s(old(p1)@, old(p2)@, physics.restitution as int),
{
    let ghost a0 = p1@;
    let ghost b0 = p2@;
    let dx = p2.position.x - p1.position.x;
    let dy = p2.position.y - p1.position.y;
    assert(dx as int * dx as int + dy as int * dy as int <= 8000000000000000000
        && 0 <= dx as int * dx as int && 0 <= dy as int * dy as int) by (nonlinear_arith)
        requires
            -2000000000 <= dx as int <= 2000000000,
            -2000000000 <= dy as int <= 2000000000,
    ;
    let dist2 = dx * dx + dy * dy;
    let du = isqrt(dist2 as u64);
    assert(du <= 3000000000) by (nonlinear_arith)
        requires
            du as int * du as int <= 8000000000000000000,
    ;
    let dist = du as i64;
    assert(dist == dist_s(a0, b0));
    let min_dist = p1.radius + p2.radius;

    if dist >= min_dist || dist == 0 {
        return ;
    }
    assert(1 <= dist < 2000000);
    proof {
        lemma_sq_le(dx as int, dist as int);
        lemma_sq_le(dy as int, dist as int);
    }
    proof {
        lemma_fdiv_bound(dx as int, dist as int, SCALE as int);
        lemma_fdiv_bound(dy as int, dist as int, SCALE as int);
    }
    let nx = fdiv(dx, dist);
    let ny = fdiv(dy, dist);
    let overlap = min_dist - dist;
    let total = p1.mass + p2.mass;
    proof {
        lemma_fdiv_bound(p2.mass as int, total as int, SCALE as int);
        lemma_fdiv_bound(p1.mass as int, total as int, SCALE as int);
    }
    let frac_a = fdiv(p2.mass, total);
    let frac_b = fdiv(p1.mass, total);
    proof {
        lemma_mul_le(abs_s(nx as int), abs_s(overlap as int), SCALE as int, 2000000);
        lemma_fmul_bound(nx as int, overlap as int, 2000000);
        lemma_mul_le(abs_s(ny as int), abs_s(overlap as int), SCALE as int, 2000000);
        lemma_fmul_bound(ny as int, overlap as int, 2000000);
    }
    let push_x = fmul(nx, overlap);
    let push_y = fmul(ny, overlap);
    proof {
        lemma_mul_le(abs_s(push_x as int), abs_s(frac_a as int), 2000000, SCALE as int);
        lemma_fmul_bound(push_x as int, frac_a as int, 2000000);
        lemma_mul_le(abs_s(push_y as int), abs_s(frac_a as int), 2000000, SCALE as int);
        lemma_fmul_bound(push_y as int, frac_a as int, 2000000);
        lemma_mul_le(abs_s(push_x as int), abs_s(frac_b as int), 2000000, SCALE as int);
        lemma_fmul_bound(push_x as int, frac_b as int, 2000000);
        lemma_mul_le(abs_s(push_y as int), abs_s(frac_b as int), 2000000, SCALE as int);
        lemma_fmul_bound(push_y as int, frac_b as int, 2000000);
    }
    p1.position.x = p1.position.x - fmul(push_x, frac_a);
    p1.position.y = p1.position.y - fmul(push_y, frac_a);
    p2.position.x = p2.position.x + fmul(push_x, frac_b);
    p2.position.y = p2.position.y + fmul(push_y, frac_b);

    let rvx = p2.velocity.x - p1.velocity.x;
    let rvy = p2.velocity.y - p1.velocity.y;
    proof {
        lemma_mul_le(abs_s(rvx as int), abs_s(nx as int), 2000000000000, SCALE as int);
        lemma_fmul_bound(rvx as int, nx as int, 2000000000000);
        lemma_mul_le(abs_s(rvy as int), abs_s(ny as int), 2000000000000, SCALE as int);
        lemma_fmul_bound(rvy as int, ny as int, 2000000000000);
    }
    let van = fmul(rvx, nx) + fmul(rvy, ny);
    assert(van == vel_along_normal_s(a0, b0));

    if van > 0 {
        return ;
    }

    proof {
        lemma_fdiv_bound(SCALE as int, p1.mass as int, SCALE as int);
        lemma_fdiv_bound(SCALE as int, p2.mass as int, SCALE as int);
        vstd::arithmetic::div_mod::lemma_div_is_ordered_by_denominator(
            1000000,
            p1.mass as int,
            1000000,
        );
        vstd::arithmetic::div_mod::lemma_div_is_ordered_by_denominator(
            1000000,
            p2.mass as int,
            1000000,
        );
        vstd::arithmetic::div_mod::lemma_div_by_multiple(1, 1000000);
    }
    let inv_a = fdiv(SCALE, p1.mass);
    let inv_b = fdiv(SCALE, p2.mass);
    assert(1 <= inv_a <= SCALE && 1 <= inv_b <= SCALE);
    let inv_sum = inv_a + inv_b;
    proof {
        lemma_mul_le(
            abs_s((SCALE + physics.restitution) as int),
            abs_s(van as int),
            2000,
            4000000000000,
        );
        lemma_fmul_bound((SCALE + physics.restitution) as int, van as int, 8000000000000);
    }
    let num = fmul(SCALE + physics.restitution, van);
    proof {
        lemma_fdiv_bound(-(num as int), inv_sum as int, 4000000000000000);
    }
    let j = fdiv(-num, inv_sum);
    proof {
        lemma_mul_le(abs_s(j as int), abs_s(nx as int), 4000000000000000, SCALE as int);
        lemma_fmul_bound(j as int, nx as int, 4000000000000000);
        lemma_mul_le(abs_s(j as int), abs_s(ny as int), 4000000000000000, SCALE as int);
        lemma_fmul_bound(j as int, ny as int, 4000000000000000);
    }
    let jx = fmul(j, nx);
    let jy = fmul(j, ny);
    proof {
        lemma_fdiv_bound(jx as int, p1.mass as int, 4000000000000000);
        lemma_fdiv_bound(jy as int, p1.mass as int, 4000000000000000);
        lemma_fdiv_bound(jx as int, p2.mass as int, 4000000000000000);
        lemma_fdiv_bound(jy as int, p2.mass as int, 4000000000000000);
    }
    p1.velocity.x = p1.velocity.x - fdiv(jx, p1.mass);
    p1.velocity.y = p1.velocity.y - fdiv(jy, p1.mass);
    p2.velocity.x = p2.velocity.x + fdiv(jx, p2.mass);
    p2.velocity.y = p2.velocity.y + fdiv(jy, p2.mass);
    assert((p1@, p2@) == resolve_s(a0, b0, physics.restitution as int));
}

} // verus!
