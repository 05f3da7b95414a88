//! The fixed-timestep simulation loop.
//!
//! Rendered frames hand elapsed time to an accumulator; while the
//! accumulator holds at least one fixed step, one full sub-step runs:
//! integrate every particle, resolve every unordered particle pair, then
//! resolve every boundary contact, in exactly that order.

use crate::boundary::{boundary_wf, Boundary};
use crate::collision::{
    in_pair_range, in_resolved_range, lemma_resolve_bounds, resolve_particle_collision, resolve_s,
    PAIR_POS_RANGE, PAIR_VEL_RANGE,
};
use crate::config::{physics_wf, Physics};
use crate::fixed::{abs_s, fmul_s, lemma_fmul_contract, SCALE};
use crate::particle::{boundary_response, integrate_s, particle_wf, Particle, PState};
use vstd::pervasive::VecAdditionalExecFns;
use vstd::prelude::*;

verus! {

/// Duration of one fixed sub-step, about a sixtieth of a second.
pub const TIME_STEP: i64 = 17;

/// Magnitude within which every position and velocity must lie for a
/// sub-step to run; a machine limit of the fixed-point representation.
pub const SIM_RANGE: i64 = 400000000;

/// The mathematical states of a particle sequence.
pub open spec fn states(ps: Seq<Particle>) -> Seq<PState> {
    ps.map(|k: int, p: Particle| p@)
}

/// Within the range a sub-step accepts.
pub open spec fn sim_bounded(s: PState) -> bool {
    &&& abs_s(s.px) <= SIM_RANGE
    &&& abs_s(s.py) <= SIM_RANGE
    &&& abs_s(s.vx) <= SIM_RANGE
    &&& abs_s(s.vy) <= SIM_RANGE
}

pub open spec fn all_sim_bounded(ss: Seq<PState>) -> bool {
    forall|k: int| 0 <= k < ss.len() ==> sim_bounded(#[trigger] ss[k])
}

pub open spec fn all_wf(ss: Seq<PState>) -> bool {
    forall|k: int| 0 <= k < ss.len() ==> particle_wf(#[trigger] ss[k])
}

/// Every particle integrated by one step.
pub open spec fn integrate_all(ss: Seq<PState>, gravity: int, dt: int) -> Seq<PState> {
    ss.map(|k: int, s: PState| integrate_s(s, gravity, dt))
}

/// Every particle clamped and reflected at the boundary.
pub open spec fn boundary_all(ss: Seq<PState>, b: Boundary, restitution: int, friction: int) -> Seq<
    PState,
> {
    ss.map(|k: int, s: PState| boundary_response(s, b, restitution, friction))
}

/// One pair resolved in place, when both members are within the range the
/// impulse arithmetic accepts; an out-of-range pair is left untouched.
pub open spec fn resolve_at(ss: Seq<PState>, i: int, j: int, restitution: int) -> Seq<PState> {
    if in_pair_range(ss[i]) && in_pair_range(ss[j]) {
        let r = resolve_s(ss[i], ss[j], restitution);
        ss.update(i, r.0).update(j, r.1)
    } else {
        ss
    }
}

/// All unordered pairs from `(i, j)` on, resolved in index order.
pub open spec fn run_pairs(ss: Seq<PState>, i: nat, j: nat, restitution: int) -> Seq<PState>
    decreases ss.len() - i, ss.len() + 1 - j,
{
    if i >= ss.len() {
        ss
    } else if j >= ss.len() {
        run_pairs(ss, i + 1, i + 2, restitution)
    } else {
        run_pairs(resolve_at(ss, i as int, j as int, restitution), i, j + 1, restitution)
    }
}

/// One full sub-step: integrate every particle, resolve every unordered
/// pair, then every boundary contact, in exactly that order.
pub open spec fn sub_step_s(ss: Seq<PState>, physics: Physics, b: Boundary, dt: int) -> Seq<
    PState,
> {
    boundary_all(
        run_pairs(integrate_all(ss, physics.gravity as int, dt), 0, 1, physics.restitution as int),
        b,
        physics.restitution as int,
        physics.friction as int,
    )
}

/// The state after `n` whole sub-steps.
pub open spec fn run_steps(ss: Seq<PState>, physics: Physics, b: Boundary, n: nat) -> Seq<PState>
    decreases n,
{
    if n == 0 {
        ss
    } else {
        run_steps(sub_step_s(ss, physics, b, TIME_STEP as int), physics, b, (n - 1) as nat)
    }
}

/// How many of up to `budget` sub-steps actually run: draining stops early
/// only if some particle leaves the range a sub-step accepts.
pub open spec fn steps_run(ss: Seq<PState>, physics: Physics, b: Boundary, budget: nat) -> nat
    decreases budget,
{
    if budget == 0 || !all_sim_bounded(ss) {
        0
    } else {
        1 + steps_run(
            sub_step_s(ss, physics, b, TIME_STEP as int),
            physics,
            b,
            (budget - 1) as nat,
        )
    }
}

/// Resolving pairs never changes how many particles there are.
pub proof fn lemma_run_pairs_len(ss: Seq<PState>, i: nat, j: nat, restitution: int)
    ensures
        run_pairs(ss, i, j, restitution).len() == ss.len(),
    decreases ss.len() - i, ss.len() + 1 - j,
{
    if i >= ss.len() {
    } else if j >= ss.len() {
        lemma_run_pairs_len(ss, i + 1, i + 2, restitution);
    } else {
        lemma_run_pairs_len(resolve_at(ss, i as int, j as int, restitution), i, j + 1, restitution);
    }
}

/// Appending one more sub-step to a run applies it last.
pub proof fn lemma_run_steps_snoc(ss: Seq<PState>, physics: Physics, b: Boundary, n: nat)
    ensures
        run_steps(ss, physics, b, n + 1) == sub_step_s(
            run_steps(ss, physics, b, n),
            physics,
            b,
            TIME_STEP as int,
        ),
    decreases n,
{
    let stepped = sub_step_s(ss, physics, b, TIME_STEP as int);
    if n == 0 {
        assert(run_steps(ss, physics, b, 1) == run_steps(stepped, physics, b, 0));
    } else {
        lemma_run_steps_snoc(stepped, physics, b, (n - 1) as nat);
        assert(run_steps(ss, physics, b, n + 1) == run_steps(stepped, physics, b, n));
        assert(run_steps(ss, physics, b, n) == run_steps(stepped, physics, b, (n - 1) as nat));
    }
}

/// Magnitude comparison against a nonnegative limit.
fn within_range(v: i64, limit: i64) -> (r: bool)
    requires
        0 <= limit,
    ensures
        r == (abs_s(v as int) <= limit),
{
    -limit <= v && v <= limit
}

/// Whether one particle is within the range the impulse arithmetic accepts.
fn pair_ready(p: &Particle) -> (r: bool)
    ensures
        r == in_pair_range(p@),
{
    within_range(p.position.x, PAIR_POS_RANGE) && within_range(p.position.y, PAIR_POS_RANGE)
        && within_range(p.velocity.x, PAIR_VEL_RANGE) && within_range(p.velocity.y, PAIR_VEL_RANGE)
}

/// Whether every particle is within the range a sub-step accepts.
pub fn all_in_sim_range(particles: &Vec<Particle>) -> (r: bool)
    ensures
        r == all_sim_bounded(states(particles@)),
{
    let n = particles.len();
    let mut k: usize = 0;
    while k < n
        invariant
            n == particles@.len(),
            k <= n,
            forall|m: int| 0 <= m < k ==> sim_bounded(#[trigger] states(particles@)[m]),
        decreases n - k,
    {
        let p = particles[k];
        let ok = within_range(p.position.x, SIM_RANGE) && within_range(p.position.y, SIM_RANGE)
            && within_range(p.velocity.x, SIM_RANGE) && within_range(p.velocity.y, SIM_RANGE);
        if !ok {
            assert(!sim_bounded(states(particles@)[k as int]));
            return false;
        }
        k += 1;
    }
    true
}

/// Run one full sub-step over all particles, exactly as [`sub_step_s`]
/// states.
pub fn sub_step(particles: &mut Vec<Particle>, physics: &Physics, bounds: &Boundary, dt: i64)
    requires
        physics_wf(*physics),
        boundary_wf(*bounds),
        0 < dt <= SCALE,
        all_wf(states(old(particles)@)),
        all_sim_bounded(states(old(particles)@)),
    ensures
        states(final(particles)@) == sub_step_s(
            states(old(particles)@),
            *physics,
            *bounds,
            dt as int,
        ),
        all_wf(states(final(particles)@)),
{
    let ghost ss0 = states(particles@);
    let ghost integrated = integrate_all(ss0, physics.gravity as int, dt as int);
    let n = particles.len();

    let mut idx: usize = 0;
    while idx < n
        invariant
            n == particles@.len(),
            idx <= n,
            physics_wf(*physics),
            0 < dt <= SCALE,
            ss0.len() == n,
            integrated == integrate_all(ss0, physics.gravity as int, dt as int),
            all_wf(ss0),
            all_sim_bounded(ss0),
            forall|k: int| 0 <= k < idx ==> states(particles@)[k] == integrated[k],
            forall|k: int| 0 <= k < idx ==> particle_wf(#[trigger] integrated[k])
                && in_resolved_range(integrated[k]),
            forall|k: int| idx <= k < n ==> states(particles@)[k] == ss0[k],
        decreases n - idx,
    {
        let mut p = particles[idx];
        assert(p@ == ss0[idx as int]);
        let ghost before = p@;
        p.update(physics, dt);
        proof {
            lemma_fmul_contract(physics.gravity as int, dt as int);
            lemma_fmul_contract(before.vx, dt as int);
            lemma_fmul_contract(before.vy + fmul_s(physics.gravity as int, dt as int), dt as int);
        }
        assert(particle_wf(p@) && in_resolved_range(p@));
        particles.set(idx, p);
        assert(integrated[idx as int] == p@);
        idx += 1;
    }
    assert(states(particles@) =~= integrated);
    assert forall|k: int| 0 <= k < n implies particle_wf(#[trigger] states(particles@)[k])
        && in_resolved_range(states(particles@)[k]) by {
        assert(states(particles@)[k] == integrated[k]);
    };

    let ghost resolved = run_pairs(integrated, 0, 1, physics.restitution as int);
    proof {
        lemma_run_pairs_len(integrated, 0, 1, physics.restitution as int);
    }
    let mut i: usize = 0;
    while i < n
        invariant
            n == particles@.len(),
            i <= n,
            physics_wf(*physics),
            run_pairs(states(particles@), i as nat, (i + 1) as nat, physics.restitution as int)
                == resolved,
            forall|k: int| 0 <= k < n ==> particle_wf(#[trigger] states(particles@)[k])
                && in_resolved_range(states(particles@)[k]),
        decreases n - i,
    {
        let mut j: usize = i + 1;
        while j < n
            invariant
                n == particles@.len(),
                i < n,
                i + 1 <= j <= n,
                physics_wf(*physics),
                run_pairs(states(particles@), i as nat, j as nat, physics.restitution as int)
                    == resolved,
                forall|k: int| 0 <= k < n ==> particle_wf(#[trigger] states(particles@)[k])
                    && in_resolved_range(states(particles@)[k]),
            decreases n - j,
        {
            let ghost prev = states(particles@);
            let pa = particles[i];
            let pb = particles[j];
            assert(pa@ == prev[i as int] && pb@ == prev[j as int]);
            if pair_ready(&pa) && pair_ready(&pb) {
                let mut a = pa;
                let mut b = pb;
                resolve_particle_collision(&mut a, &mut b, physics);
                proof {
                    lemma_resolve_bounds(pa@, pb@, physics.restitution as int);
                }
                particles.set(i, a);
                particles.set(j, b);
                assert(states(particles@) =~= resolve_at(
                    prev,
                    i as int,
                    j as int,
                    physics.restitution as int,
                ));
            } else {
                assert(states(particles@) == resolve_at(
                    prev,
                    i as int,
                    j as int,
                    physics.restitution as int,
                ));
            }
            j += 1;
        }
        i += 1;
    }
    assert(states(particles@) == resolved);
    assert forall|k: int| 0 <= k < n implies particle_wf(#[trigger] resolved[k])
        && in_resolved_range(resolved[k]) by {
        assert(resolved[k] == states(particles@)[k]);
    };

    let ghost settled = boundary_all(
        resolved,
        *bounds,
        physics.restitution as int,
        physics.friction as int,
    );
    assert(resolved.len() == n && settled.len() == n);
    let mut idx2: usize = 0;
    while idx2 < n
        invariant
            n == particles@.len(),
            idx2 <= n,
            physics_wf(*physics),
            boundary_wf(*bounds),
            resolved.len() == n,
            settled.len() == n,
            settled == boundary_all(
                resolved,
                *bounds,
                physics.restitution as int,
                physics.friction as int,
            ),
            forall|k: int| 0 <= k < n ==> particle_wf(#[trigger] resolved[k])
                && in_resolved_range(resolved[k]),
            forall|k: int| 0 <= k < idx2 ==> states(particles@)[k] == settled[k],
            forall|k: int| 0 <= k < idx2 ==> particle_wf(#[trigger] settled[k]),
            forall|k: int| idx2 <= k < n ==> states(particles@)[k] == resolved[k],
        decreases n - idx2,
    {
        let mut p = particles[idx2];
        assert(p@ == resolved[idx2 as int]);
        p.handle_boundary_collision(physics, bounds);
        assert(particle_wf(p@));
        particles.set(idx2, p);
        assert(settled[idx2 as int] == p@);
        idx2 += 1;
    }
    assert(states(particles@) =~= settled);
    assert(settled == sub_step_s(ss0, *physics, *bounds, dt as int));
    assert forall|k: int| 0 <= k < n implies particle_wf(#[trigger] states(particles@)[k]) by {
        assert(states(particles@)[k] == settled[k]);
    };
}

/// Add a frame's elapsed time to the accumulator and drain it in fixed
/// sub-steps.  Returns how many sub-steps ran; draining stops early only if
/// some particle leaves the range a sub-step accepts, exactly as
/// [`steps_run`] states.
pub fn advance(
    particles: &mut Vec<Particle>,
    physics: &Physics,
    bounds: &Boundary,
    accumulator: &mut i64,
    elapsed: i64,
) -> (steps: u64)
    requires
        physics_wf(*physics),
        boundary_wf(*bounds),
        all_wf(states(old(particles)@)),
        0 <= *old(accumulator),
        0 <= elapsed,
        *old(accumulator) + elapsed <= 4000000000000000000,
    ensures
        ({
            let total = *old(accumulator) + elapsed;
            let budget = (total / (TIME_STEP as int)) as nat;
            let ss0 = states(old(particles)@);
            &&& steps == steps_run(ss0, *physics, *bounds, budget)
            &&& states(final(particles)@) == run_steps(ss0, *physics, *bounds, steps as nat)
            &&& all_wf(states(final(particles)@))
            &&& *final(accumulator) == total - steps * TIME_STEP
            &&& 0 <= *final(accumulator)
        }),
{
    let ghost ss0 = states(particles@);
    let ghost total = *accumulator + elapsed;
    let ghost budget = (total / (TIME_STEP as int)) as nat;
    *accumulator = *accumulator + elapsed;
    let mut steps: u64 = 0;
    let mut go = true;
    while go && *accumulator >= TIME_STEP
        invariant
            physics_wf(*physics),
            boundary_wf(*bounds),
            all_wf(states(particles@)),
            total == *old(accumulator) + elapsed,
            budget == (total / (TIME_STEP as int)) as nat,
            ss0 == states(old(particles)@),
            *accumulator == total - steps * TIME_STEP,
            0 <= *accumulator,
            steps <= budget,
            states(particles@) == run_steps(ss0, *physics, *bounds, steps as nat),
            steps_run(ss0, *physics, *bounds, budget) == if go {
                steps + steps_run(
                    states(particles@),
                    *physics,
                    *bounds,
                    (budget - steps) as nat,
                )
            } else {
                steps as int
            },
        decreases (if go { 1int } else { 0int }), *accumulator,
    {
        if all_in_sim_range(particles) {
            proof {
                vstd::arithmetic::div_mod::lemma_div_is_ordered(
                    (steps as int + 1) * (TIME_STEP as int),
                    total,
                    TIME_STEP as int,
                );
                vstd::arithmetic::div_mod::lemma_div_by_multiple(
                    steps as int + 1,
                    TIME_STEP as int,
                );
                lemma_run_steps_snoc(ss0, *physics, *bounds, steps as nat);
            }
            sub_step(particles, physics, bounds, TIME_STEP);
            *accumulator = *accumulator - TIME_STEP;
            steps = steps + 1;
        } else {
            go = false;
        }
    }
    proof {
        if go {
            vstd::arithmetic::div_mod::lemma_div_by_multiple_is_strongly_ordered(
                total,
                (steps as int + 1) * (TIME_STEP as int),
                steps as int + 1,
                TIME_STEP as int,
            );
            vstd::arithmetic::div_mod::lemma_div_by_multiple(steps as int + 1, TIME_STEP as int);
            vstd::arithmetic::div_mod::lemma_div_is_ordered(
                (steps as int) * (TIME_STEP as int),
                total,
                TIME_STEP as int,
            );
            vstd::arithmetic::div_mod::lemma_div_by_multiple(steps as int, TIME_STEP as int);
        }
    }
    steps
}

} // verus!
