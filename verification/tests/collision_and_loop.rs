use particle_sim::boundary::Boundary;
use particle_sim::collision::resolve_particle_collision;
use particle_sim::config::Physics;
use particle_sim::particle::{Particle, Vec2};
use particle_sim::sim::{advance, sub_step, TIME_STEP};

fn inelastic() -> Physics {
    Physics { gravity: -9800, restitution: 0, friction: 990 }
}

#[test]
fn overlapping_closing_pair_separates_and_conserves_momentum() {
    let phy = inelastic();
    let mut p1 = Particle::new(Vec2::new(0, 0), Vec2::new(1000, 0), 3000, 2000, 0);
    let mut p2 = Particle::new(Vec2::new(3000, 4000), Vec2::new(0, 0), 3000, 2000, 0);
    let mx_before: i64 = p1.mass * p1.velocity.x + p2.mass * p2.velocity.x;
    let my_before: i64 = p1.mass * p1.velocity.y + p2.mass * p2.velocity.y;
    resolve_particle_collision(&mut p1, &mut p2, &phy);

    // distance 5000, normal (600, 800), overlap 1000, equal masses
    assert_eq!(p1.position, Vec2::new(-300, -400));
    assert_eq!(p2.position, Vec2::new(3300, 4400));
    assert_eq!(p1.velocity, Vec2::new(820, -240));
    assert_eq!(p2.velocity, Vec2::new(180, 240));

    // centers end at least radius1 + radius2 apart
    let dx: i64 = p2.position.x - p1.position.x;
    let dy: i64 = p2.position.y - p1.position.y;
    assert!(dx * dx + dy * dy >= 6000 * 6000);

    // momentum along each axis is conserved within one quantum per particle
    let mx_after: i64 = p1.mass * p1.velocity.x + p2.mass * p2.velocity.x;
    let my_after: i64 = p1.mass * p1.velocity.y + p2.mass * p2.velocity.y;
    assert!((mx_after - mx_before).abs() < p1.mass + p2.mass);
    assert!((my_after - my_before).abs() < p1.mass + p2.mass);
    assert_eq!(mx_after, mx_before);
    assert_eq!(my_after, my_before);
}

#[test]
fn separating_pair_keeps_velocities() {
    let phy = inelastic();
    let mut p1 = Particle::new(Vec2::new(0, 0), Vec2::new(-1000, 0), 3000, 2000, 0);
    let mut p2 = Particle::new(Vec2::new(3000, 4000), Vec2::new(0, 0), 3000, 2000, 0);
    resolve_particle_collision(&mut p1, &mut p2, &phy);
    // positions are still pushed apart ...
    assert_eq!(p1.position, Vec2::new(-300, -400));
    assert_eq!(p2.position, Vec2::new(3300, 4400));
    // ... but the impulse is skipped for a separating pair
    assert_eq!(p1.velocity, Vec2::new(-1000, 0));
    assert_eq!(p2.velocity, Vec2::new(0, 0));
}

#[test]
fn coincident_centers_are_left_untouched() {
    let phy = Physics::default();
    let mut p1 = Particle::new(Vec2::new(5000, 5000), Vec2::new(300, -400), 800, 2000, 0);
    let mut p2 = Particle::new(Vec2::new(5000, 5000), Vec2::new(0, 0), 400, 3000, 0);
    resolve_particle_collision(&mut p1, &mut p2, &phy);
    assert_eq!(p1.position, Vec2::new(5000, 5000));
    assert_eq!(p2.position, Vec2::new(5000, 5000));
    assert_eq!(p1.velocity, Vec2::new(300, -400));
    assert_eq!(p2.velocity, Vec2::new(0, 0));
}

#[test]
fn non_overlapping_pair_is_a_no_op() {
    let phy = Physics::default();
    let mut p1 = Particle::new(Vec2::new(0, 0), Vec2::new(500, 0), 1000, 2000, 0);
    let mut p2 = Particle::new(Vec2::new(5000, 0), Vec2::new(-500, 0), 1000, 3000, 0);
    resolve_particle_collision(&mut p1, &mut p2, &phy);
    assert_eq!(p1.position, Vec2::new(0, 0));
    assert_eq!(p2.position, Vec2::new(5000, 0));
    assert_eq!(p1.velocity, Vec2::new(500, 0));
    assert_eq!(p2.velocity, Vec2::new(-500, 0));
}

#[test]
fn reference_scenario_crosses_zero_and_stays_inside() {
    let phy = Physics::default();
    let bounds = Boundary::new(20000, 20000);
    let mut particles: Vec<Particle> = vec![
        Particle::new(Vec2::new(8000, 0), Vec2::new(1000, 40000), 800, 10000, 0),
        Particle::new(Vec2::new(8000, 9000), Vec2::new(0, 0), 400, 2000, 0),
    ];
    let mut crossings: i64 = 0;
    let mut prev_vy: i64 = particles[0].velocity.y;
    let mut n: i64 = 0;
    while n < 900 {
        sub_step(&mut particles, &phy, &bounds, TIME_STEP);
        let vy: i64 = particles[0].velocity.y;
        if (prev_vy > 0 && vy <= 0) || (prev_vy < 0 && vy >= 0) {
            crossings += 1;
        }
        prev_vy = vy;
        for p in &particles {
            assert!(bounds.left <= p.position.x && p.position.x <= bounds.right);
            assert!(bounds.bottom <= p.position.y && p.position.y <= bounds.top);
        }
        n += 1;
    }
    assert!(crossings >= 1);
}

#[test]
fn accumulator_drains_in_fixed_steps() {
    let phy = Physics::default();
    let bounds = Boundary::new(20000, 20000);
    let mut particles: Vec<Particle> = vec![Particle::new(
        Vec2::new(10000, 10000),
        Vec2::new(0, 0),
        500,
        2000,
        0,
    )];
    let mut acc: i64 = 0;

    // 40 fixed units of elapsed time hold two 17-unit steps, remainder 6
    let steps: u64 = advance(&mut particles, &phy, &bounds, &mut acc, 40);
    assert_eq!(steps, 2);
    assert_eq!(acc, 6);
    assert_eq!(particles[0].velocity.y, -332);

    // a short frame runs no step at all
    let steps2: u64 = advance(&mut particles, &phy, &bounds, &mut acc, 10);
    assert_eq!(steps2, 0);
    assert_eq!(acc, 16);

    // the remainder carries over into the next frame
    let steps3: u64 = advance(&mut particles, &phy, &bounds, &mut acc, 1);
    assert_eq!(steps3, 1);
    assert_eq!(acc, 0);
}

#[test]
fn advance_with_no_particles_still_drains_time() {
    let phy = Physics::default();
    let bounds = Boundary::new(20000, 20000);
    let mut particles: Vec<Particle> = Vec::new();
    let mut acc: i64 = 5;
    let steps: u64 = advance(&mut particles, &phy, &bounds, &mut acc, 100);
    assert_eq!(steps, 6);
    assert_eq!(acc, 3);
    assert!(particles.is_empty());
}

#[test]
fn advance_stops_on_out_of_range_state() {
    let phy = Physics::default();
    let bounds = Boundary::new(20000, 20000);
    let mut particles: Vec<Particle> = vec![Particle::new(
        Vec2::new(500000000, 10000),
        Vec2::new(0, 0),
        500,
        2000,
        0,
    )];
    let mut acc: i64 = 0;
    let steps: u64 = advance(&mut particles, &phy, &bounds, &mut acc, 40);
    assert_eq!(steps, 0);
    assert_eq!(acc, 40);
    assert_eq!(particles[0].position.x, 500000000);
}
