use particle_sim::boundary::Boundary;
use particle_sim::config::Physics;
use particle_sim::particle::{Particle, Vec2};

fn world_boundary() -> Boundary {
    Boundary::new(20000, 20000)
}

#[test]
fn default_physics_constants() {
    let phy = Physics::default();
    assert_eq!(phy.gravity, -9800);
    assert_eq!(phy.restitution, 700);
    assert_eq!(phy.friction, 990);
}

#[test]
fn boundary_is_inset_by_padding() {
    let b = world_boundary();
    assert_eq!(b.left, 1000);
    assert_eq!(b.right, 19000);
    assert_eq!(b.bottom, 1000);
    assert_eq!(b.top, 19000);
}

#[test]
fn particle_new_keeps_fields() {
    let p = Particle::new(Vec2::new(8000, 9000), Vec2::new(-1, 2), 800, 10000, 7);
    assert_eq!(p.position, Vec2::new(8000, 9000));
    assert_eq!(p.velocity, Vec2::new(-1, 2));
    assert_eq!(p.radius, 800);
    assert_eq!(p.mass, 10000);
    assert_eq!(p.appearance, 7);
}

#[test]
fn update_is_semi_implicit_euler() {
    let phy = Physics::default();
    let mut p = Particle::new(Vec2::new(100, 200), Vec2::new(2000, 3000), 500, 2000, 0);
    p.update(&phy, 17);
    // velocity first: vy = 3000 + trunc(-9800 * 17 / 1000) = 3000 - 166
    assert_eq!(p.velocity.y, 2834);
    assert_eq!(p.velocity.x, 2000);
    // then position moves with the updated velocity
    assert_eq!(p.position.x, 100 + 34);
    assert_eq!(p.position.y, 200 + 48);
}

#[test]
fn gravity_accumulates_linearly() {
    let phy = Physics::default();
    let mut p = Particle::new(Vec2::new(10000, 10000), Vec2::new(0, 0), 500, 2000, 0);
    let mut n: i64 = 0;
    while n < 10 {
        p.update(&phy, 17);
        n += 1;
    }
    // after n collision-free steps: vy == n * trunc(g * dt / 1000)
    assert_eq!(p.velocity.y, -1660);
    assert_eq!(p.velocity.x, 0);
}

#[test]
fn floor_contact_damps_clamps_and_reflects() {
    let phy = Physics::default();
    let b = world_boundary();
    let mut p = Particle::new(Vec2::new(10000, 1400), Vec2::new(1000, -2000), 500, 2000, 0);
    p.handle_boundary_collision(&phy, &b);
    assert_eq!(p.position.y, 1500);
    assert_eq!(p.velocity.x, 990);
    assert_eq!(p.velocity.y, 1400);
}

#[test]
fn floor_rebound_below_threshold_comes_to_rest() {
    let phy = Physics::default();
    let b = world_boundary();
    let mut p = Particle::new(Vec2::new(10000, 1400), Vec2::new(1000, -120), 500, 2000, 0);
    p.handle_boundary_collision(&phy, &b);
    // reflected speed would be trunc(120 * 700 / 1000) = 84 < 100, so it rests
    assert_eq!(p.position.y, 1500);
    assert_eq!(p.velocity.y, 0);
    assert_eq!(p.velocity.x, 990);
}

#[test]
fn dropped_particle_settles_on_floor_and_stays() {
    // rest is stable when one gravity increment rebounds below the
    // threshold: trunc(166 * 500 / 1000) = 83 < 100
    let phy = Physics { gravity: -9800, restitution: 500, friction: 990 };
    let b = world_boundary();
    let mut p = Particle::new(Vec2::new(10000, 5000), Vec2::new(0, 0), 500, 2000, 0);
    let mut n: i64 = 0;
    while n < 2000 {
        p.update(&phy, 17);
        p.handle_boundary_collision(&phy, &b);
        n += 1;
    }
    assert_eq!(p.position.y, 1500);
    assert_eq!(p.velocity.y, 0);
    let mut m: i64 = 0;
    while m < 100 {
        p.update(&phy, 17);
        p.handle_boundary_collision(&phy, &b);
        assert_eq!(p.position.y, 1500);
        assert_eq!(p.velocity.y, 0);
        m += 1;
    }
}

#[test]
fn floor_jitter_stays_clamped_with_default_constants() {
    // with the default restitution one gravity increment rebounds to
    // trunc(166 * 700 / 1000) = 116, just over the threshold, so the
    // vertical velocity jitters between 0 and 116 while the particle stays
    // exactly on the floor line
    let phy = Physics::default();
    let b = world_boundary();
    let mut p = Particle::new(Vec2::new(10000, 5000), Vec2::new(0, 0), 500, 2000, 0);
    let mut n: i64 = 0;
    while n < 2000 {
        p.update(&phy, 17);
        p.handle_boundary_collision(&phy, &b);
        n += 1;
    }
    let mut m: i64 = 0;
    while m < 100 {
        p.update(&phy, 17);
        p.handle_boundary_collision(&phy, &b);
        assert_eq!(p.position.y, 1500);
        assert!(p.velocity.y == 0 || p.velocity.y == 116);
        m += 1;
    }
}

#[test]
fn wall_reflection_keeps_restitution_speed() {
    let phy = Physics::default();
    let b = world_boundary();
    let mut p = Particle::new(Vec2::new(1200, 10000), Vec2::new(-5000, 0), 500, 2000, 0);
    p.handle_boundary_collision(&phy, &b);
    assert_eq!(p.position.x, 1500);
    assert_eq!(p.velocity.x, 3500);
    assert_eq!(p.velocity.y, 0);

    // a second contact keeps reflecting, with no threshold zeroing
    p.position = Vec2::new(1200, 10000);
    p.velocity = Vec2::new(-3500, 0);
    p.handle_boundary_collision(&phy, &b);
    assert_eq!(p.velocity.x, 2450);

    // even a slow wall hit only scales by restitution, unlike the floor
    p.position = Vec2::new(1200, 10000);
    p.velocity = Vec2::new(-150, 0);
    p.handle_boundary_collision(&phy, &b);
    assert_eq!(p.velocity.x, 105);
}

#[test]
fn ceiling_reflection_has_no_threshold_and_no_friction() {
    let phy = Physics::default();
    let b = world_boundary();
    let mut p = Particle::new(Vec2::new(10000, 18700), Vec2::new(1234, 150), 500, 2000, 0);
    p.handle_boundary_collision(&phy, &b);
    assert_eq!(p.position.y, 18500);
    assert_eq!(p.velocity.y, -105);
    assert_eq!(p.velocity.x, 1234);
}

#[test]
fn corner_contact_clamps_both_axes() {
    let phy = Physics::default();
    let b = world_boundary();
    let mut p = Particle::new(Vec2::new(1200, 1200), Vec2::new(-2000, -2000), 500, 2000, 0);
    p.handle_boundary_collision(&phy, &b);
    assert_eq!(p.position.x, 1500);
    assert_eq!(p.position.y, 1500);
    // floor friction damps vx before the wall reflects it
    assert_eq!(p.velocity.x, 1386);
    assert_eq!(p.velocity.y, 1400);
}
