//! The step driver: integration order, anchoring, and pair solving.

use rigid2d::body::Body;
use rigid2d::step::{StepConfig, step, integrate_bodies};
use rigid2d::vec2::Vec2;

fn square_at(x: i64, y: i64, vx: i64, vy: i64, anchored: bool) -> Body {
    Body::checked(
        Vec2 { x, y },
        0,
        Vec2 { x: 50_000, y: 50_000 },
        Vec2 { x: vx, y: vy },
        anchored,
    )
    .unwrap()
}

#[test]
fn default_config_matches_the_reference_behavior() {
    let c = StepConfig::new();
    assert_eq!(c.gravity, Vec2 { x: 0, y: 120_000 });
    assert_eq!(c.solver_iterations, 5);
}

#[test]
fn one_second_of_gravity_updates_velocity_before_position() {
    // One step of a whole second: velocity picks up the full gravity and
    // the position integrates the updated velocity (semi-implicit Euler).
    let mut bodies = vec![square_at(0, 0, 0, 0, false)];
    let config = StepConfig::new();
    step(&mut bodies, &config, 1_000, true);
    assert_eq!(bodies[0].velocity, Vec2 { x: 0, y: 120_000 });
    assert_eq!(bodies[0].position, Vec2 { x: 0, y: 120_000 });
}

#[test]
fn inactive_simulation_freezes_integration() {
    let mut bodies = vec![square_at(0, 0, 4_000, 0, false)];
    let config = StepConfig::new();
    step(&mut bodies, &config, 1_000, false);
    assert_eq!(bodies[0].position, Vec2 { x: 0, y: 0 });
    assert_eq!(bodies[0].velocity, Vec2 { x: 4_000, y: 0 });
}

#[test]
fn anchored_bodies_ignore_gravity_and_motion() {
    let mut bodies = vec![square_at(5_000, 6_000, 0, 0, true)];
    let config = StepConfig::new();
    step(&mut bodies, &config, 1_000, true);
    assert_eq!(bodies[0].position, Vec2 { x: 5_000, y: 6_000 });
    assert_eq!(bodies[0].velocity, Vec2 { x: 0, y: 0 });
}

#[test]
fn integration_moves_by_velocity_times_dt() {
    let mut bodies = vec![square_at(1_000, 2_000, 3_000, -4_000, false)];
    // A quarter second without gravity.
    integrate_bodies(&mut bodies, Vec2 { x: 0, y: 0 }, 250, true);
    assert_eq!(bodies[0].velocity, Vec2 { x: 3_000, y: -4_000 });
    assert_eq!(bodies[0].position, Vec2 { x: 1_750, y: 1_000 });
}

#[test]
fn overlapping_pair_settles_to_rest() {
    // No gravity, no initial motion: the solver separates the pair by
    // half the depth each in the first sweep and is stable afterwards.
    let mut bodies = vec![
        square_at(0, 0, 0, 0, false),
        square_at(40_000, 0, 0, 0, false),
    ];
    let config = StepConfig { gravity: Vec2 { x: 0, y: 0 }, solver_iterations: 5 };
    step(&mut bodies, &config, 1_000, true);
    assert_eq!(bodies[0].position, Vec2 { x: -5_000, y: 0 });
    assert_eq!(bodies[1].position, Vec2 { x: 45_000, y: 0 });
    assert_eq!(bodies[0].velocity, Vec2 { x: 0, y: 0 });
    assert_eq!(bodies[1].velocity, Vec2 { x: 0, y: 0 });
}

#[test]
fn box_resting_into_an_anchored_floor() {
    // A box sunk into an anchored floor: one sweep pushes the box out by
    // half the depth and reflects its downward speed.
    let floor = Body::checked(
        Vec2 { x: 0, y: 50_000 },
        0,
        Vec2 { x: 200_000, y: 50_000 },
        Vec2 { x: 0, y: 0 },
        true,
    )
    .unwrap();
    let falling = square_at(0, 10_000, 0, 1_000, false);
    let mut bodies = vec![falling, floor];
    let config = StepConfig { gravity: Vec2 { x: 0, y: 0 }, solver_iterations: 1 };
    step(&mut bodies, &config, 0, true);
    // Overlap of 10000 along y: the box keeps only its half of the
    // correction; the floor does not move.
    assert_eq!(bodies[0].position, Vec2 { x: 0, y: 5_000 });
    assert_eq!(bodies[1].position, Vec2 { x: 0, y: 50_000 });
    assert_eq!(bodies[1].velocity, Vec2 { x: 0, y: 0 });
    // Impulse against the floor: mass ratio 1:4, approach speed 1000.
    assert_eq!(bodies[0].velocity, Vec2 { x: 0, y: -200 });
}

#[test]
fn step_keeps_rotation_size_and_anchoring() {
    let mut bodies = vec![
        Body::checked(
            Vec2 { x: 0, y: 0 },
            45,
            Vec2 { x: 50_000, y: 60_000 },
            Vec2 { x: 100, y: 0 },
            false,
        )
        .unwrap(),
        square_at(30_000, 0, 0, 0, true),
    ];
    let config = StepConfig::new();
    step(&mut bodies, &config, 100, true);
    assert_eq!(bodies[0].rotation, 45);
    assert_eq!(bodies[0].size, Vec2 { x: 50_000, y: 60_000 });
    assert!(!bodies[0].anchored);
    assert!(bodies[1].anchored);
}
