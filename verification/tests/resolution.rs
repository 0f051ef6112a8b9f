//! Positional correction and impulse-based velocity resolution.

use rigid2d::body::Body;
use rigid2d::resolve::{resolve_collision, resolve_velocities};
use rigid2d::vec2::Vec2;

fn body(x: i64, y: i64, size: i64, vx: i64, vy: i64, anchored: bool) -> Body {
    Body::checked(
        Vec2 { x, y },
        0,
        Vec2 { x: size, y: size },
        Vec2 { x: vx, y: vy },
        anchored,
    )
    .unwrap()
}

#[test]
fn positional_correction_splits_the_depth() {
    let mut a = body(0, 0, 50_000, 0, 0, false);
    let mut b = body(40_000, 0, 50_000, 0, 0, false);
    resolve_collision(&mut a, &mut b, 10_000, Vec2 { x: 1000, y: 0 });
    assert_eq!(a.position, Vec2 { x: -5_000, y: 0 });
    assert_eq!(b.position, Vec2 { x: 45_000, y: 0 });
    assert_eq!(a.velocity, Vec2 { x: 0, y: 0 });
    assert_eq!(b.velocity, Vec2 { x: 0, y: 0 });
}

#[test]
fn anchored_body_is_never_moved() {
    let mut a = body(0, 0, 50_000, 3_000, 0, false);
    let mut b = body(40_000, 0, 50_000, -3_000, 0, true);
    let b_before = b;
    resolve_collision(&mut a, &mut b, 10_000, Vec2 { x: 1000, y: 0 });
    resolve_velocities(&mut a, &mut b, Vec2 { x: 1000, y: 0 });
    assert_eq!(b, b_before);
    // The moving partner still receives only its half of the depth.
    assert_eq!(a.position, Vec2 { x: -5_000, y: 0 });
}

#[test]
fn equal_masses_head_on_rebound_at_half_speed() {
    let mut a = body(0, 0, 50_000, 2_000, 0, false);
    let mut b = body(40_000, 0, 50_000, -2_000, 0, false);
    resolve_velocities(&mut a, &mut b, Vec2 { x: 1000, y: 0 });
    // Approach speed 4000 becomes rebound speed 2000, split evenly.
    assert_eq!(a.velocity, Vec2 { x: -1_000, y: 0 });
    assert_eq!(b.velocity, Vec2 { x: 1_000, y: 0 });
}

#[test]
fn anchored_partner_absorbs_nothing() {
    let mut a = body(0, 0, 50_000, 2_000, 0, false);
    let mut b = body(40_000, 0, 50_000, -2_000, 0, true);
    resolve_velocities(&mut a, &mut b, Vec2 { x: 1000, y: 0 });
    // Equal computed masses: the free body takes its own share only.
    assert_eq!(a.velocity, Vec2 { x: -1_000, y: 0 });
    assert_eq!(b.velocity, Vec2 { x: -2_000, y: 0 });
}

#[test]
fn heavier_partner_changes_less() {
    let mut a = body(0, 0, 50_000, 3_000, 0, false);
    let mut b = body(60_000, 0, 100_000, 0, 0, false);
    resolve_velocities(&mut a, &mut b, Vec2 { x: 1000, y: 0 });
    // mass_a : mass_b = 1 : 4; the relative speed 3000 reflects to 1500.
    assert_eq!(a.velocity, Vec2 { x: -600, y: 0 });
    assert_eq!(b.velocity, Vec2 { x: 900, y: 0 });
}

#[test]
fn resolution_keeps_rotation_size_and_anchoring() {
    let mut a = Body::checked(
        Vec2 { x: 0, y: 0 },
        30,
        Vec2 { x: 50_000, y: 20_000 },
        Vec2 { x: 100, y: 200 },
        false,
    )
    .unwrap();
    let mut b = body(30_000, 0, 50_000, 0, 0, false);
    resolve_collision(&mut a, &mut b, 5_000, Vec2 { x: 1000, y: 0 });
    resolve_velocities(&mut a, &mut b, Vec2 { x: 1000, y: 0 });
    assert_eq!(a.rotation, 30);
    assert_eq!(a.size, Vec2 { x: 50_000, y: 20_000 });
    assert!(!a.anchored);
}

#[test]
fn opposite_velocities_rebound_symmetrically_whatever_the_normal() {
    // Equal extents and exactly opposite velocities: the kicks mirror
    // bit for bit even where the divisions truncate, for any normal.
    let mut a = Body::checked(
        Vec2 { x: 0, y: 0 },
        0,
        Vec2 { x: 50_000, y: 50_000 },
        Vec2 { x: 1_001, y: 503 },
        false,
    )
    .unwrap();
    let mut b = Body::checked(
        Vec2 { x: 40_000, y: 0 },
        0,
        Vec2 { x: 50_000, y: 50_000 },
        Vec2 { x: -1_001, y: -503 },
        false,
    )
    .unwrap();
    resolve_velocities(&mut a, &mut b, Vec2 { x: 707, y: -707 });
    assert_eq!(a.velocity.x, -b.velocity.x);
    assert_eq!(a.velocity.y, -b.velocity.y);
}
