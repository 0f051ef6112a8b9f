//! Broad-phase and narrow-phase collision detection.

use rigid2d::body::Body;
use rigid2d::collide::{check_broad_collision, check_precise_collision, Collision, overlap};
use rigid2d::vec2::Vec2;

fn square_at(x: i64, y: i64, rotation: i64) -> Body {
    Body::checked(
        Vec2 { x, y },
        rotation,
        Vec2 { x: 50_000, y: 50_000 },
        Vec2 { x: 0, y: 0 },
        false,
    )
    .unwrap()
}

#[test]
fn overlap_tests_interval_intersection() {
    assert!(overlap(0, 10, 5, 15));
    assert!(overlap(5, 15, 0, 10));
    assert!(overlap(0, 10, 10, 20)); // touching counts
    assert!(!overlap(0, 10, 11, 20));
    assert!(!overlap(11, 20, 0, 10));
}

#[test]
fn broad_phase_accepts_near_and_rejects_far() {
    let a = square_at(0, 0, 0);
    // Circumscribed radius of a 50x50 square: 35355 fixed-point steps.
    assert!(check_broad_collision(&a, &square_at(40_000, 0, 0)));
    assert!(check_broad_collision(&a, &square_at(0, 70_000, 0)));
    assert!(!check_broad_collision(&a, &square_at(80_000, 0, 0)));
    assert!(!check_broad_collision(&a, &square_at(50_000, 50_000, 0)));
}

#[test]
fn broad_phase_covers_rotated_rectangles() {
    // At 45 degrees the square's corner reaches 35.25 units: the
    // diagonal-based radius still covers it.
    let a = square_at(0, 0, 45);
    let b = square_at(60_000, 0, 45);
    assert!(check_broad_collision(&a, &b));
}

#[test]
fn touching_squares_report_contact_with_exact_depth() {
    let a = square_at(0, 0, 0);
    let b = square_at(40_000, 0, 0);
    match check_precise_collision(&a, &b) {
        Collision::Contact { depth, normal } => {
            assert_eq!(depth, 10_000);
            assert_eq!(normal, Vec2 { x: 1000, y: 0 });
        },
        Collision::Separated => panic!("expected a contact"),
    }
}

#[test]
fn contact_normal_points_from_first_toward_second() {
    // Same pair the other way round: the normal flips.
    let a = square_at(40_000, 0, 0);
    let b = square_at(0, 0, 0);
    match check_precise_collision(&a, &b) {
        Collision::Contact { depth, normal } => {
            assert_eq!(depth, 10_000);
            assert_eq!(normal, Vec2 { x: -1000, y: 0 });
        },
        Collision::Separated => panic!("expected a contact"),
    }
}

#[test]
fn separated_squares_report_no_contact() {
    let a = square_at(0, 0, 0);
    let b = square_at(60_000, 0, 0);
    assert!(matches!(check_precise_collision(&a, &b), Collision::Separated));
}

#[test]
fn vertical_overlap_picks_the_vertical_axis() {
    let a = square_at(0, 0, 0);
    let b = square_at(0, 42_000, 0);
    match check_precise_collision(&a, &b) {
        Collision::Contact { depth, normal } => {
            assert_eq!(depth, 8_000);
            assert_eq!(normal, Vec2 { x: 0, y: 1000 });
        },
        Collision::Separated => panic!("expected a contact"),
    }
}

#[test]
fn narrow_contact_implies_broad_overlap() {
    // Broad phase must never reject a pair the narrow phase accepts.
    let pairs = [
        (square_at(0, 0, 0), square_at(40_000, 0, 0)),
        (square_at(0, 0, 45), square_at(49_000, 0, 0)),
        (square_at(-10_000, 3_000, 13), square_at(20_000, -9_000, 77)),
        (square_at(0, 0, 0), square_at(49_999, 0, 0)),
    ];
    for (a, b) in pairs {
        if matches!(check_precise_collision(&a, &b), Collision::Contact { .. }) {
            assert!(check_broad_collision(&a, &b));
        }
    }
}

#[test]
fn rotated_pair_separated_by_a_diagonal_axis() {
    // Two squares whose axis-aligned bounding intervals overlap but whose
    // rotated faces separate them.
    let a = square_at(0, 0, 45);
    let b = square_at(40_000, 40_000, 45);
    assert!(matches!(check_precise_collision(&a, &b), Collision::Separated));
}

#[test]
fn corner_tangency_sits_outside_the_broad_circle() {
    // Exact corner-to-corner touch: the narrow phase counts touching
    // intervals as a contact of depth zero, while the center distance
    // equals the summed circumscribed radii, which the strict broad-phase
    // comparison rejects.  Any closer pair with a few steps of overlap on
    // both axes is always accepted by the broad phase.
    let a = square_at(0, 0, 0);
    let b = square_at(50_000, 50_000, 0);
    assert!(matches!(
        check_precise_collision(&a, &b),
        Collision::Contact { depth: 0, .. }
    ));
    assert!(!check_broad_collision(&a, &b));
    let c = square_at(49_000, 49_000, 0);
    assert!(matches!(check_precise_collision(&a, &c), Collision::Contact { .. }));
    assert!(check_broad_collision(&a, &c));
}
