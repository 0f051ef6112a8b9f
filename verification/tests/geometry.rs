//! Derived geometry of a body: corners, edge midpoints and normals.

use rigid2d::body::Body;
use rigid2d::vec2::Vec2;

fn square_at(x: i64, y: i64, rotation: i64) -> Body {
    Body::checked(
        Vec2 { x, y },
        rotation,
        Vec2 { x: 50_000, y: 50_000 },
        Vec2 { x: 0, y: 0 },
        false,
    )
    .unwrap()
}

#[test]
fn corners_of_unrotated_square() {
    let b = square_at(0, 0, 0);
    let c = b.get_corners();
    assert_eq!(c[0], Vec2 { x: -25_000, y: -25_000 });
    assert_eq!(c[1], Vec2 { x: 25_000, y: -25_000 });
    assert_eq!(c[2], Vec2 { x: 25_000, y: 25_000 });
    assert_eq!(c[3], Vec2 { x: -25_000, y: 25_000 });
}

#[test]
fn corners_translate_with_position() {
    let b = square_at(10_000, -4_000, 0);
    let c = b.get_corners();
    assert_eq!(c[0], Vec2 { x: -15_000, y: -29_000 });
    assert_eq!(c[2], Vec2 { x: 35_000, y: 21_000 });
}

#[test]
fn full_turn_gives_identical_corners() {
    let c0 = square_at(7_000, 9_000, 25).get_corners();
    let c1 = square_at(7_000, 9_000, 25 + 360).get_corners();
    assert_eq!(c0, c1);
}

#[test]
fn quarter_turn_cycles_corners() {
    let c0 = square_at(0, 0, 0).get_corners();
    let c90 = square_at(0, 0, 90).get_corners();
    // Rotating the square a quarter turn maps each corner onto the
    // position the next corner held.
    assert_eq!(c90[0], c0[1]);
    assert_eq!(c90[1], c0[2]);
    assert_eq!(c90[2], c0[3]);
    assert_eq!(c90[3], c0[0]);
}

#[test]
fn corners_at_forty_five_degrees() {
    let c = square_at(0, 0, 45).get_corners();
    // cos 45 = sin 45 = 705 in fixed point: the diagonal of the square
    // lands on the axes.
    assert_eq!(c[0], Vec2 { x: 0, y: -35_250 });
    assert_eq!(c[1], Vec2 { x: 35_250, y: 0 });
    assert_eq!(c[2], Vec2 { x: 0, y: 35_250 });
    assert_eq!(c[3], Vec2 { x: -35_250, y: 0 });
}

#[test]
fn opposite_sides_equal_for_any_rotation() {
    let c = square_at(3_000, -2_000, 77).get_corners();
    let s0 = (c[1].x - c[0].x, c[1].y - c[0].y);
    let s2 = (c[3].x - c[2].x, c[3].y - c[2].y);
    let s1 = (c[2].x - c[1].x, c[2].y - c[1].y);
    let s3 = (c[0].x - c[3].x, c[0].y - c[3].y);
    assert_eq!(s2, (-s0.0, -s0.1));
    assert_eq!(s3, (-s1.0, -s1.1));
}

#[test]
fn edges_of_unrotated_square() {
    let b = square_at(0, 0, 0);
    let e = b.get_edges();
    assert_eq!(e[0], Vec2 { x: 0, y: -25_000 });
    assert_eq!(e[1], Vec2 { x: 25_000, y: 0 });
    assert_eq!(e[2], Vec2 { x: 0, y: 25_000 });
    assert_eq!(e[3], Vec2 { x: -25_000, y: 0 });
}

#[test]
fn normals_of_unrotated_square() {
    let n = square_at(0, 0, 0).get_normals();
    assert_eq!(n[0], Vec2 { x: 0, y: -1000 });
    assert_eq!(n[1], Vec2 { x: 1000, y: 0 });
    assert_eq!(n[2], Vec2 { x: 0, y: 1000 });
    assert_eq!(n[3], Vec2 { x: -1000, y: 0 });
}

#[test]
fn normals_are_unit_length_within_tolerance() {
    for rot in [0i64, 13, 45, 77, 133, 217, 301] {
        let n = square_at(0, 0, rot).get_normals();
        for k in 0..4 {
            let len2 = n[k].x * n[k].x + n[k].y * n[k].y;
            // Within half a percent of the scaled unit.
            assert!((1_000_000 - len2).abs() <= 5_000, "rotation {rot} axis {k}: {len2}");
        }
    }
}

#[test]
fn normals_are_perpendicular_to_their_edges() {
    let b = square_at(0, 0, 45);
    let c = b.get_corners();
    let n = b.get_normals();
    for k in 0..4 {
        let j = (k + 1) % 4;
        let ex = c[j].x - c[k].x;
        let ey = c[j].y - c[k].y;
        // The quarter-turned edge is exactly perpendicular; the unit
        // scaling moves the dot product by less than one edge length.
        let raw = ex * n[k].x + ey * n[k].y;
        assert!(raw.abs() <= ex.abs() + ey.abs(), "axis {k}: {raw}");
    }
}

#[test]
fn geometry_derivation_is_idempotent() {
    let b = square_at(4_000, 5_000, 31);
    assert_eq!(b.get_corners(), b.get_corners());
    assert_eq!(b.get_edges(), b.get_edges());
    assert_eq!(b.get_normals(), b.get_normals());
}

#[test]
fn new_body_is_the_unit_square_at_rest() {
    let b = Body::new();
    assert_eq!(b.position, Vec2 { x: 0, y: 0 });
    assert_eq!(b.rotation, 0);
    assert_eq!(b.size, Vec2 { x: 50_000, y: 50_000 });
    assert_eq!(b.velocity, Vec2 { x: 0, y: 0 });
    assert!(!b.anchored);
}

#[test]
fn checked_refuses_degenerate_or_out_of_range_bodies() {
    // Zero extent: degenerate geometry is refused at creation.
    assert!(Body::checked(
        Vec2 { x: 0, y: 0 },
        0,
        Vec2 { x: 0, y: 50_000 },
        Vec2 { x: 0, y: 0 },
        false,
    )
    .is_none());
    // Negative extent.
    assert!(Body::checked(
        Vec2 { x: 0, y: 0 },
        0,
        Vec2 { x: 50_000, y: -1 },
        Vec2 { x: 0, y: 0 },
        false,
    )
    .is_none());
    // Position outside the supported coordinate range.
    assert!(Body::checked(
        Vec2 { x: 2_000_000_000_000, y: 0 },
        0,
        Vec2 { x: 50_000, y: 50_000 },
        Vec2 { x: 0, y: 0 },
        false,
    )
    .is_none());
    // A well-formed body passes through unchanged.
    let b = Body::checked(
        Vec2 { x: 1, y: 2 },
        3,
        Vec2 { x: 10, y: 11 },
        Vec2 { x: -4, y: 5 },
        true,
    )
    .unwrap();
    assert_eq!(b.position, Vec2 { x: 1, y: 2 });
    assert_eq!(b.rotation, 3);
    assert_eq!(b.size, Vec2 { x: 10, y: 11 });
    assert_eq!(b.velocity, Vec2 { x: -4, y: 5 });
    assert!(b.anchored);
}
