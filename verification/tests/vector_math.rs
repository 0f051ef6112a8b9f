//! Vector utilities and fixed-point trigonometry, on exact values.

use rigid2d::vec2::{Vec2, get_length, normalize, dot, project, rotate_point, rotate_point_around};
use rigid2d::trig::{sin_milli, cos_milli, norm_deg};

#[test]
fn length_of_scaled_three_four_five() {
    assert_eq!(get_length(Vec2 { x: 3000, y: 4000 }), 5000);
}

#[test]
fn length_rounds_down() {
    // sqrt(2_000_000) = 1414.21...
    assert_eq!(get_length(Vec2 { x: 1000, y: 1000 }), 1414);
    assert_eq!(get_length(Vec2 { x: 0, y: 0 }), 0);
    assert_eq!(get_length(Vec2 { x: -1, y: 0 }), 1);
}

#[test]
fn normalize_three_four_five() {
    let n = normalize(Vec2 { x: 3000, y: 4000 });
    assert_eq!(n, Vec2 { x: 600, y: 800 });
}

#[test]
fn normalize_is_odd_in_each_component() {
    let n = normalize(Vec2 { x: -3000, y: 4000 });
    assert_eq!(n, Vec2 { x: -600, y: 800 });
    let m = normalize(Vec2 { x: 3000, y: -4000 });
    assert_eq!(m, Vec2 { x: 600, y: -800 });
}

#[test]
fn normalize_axis_aligned_is_exact() {
    assert_eq!(normalize(Vec2 { x: 5, y: 0 }), Vec2 { x: 1000, y: 0 });
    assert_eq!(normalize(Vec2 { x: 0, y: -7000 }), Vec2 { x: 0, y: -1000 });
}

#[test]
fn dot_with_unit_axis_reads_component() {
    assert_eq!(dot(Vec2 { x: 1000, y: 0 }, Vec2 { x: 123456, y: 999 }), 123456);
    assert_eq!(dot(Vec2 { x: 0, y: -1000 }, Vec2 { x: 5, y: 70 }), -70);
}

#[test]
fn dot_scales_by_fixed_point_unit() {
    // (707 * 1000 + 707 * 1000) / 1000
    assert_eq!(dot(Vec2 { x: 707, y: 707 }, Vec2 { x: 1000, y: 1000 }), 1414);
}

#[test]
fn project_is_dot_with_axis_first() {
    assert_eq!(project(Vec2 { x: 2000, y: 3000 }, Vec2 { x: 0, y: 1000 }), 3000);
    assert_eq!(
        project(Vec2 { x: 2000, y: 3000 }, Vec2 { x: 1000, y: 0 }),
        dot(Vec2 { x: 1000, y: 0 }, Vec2 { x: 2000, y: 3000 }),
    );
}

#[test]
fn rotate_point_quarter_turn() {
    assert_eq!(rotate_point(Vec2 { x: 1000, y: 0 }, 90), Vec2 { x: 0, y: 1000 });
}

#[test]
fn rotate_point_around_half_turn() {
    let r = rotate_point_around(
        Vec2 { x: 2000, y: 1000 },
        Vec2 { x: 1000, y: 1000 },
        sin_milli(180),
        cos_milli(180),
    );
    assert_eq!(r, Vec2 { x: 0, y: 1000 });
}

#[test]
fn sine_cardinal_and_bhaskara_values() {
    assert_eq!(sin_milli(0), 0);
    assert_eq!(sin_milli(30), 500);
    assert_eq!(sin_milli(45), 705);
    assert_eq!(sin_milli(90), 1000);
    assert_eq!(sin_milli(150), 500);
    assert_eq!(sin_milli(180), 0);
    assert_eq!(sin_milli(270), -1000);
}

#[test]
fn cosine_cardinal_values() {
    assert_eq!(cos_milli(0), 1000);
    assert_eq!(cos_milli(90), 0);
    assert_eq!(cos_milli(180), -1000);
    assert_eq!(cos_milli(270), 0);
    assert_eq!(cos_milli(45), 705);
}

#[test]
fn trig_is_periodic_and_handles_negatives() {
    assert_eq!(sin_milli(390), sin_milli(30));
    assert_eq!(sin_milli(-90), -1000);
    assert_eq!(cos_milli(-360), 1000);
    assert_eq!(norm_deg(-30), 330);
    assert_eq!(norm_deg(720), 0);
    assert_eq!(norm_deg(359), 359);
}
