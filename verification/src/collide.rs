//! Collision detection: the circumscribed-circle broad phase and the
//! separating-axis narrow phase with minimum penetration depth and
//! contact normal.

use vstd::prelude::*;
use crate::num::{
    SCALE, spec_tdiv, spec_isqrt, lemma_isqrt_bounds, lemma_isqrt_mono,
    lemma_root_le, lemma_isqrt_below_square, lemma_le_isqrt, lemma_tdiv_mono,
    lemma_tdiv_multiples_vanish, lemma_tdiv_range,
};
use crate::vec2::{
    Vec2, V2, v2_sub, v2_neg, spec_dot, spec_dot_raw, spec_len2, spec_length,
    get_length, project, lemma_dot_bound, lemma_prod_bound,
};
use crate::body::{
    Body, spec_corner, spec_normal, in_corner_range, unit_range, CORNER_ABS,
    spec_half, lemma_half_extent_range, lemma_axis_aligned_geometry, spec_corner_offset,
};
use crate::vec2::{v2, v2_add};

verus! {

/// Outcome of the narrow phase.  A rejected pair carries no payload: the
/// minimum-overlap bookkeeping is only meaningful when the pair collides.
#[derive(Clone, Copy, PartialEq, Eq, Structural, Debug)]
pub enum Collision {
    /// A separating axis was found: the bodies do not overlap.
    Separated,
    /// No separating axis exists: the bodies overlap by `depth` along the
    /// unit axis `normal`, oriented from the first body toward the second.
    Contact { depth: i64, normal: Vec2 },
}

pub open spec fn spec_min2(a: int, b: int) -> int {
    if a <= b {
        a
    } else {
        b
    }
}

pub open spec fn spec_max2(a: int, b: int) -> int {
    if a >= b {
        a
    } else {
        b
    }
}

pub open spec fn spec_min4(a: int, b: int, c: int, d: int) -> int {
    spec_min2(spec_min2(a, b), spec_min2(c, d))
}

pub open spec fn spec_max4(a: int, b: int, c: int, d: int) -> int {
    spec_max2(spec_max2(a, b), spec_max2(c, d))
}

/// Least projection of the body's four corners onto `axis`.
pub open spec fn spec_min_proj(b: Body, axis: V2) -> int {
    spec_min4(
        spec_dot(axis, spec_corner(b, 0)),
        spec_dot(axis, spec_corner(b, 1)),
        spec_dot(axis, spec_corner(b, 2)),
        spec_dot(axis, spec_corner(b, 3)),
    )
}

/// Greatest projection of the body's four corners onto `axis`.
pub open spec fn spec_max_proj(b: Body, axis: V2) -> int {
    spec_max4(
        spec_dot(axis, spec_corner(b, 0)),
        spec_dot(axis, spec_corner(b, 1)),
        spec_dot(axis, spec_corner(b, 2)),
        spec_dot(axis, spec_corner(b, 3)),
    )
}

/// Candidate axis `k` of the pair: the first body's four normals, then
/// the second's, in the fixed order the sweep examines them.
pub open spec fn spec_axis(a: Body, b: Body, k: int) -> V2
    recommends
        0 <= k < 8,
{
    if k < 4 {
        spec_normal(a, k)
    } else {
        spec_normal(b, k - 4)
    }
}

/// Signed interval overlap of the two bodies' projections on axis `k`:
/// nonnegative exactly when the projected intervals touch or overlap.
pub open spec fn spec_overlap_amount(a: Body, b: Body, k: int) -> int
    recommends
        0 <= k < 8,
{
    let axis = spec_axis(a, b, k);
    spec_min2(spec_max_proj(a, axis), spec_max_proj(b, axis))
        - spec_max2(spec_min_proj(a, axis), spec_min_proj(b, axis))
}

/// Axis `k` oriented from the first body toward the second: flipped when
/// it points against the center-to-center direction.
pub open spec fn spec_oriented_axis(a: Body, b: Body, k: int) -> V2
    recommends
        0 <= k < 8,
{
    let n = spec_axis(a, b, k);
    if spec_dot_raw(v2_sub(b.position@, a.position@), n) < 0 {
        v2_neg(n)
    } else {
        n
    }
}

/// The axis the sweep's bookkeeping holds after examining the first `n`
/// candidates: the earliest axis attaining the least overlap so far,
/// because the minimum is replaced only on strict improvement.
pub open spec fn spec_best_axis_upto(a: Body, b: Body, n: int) -> int
    recommends
        1 <= n <= 8,
    decreases n,
{
    if n <= 1 {
        0
    } else {
        let prev = spec_best_axis_upto(a, b, n - 1);
        if spec_overlap_amount(a, b, n - 1) < spec_overlap_amount(a, b, prev) {
            n - 1
        } else {
            prev
        }
    }
}

/// The axis a reported contact carries: the first of the eight candidates
/// attaining the minimum overlap, in sweep order.
pub open spec fn spec_best_axis(a: Body, b: Body) -> int {
    spec_best_axis_upto(a, b, 8)
}

/// The recorded axis is always among those already examined.
pub proof fn lemma_best_axis_upto_range(a: Body, b: Body, n: int)
    requires
        n >= 1,
    ensures
        0 <= spec_best_axis_upto(a, b, n) < n,
    decreases n,
{
    if n > 1 {
        lemma_best_axis_upto_range(a, b, n - 1);
    }
}

/// The pair collides when no candidate axis separates it.
pub open spec fn spec_collides(a: Body, b: Body) -> bool {
    forall|k: int| 0 <= k < 8 ==> #[trigger] spec_overlap_amount(a, b, k) >= 0
}

/// Circumscribed-circle radius of a body: half the diagonal of its
/// extent, which bounds the rotated rectangle whatever its rotation.
pub open spec fn spec_broad_radius(size: V2) -> int {
    spec_tdiv(spec_isqrt(spec_len2(size)), 2)
}

/// Distance between the two centers, rounded down.
pub open spec fn spec_center_distance(a: Body, b: Body) -> int {
    spec_length(v2_sub(b.position@, a.position@))
}

/// Two projected intervals touch or overlap.
pub fn overlap(min_a: i64, max_a: i64, min_b: i64, max_b: i64) -> (r: bool)
    ensures
        r == !(max_a < min_b || max_b < min_a),
{
    !(max_a < min_b || max_b < min_a)
}

/// Cheap broad-phase test: the circumscribed circles of the two bodies
/// intersect.  False positives are expected and left to the narrow
/// phase; the radius uses the full diagonal so a rotated rectangle never
/// escapes its circle.
pub fn check_broad_collision(shape_a: &Body, shape_b: &Body) -> (r: bool)
    requires
        shape_a.well_formed(),
        shape_b.well_formed(),
    ensures
        r == (spec_center_distance(*shape_a, *shape_b)
            < spec_broad_radius(shape_a.size@) + spec_broad_radius(shape_b.size@)),
{
    let diff = Vec2 {
        x: shape_b.position.x - shape_a.position.x,
        y: shape_b.position.y - shape_a.position.y,
    };
    let distance = get_length(diff);
    let radius_a = half_len(get_length(shape_a.size));
    let radius_b = half_len(get_length(shape_b.size));
    distance < radius_a + radius_b
}

/// Half of a nonnegative length, rounded down.
fn half_len(x: i64) -> (r: i64)
    requires
        x >= 0,
    ensures
        r == spec_tdiv(x as int, 2),
{
    ((x as u64) / 2) as i64
}


/// Quantitative broad-phase soundness.  Whenever the two centers differ,
/// in each coordinate, by at least three fixed-point steps less than the
/// summed half extents, the broad phase accepts the pair.  For
/// axis-aligned bodies those are exactly the pairs whose projected
/// intervals overlap by three steps on both coordinate axes, so no such
/// contact is ever pruned; the three-step margin covers the rounding of
/// the half extents, the square roots and the halved diagonal.  At exact
/// tangency the unrounded inclusion itself turns into an equality that
/// the strict broad-phase comparison rejects: two 50-unit squares whose
/// centers differ by 50 units in both coordinates touch corner to
/// corner at a center distance equal to the summed radii.
pub proof fn lemma_broad_phase_covers_close_pairs(a: Body, b: Body)
    requires
        a.well_formed(),
        b.well_formed(),
        b.position@.x - a.position@.x <= spec_half(a.size@.x) + spec_half(b.size@.x) - 3,
        a.position@.x - b.position@.x <= spec_half(a.size@.x) + spec_half(b.size@.x) - 3,
        b.position@.y - a.position@.y <= spec_half(a.size@.y) + spec_half(b.size@.y) - 3,
        a.position@.y - b.position@.y <= spec_half(a.size@.y) + spec_half(b.size@.y) - 3,
    ensures
        spec_center_distance(a, b)
            < spec_broad_radius(a.size@) + spec_broad_radius(b.size@),
{
    let hxa = spec_half(a.size@.x);
    let hya = spec_half(a.size@.y);
    let hxb = spec_half(b.size@.x);
    let hyb = spec_half(b.size@.y);
    lemma_half_extent_range(a.size@.x);
    lemma_half_extent_range(a.size@.y);
    lemma_half_extent_range(b.size@.x);
    lemma_half_extent_range(b.size@.y);
    let xs = hxa + hxb;
    let ys = hya + hyb;
    let dx = b.position@.x - a.position@.x;
    let dy = b.position@.y - a.position@.y;
    let qa = hxa * hxa + hya * hya;
    let qb = hxb * hxb + hyb * hyb;
    let ra = spec_isqrt(qa);
    let rb = spec_isqrt(qb);
    lemma_isqrt_bounds(qa);
    lemma_isqrt_bounds(qb);
    let t = ra + rb;

    // Cauchy-Schwarz: the cross term is at most the product of the norms.
    let cross = hxa * hxb + hya * hyb;
    lemma_cauchy_schwarz(hxa, hya, hxb, hyb);
    assert(cross >= 0) by (nonlinear_arith)
        requires hxa >= 0, hya >= 0, hxb >= 0, hyb >= 0, cross == hxa * hxb + hya * hyb;
    assert(qa * qb < ((ra + 1) * (rb + 1)) * ((ra + 1) * (rb + 1))) by (nonlinear_arith)
        requires
            0 <= qa, 0 <= qb,
            qa < (ra + 1) * (ra + 1),
            qb < (rb + 1) * (rb + 1),
            ra >= 0, rb >= 0;
    assert(0 <= (ra + 1) * (rb + 1)) by (nonlinear_arith)
        requires ra >= 0, rb >= 0;
    lemma_root_le(cross, (ra + 1) * (rb + 1));

    // The summed extents against the summed roots, both squared.
    assert(xs * xs + ys * ys == qa + qb + 2 * cross) by (nonlinear_arith)
        requires
            xs == hxa + hxb, ys == hya + hyb,
            qa == hxa * hxa + hya * hya, qb == hxb * hxb + hyb * hyb,
            cross == hxa * hxb + hya * hyb;
    assert((t + 2) * (t + 2)
        == (ra + 1) * (ra + 1) + (rb + 1) * (rb + 1) + 2 * ((ra + 1) * (rb + 1)))
        by (nonlinear_arith)
        requires t == ra + rb;
    assert((t + 2) * (t + 2) > xs * xs + ys * ys);

    // The summed roots are below the summed extents.
    assert(qa <= (hxa + hya) * (hxa + hya)) by (nonlinear_arith)
        requires hxa >= 0, hya >= 0, qa == hxa * hxa + hya * hya;
    assert(qb <= (hxb + hyb) * (hxb + hyb)) by (nonlinear_arith)
        requires hxb >= 0, hyb >= 0, qb == hxb * hxb + hyb * hyb;
    lemma_root_le(ra, hxa + hya);
    lemma_root_le(rb, hxb + hyb);
    assert(t <= xs + ys);

    // Three steps of margin absorb the rounding.
    assert((xs - 3) * (xs - 3) + (ys - 3) * (ys - 3)
        == xs * xs + ys * ys - 6 * xs - 6 * ys + 18) by (nonlinear_arith);
    assert((t + 2) * (t + 2) == t * t + 4 * t + 4) by (nonlinear_arith);
    assert(t * t > (xs - 3) * (xs - 3) + (ys - 3) * (ys - 3));

    // The center offset fits under the margin.
    assert(dx * dx <= (xs - 3) * (xs - 3)) by (nonlinear_arith)
        requires -(xs - 3) <= dx <= xs - 3, xs - 3 >= 0;
    assert(dy * dy <= (ys - 3) * (ys - 3)) by (nonlinear_arith)
        requires -(ys - 3) <= dy <= ys - 3, ys - 3 >= 0;
    assert(dx * dx >= 0 && dy * dy >= 0) by (nonlinear_arith);
    lemma_isqrt_below_square(dx * dx + dy * dy, t);
    assert(spec_center_distance(a, b) < t);

    // Each rounded radius covers the root of its squared half extents.
    lemma_radius_covers_half_extents(a.size@.x, a.size@.y);
    lemma_radius_covers_half_extents(b.size@.x, b.size@.y);
}


/// Projections onto the exact unit axes read a coordinate off directly.
proof fn lemma_proj_unit_axes(p: V2)
    ensures
        spec_dot(v2(1000, 0), p) == p.x,
        spec_dot(v2(0, -1000), p) == -p.y,
{
    vstd::arithmetic::mul::lemma_mul_by_zero_is_zero(p.x);
    vstd::arithmetic::mul::lemma_mul_by_zero_is_zero(p.y);
    crate::num::lemma_tdiv_multiples_vanish(p.x, 1000);
    crate::num::lemma_tdiv_multiples_vanish(p.y, 1000);
    crate::num::lemma_tdiv_neg(1000 * p.y, 1000);
}

/// Broad-phase soundness for axis-aligned pairs: when both rotations are
/// whole turns and the narrow phase finds at least three fixed-point
/// steps of overlap on the two coordinate axes, the broad phase accepts
/// the pair — no such contact is ever pruned.  The margin is what the
/// rounded radii can lose; at exact corner-to-corner tangency the
/// property itself fails (see [`lemma_broad_phase_covers_close_pairs`]).
pub proof fn lemma_broad_covers_axis_aligned_contact(a: Body, b: Body)
    requires
        a.well_formed(),
        b.well_formed(),
        (a.rotation as int) % 360 == 0,
        (b.rotation as int) % 360 == 0,
        spec_overlap_amount(a, b, 0) >= 3,
        spec_overlap_amount(a, b, 1) >= 3,
    ensures
        spec_center_distance(a, b)
            < spec_broad_radius(a.size@) + spec_broad_radius(b.size@),
{
    lemma_axis_aligned_geometry(a);
    lemma_axis_aligned_geometry(b);
    let hxa = spec_half(a.size@.x);
    let hya = spec_half(a.size@.y);
    let hxb = spec_half(b.size@.x);
    let hyb = spec_half(b.size@.y);
    lemma_half_extent_range(a.size@.x);
    lemma_half_extent_range(a.size@.y);
    lemma_half_extent_range(b.size@.x);
    lemma_half_extent_range(b.size@.y);
    assert(spec_corner(a, 0) == v2_add(spec_corner_offset(a.size@, 0), a.position@));
    assert(spec_corner(a, 1) == v2_add(spec_corner_offset(a.size@, 1), a.position@));
    assert(spec_corner(a, 2) == v2_add(spec_corner_offset(a.size@, 2), a.position@));
    assert(spec_corner(a, 3) == v2_add(spec_corner_offset(a.size@, 3), a.position@));
    assert(spec_corner(b, 0) == v2_add(spec_corner_offset(b.size@, 0), b.position@));
    assert(spec_corner(b, 1) == v2_add(spec_corner_offset(b.size@, 1), b.position@));
    assert(spec_corner(b, 2) == v2_add(spec_corner_offset(b.size@, 2), b.position@));
    assert(spec_corner(b, 3) == v2_add(spec_corner_offset(b.size@, 3), b.position@));
    lemma_proj_unit_axes(spec_corner(a, 0));
    lemma_proj_unit_axes(spec_corner(a, 1));
    lemma_proj_unit_axes(spec_corner(a, 2));
    lemma_proj_unit_axes(spec_corner(a, 3));
    lemma_proj_unit_axes(spec_corner(b, 0));
    lemma_proj_unit_axes(spec_corner(b, 1));
    lemma_proj_unit_axes(spec_corner(b, 2));
    lemma_proj_unit_axes(spec_corner(b, 3));
    // Overlap on the horizontal axis bounds the x offset of the centers.
    assert(spec_axis(a, b, 1) == v2(1000, 0));
    assert(spec_min_proj(a, v2(1000, 0)) == a.position@.x - hxa);
    assert(spec_max_proj(a, v2(1000, 0)) == a.position@.x + hxa);
    assert(spec_min_proj(b, v2(1000, 0)) == b.position@.x - hxb);
    assert(spec_max_proj(b, v2(1000, 0)) == b.position@.x + hxb);
    // Overlap on the vertical axis bounds the y offset of the centers.
    assert(spec_axis(a, b, 0) == v2(0, -1000));
    assert(spec_min_proj(a, v2(0, -1000)) == -a.position@.y - hya);
    assert(spec_max_proj(a, v2(0, -1000)) == -a.position@.y + hya);
    assert(spec_min_proj(b, v2(0, -1000)) == -b.position@.y - hyb);
    assert(spec_max_proj(b, v2(0, -1000)) == -b.position@.y + hyb);
    lemma_broad_phase_covers_close_pairs(a, b);
}

/// The rounded circumscribed radius is at least the rounded norm of the
/// half extents.
proof fn lemma_radius_covers_half_extents(sx: int, sy: int)
    requires
        0 < sx,
        0 < sy,
    ensures
        spec_broad_radius(V2 { x: sx, y: sy })
            >= spec_isqrt(spec_half(sx) * spec_half(sx) + spec_half(sy) * spec_half(sy)),
{
    let hx = spec_half(sx);
    let hy = spec_half(sy);
    let q = hx * hx + hy * hy;
    let r = spec_isqrt(q);
    lemma_isqrt_bounds(q);
    lemma_tdiv_range(sx, 2);
    lemma_tdiv_range(sy, 2);
    assert(4 * q <= sx * sx + sy * sy) by (nonlinear_arith)
        requires 0 <= 2 * hx <= sx, 0 <= 2 * hy <= sy, q == hx * hx + hy * hy;
    assert((2 * r) * (2 * r) <= 4 * q) by (nonlinear_arith)
        requires r * r <= q;
    lemma_le_isqrt(sx * sx + sy * sy, 2 * r);
    lemma_tdiv_mono(2 * r, spec_isqrt(sx * sx + sy * sy), 2);
    lemma_tdiv_multiples_vanish(r, 2);
}

/// Cauchy-Schwarz in two dimensions, through its square remainder.
proof fn lemma_cauchy_schwarz(p: int, q: int, r: int, s: int)
    ensures
        (p * r + q * s) * (p * r + q * s) <= (p * p + q * q) * (r * r + s * s),
{
    assert((p * r + q * s) * (p * r + q * s)
        == (p * r) * (p * r) + 2 * ((p * r) * (q * s)) + (q * s) * (q * s))
        by (nonlinear_arith);
    assert((p * s - q * r) * (p * s - q * r)
        == (p * s) * (p * s) - 2 * ((p * s) * (q * r)) + (q * r) * (q * r))
        by (nonlinear_arith);
    assert((p * r) * (q * s) == (p * s) * (q * r)) by (nonlinear_arith);
    assert((p * p + q * q) * (r * r + s * s)
        == (p * p) * (r * r) + (p * p) * (s * s) + (q * q) * (r * r) + (q * q) * (s * s))
        by (nonlinear_arith);
    assert((p * r) * (p * r) == (p * p) * (r * r)) by (nonlinear_arith);
    assert((q * s) * (q * s) == (q * q) * (s * s)) by (nonlinear_arith);
    assert((p * s) * (p * s) == (p * p) * (s * s)) by (nonlinear_arith);
    assert((q * r) * (q * r) == (q * q) * (r * r)) by (nonlinear_arith);
    assert(0 <= (p * s - q * r) * (p * s - q * r)) by (nonlinear_arith);
}

/// Projections of well-formed corners on unit axes stay within this bound.
pub const PROJ_ABS: i64 = 2_100_000_000_000;

/// Interval overlaps stay within this bound.
pub const OVERLAP_ABS: i64 = 4_200_000_000_000;

/// Projected extent of four corners onto an axis: the least and greatest
/// corner projections.
fn extent(corners: &[Vec2; 4], axis: Vec2) -> (r: (i64, i64))
    requires
        in_corner_range(corners@[0]),
        in_corner_range(corners@[1]),
        in_corner_range(corners@[2]),
        in_corner_range(corners@[3]),
        unit_range(axis),
    ensures
        r.0 == spec_min4(
            spec_dot(axis@, corners@[0]@),
            spec_dot(axis@, corners@[1]@),
            spec_dot(axis@, corners@[2]@),
            spec_dot(axis@, corners@[3]@),
        ),
        r.1 == spec_max4(
            spec_dot(axis@, corners@[0]@),
            spec_dot(axis@, corners@[1]@),
            spec_dot(axis@, corners@[2]@),
            spec_dot(axis@, corners@[3]@),
        ),
        -PROJ_ABS <= r.0 <= r.1 <= PROJ_ABS,
{
    proof {
        lemma_dot_bound(axis@, corners@[0]@, CORNER_ABS as int);
        lemma_dot_bound(axis@, corners@[1]@, CORNER_ABS as int);
        lemma_dot_bound(axis@, corners@[2]@, CORNER_ABS as int);
        lemma_dot_bound(axis@, corners@[3]@, CORNER_ABS as int);
    }
    let p0 = project(corners[0], axis);
    let p1 = project(corners[1], axis);
    let p2 = project(corners[2], axis);
    let p3 = project(corners[3], axis);
    let lo01 = if p0 <= p1 { p0 } else { p1 };
    let lo23 = if p2 <= p3 { p2 } else { p3 };
    let lo = if lo01 <= lo23 { lo01 } else { lo23 };
    let hi01 = if p0 >= p1 { p0 } else { p1 };
    let hi23 = if p2 >= p3 { p2 } else { p3 };
    let hi = if hi01 >= hi23 { hi01 } else { hi23 };
    (lo, hi)
}

/// Separating-axis narrow phase.
///
/// The candidate axes are the first body's four normals, then the
/// second's.  Each axis receives both bodies' projected intervals; a
/// disjoint pair of intervals is a separating axis and rejects the pair
/// at once.  When no axis separates, the pair collides and the result
/// carries the minimum interval overlap over all eight axes as the
/// penetration depth, along the first axis in sweep order that attains
/// it — the minimum is replaced only on strict improvement — oriented
/// from the first body toward the second.
#[verifier::rlimit(60)]
pub fn check_precise_collision(shape_a: &Body, shape_b: &Body) -> (r: Collision)
    requires
        shape_a.well_formed(),
        shape_b.well_formed(),
    ensures
        r is Contact <==> spec_collides(*shape_a, *shape_b),
        r matches Collision::Contact { depth, normal } ==> {
            &&& depth == spec_overlap_amount(*shape_a, *shape_b, spec_best_axis(*shape_a, *shape_b))
            &&& normal@ == spec_oriented_axis(*shape_a, *shape_b, spec_best_axis(*shape_a, *shape_b))
        },
        r matches Collision::Contact { depth, .. } ==> forall|k: int| 0 <= k < 8
            ==> #[trigger] spec_overlap_amount(*shape_a, *shape_b, k) >= depth,
        r matches Collision::Contact { depth, .. } ==> 0 <= depth <= OVERLAP_ABS,
        r matches Collision::Contact { normal, .. } ==> unit_range(normal),
{
    let corners_a = shape_a.get_corners();
    let corners_b = shape_b.get_corners();
    let normals_a = shape_a.get_normals();
    let normals_b = shape_b.get_normals();

    let mut smallest_overlap: i64 = i64::MAX;
    let mut collision_normal = Vec2 { x: 0, y: 0 };
    let mut k: usize = 0;

    while k < 8
        invariant
            shape_a.well_formed(),
            shape_b.well_formed(),
            k <= 8,
            corners_a@[0]@ == spec_corner(*shape_a, 0),
            corners_a@[1]@ == spec_corner(*shape_a, 1),
            corners_a@[2]@ == spec_corner(*shape_a, 2),
            corners_a@[3]@ == spec_corner(*shape_a, 3),
            corners_b@[0]@ == spec_corner(*shape_b, 0),
            corners_b@[1]@ == spec_corner(*shape_b, 1),
            corners_b@[2]@ == spec_corner(*shape_b, 2),
            corners_b@[3]@ == spec_corner(*shape_b, 3),
            in_corner_range(corners_a@[0]),
            in_corner_range(corners_a@[1]),
            in_corner_range(corners_a@[2]),
            in_corner_range(corners_a@[3]),
            in_corner_range(corners_b@[0]),
            in_corner_range(corners_b@[1]),
            in_corner_range(corners_b@[2]),
            in_corner_range(corners_b@[3]),
            normals_a@[0]@ == spec_normal(*shape_a, 0),
            normals_a@[1]@ == spec_normal(*shape_a, 1),
            normals_a@[2]@ == spec_normal(*shape_a, 2),
            normals_a@[3]@ == spec_normal(*shape_a, 3),
            normals_b@[0]@ == spec_normal(*shape_b, 0),
            normals_b@[1]@ == spec_normal(*shape_b, 1),
            normals_b@[2]@ == spec_normal(*shape_b, 2),
            normals_b@[3]@ == spec_normal(*shape_b, 3),
            unit_range(normals_a@[0]),
            unit_range(normals_a@[1]),
            unit_range(normals_a@[2]),
            unit_range(normals_a@[3]),
            unit_range(normals_b@[0]),
            unit_range(normals_b@[1]),
            unit_range(normals_b@[2]),
            unit_range(normals_b@[3]),
            forall|j: int| 0 <= j < k
                ==> #[trigger] spec_overlap_amount(*shape_a, *shape_b, j) >= 0,
            k > 0 ==> smallest_overlap
                == spec_overlap_amount(*shape_a, *shape_b, spec_best_axis_upto(*shape_a, *shape_b, k as int)),
            k > 0 ==> collision_normal@
                == spec_oriented_axis(*shape_a, *shape_b, spec_best_axis_upto(*shape_a, *shape_b, k as int)),
            k > 0 ==> forall|j: int| 0 <= j < k
                ==> #[trigger] spec_overlap_amount(*shape_a, *shape_b, j) >= smallest_overlap,
            k > 0 ==> 0 <= smallest_overlap <= OVERLAP_ABS,
            k > 0 ==> unit_range(collision_normal),
            k == 0 ==> smallest_overlap == i64::MAX,
        decreases 8 - k,
    {
        let axis = if k < 4 { normals_a[k] } else { normals_b[k - 4] };
        proof {
            assert(axis@ == spec_axis(*shape_a, *shape_b, k as int));
        }
        let (min_a, max_a) = extent(&corners_a, axis);
        let (min_b, max_b) = extent(&corners_b, axis);
        let hi = if max_a <= max_b { max_a } else { max_b };
        let lo = if min_a >= min_b { min_a } else { min_b };
        let overlap_amount = hi - lo;
        proof {
            assert(overlap_amount
                == spec_overlap_amount(*shape_a, *shape_b, k as int));
        }

        proof {
            if k > 0 {
                lemma_best_axis_upto_range(*shape_a, *shape_b, k as int);
            }
        }
        if overlap_amount < smallest_overlap {
            smallest_overlap = overlap_amount;
            collision_normal = axis;
            let direction = Vec2 {
                x: shape_b.position.x - shape_a.position.x,
                y: shape_b.position.y - shape_a.position.y,
            };
            proof {
                lemma_prod_bound(
                    direction.x as int, collision_normal.x as int,
                    2_000_000_000_000, 1000,
                );
                lemma_prod_bound(
                    direction.y as int, collision_normal.y as int,
                    2_000_000_000_000, 1000,
                );
            }
            let raw = (direction.x as i128) * (collision_normal.x as i128)
                + (direction.y as i128) * (collision_normal.y as i128);
            if raw < 0 {
                collision_normal = Vec2 { x: -collision_normal.x, y: -collision_normal.y };
            }
            proof {
                assert(collision_normal@
                    == spec_oriented_axis(*shape_a, *shape_b, k as int));
            }
        }

        if !overlap(min_a, max_a, min_b, max_b) {
            proof {
                assert(spec_overlap_amount(*shape_a, *shape_b, k as int) < 0);
            }
            return Collision::Separated;
        }
        proof {
            assert(spec_overlap_amount(*shape_a, *shape_b, k as int) >= 0);
            assert(spec_best_axis_upto(*shape_a, *shape_b, k as int + 1) == (
                if k == 0 {
                    0int
                } else {
                    let prev = spec_best_axis_upto(*shape_a, *shape_b, k as int);
                    if spec_overlap_amount(*shape_a, *shape_b, k as int)
                        < spec_overlap_amount(*shape_a, *shape_b, prev) {
                        k as int
                    } else {
                        prev
                    }
                }
            ));
        }
        k = k + 1;
    }
    Collision::Contact { depth: smallest_overlap, normal: collision_normal }
}

} // verus!
