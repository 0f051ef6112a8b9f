//! 2D vectors over fixed-point scalars, with the vector utilities the
//! engine is built from: length, normalization, dot product, scalar
//! projection and rotation.

use vstd::prelude::*;
use crate::num::{
    SCALE, spec_tdiv, spec_isqrt, tdiv128, isqrt_u128,
    lemma_tdiv_bounded_by_multiple, lemma_le_isqrt,
};
use crate::trig::{spec_sin, spec_cos, sin_milli, cos_milli};
use vstd::arithmetic::mul::lemma_mul_inequality;

verus! {

/// Mathematical model of a 2D vector: unbounded integer components, in
/// fixed-point steps of a thousandth of a unit.
pub ghost struct V2 {
    pub x: int,
    pub y: int,
}

/// A 2D vector (or point) with fixed-point components.
#[derive(Clone, Copy, PartialEq, Eq, Structural, Debug)]
pub struct Vec2 {
    pub x: i64,
    pub y: i64,
}

impl View for Vec2 {
    type V = V2;

    open spec fn view(&self) -> V2 {
        V2 { x: self.x as int, y: self.y as int }
    }
}

pub open spec fn v2(x: int, y: int) -> V2 {
    V2 { x: x, y: y }
}

pub open spec fn v2_add(a: V2, b: V2) -> V2 {
    V2 { x: a.x + b.x, y: a.y + b.y }
}

pub open spec fn v2_sub(a: V2, b: V2) -> V2 {
    V2 { x: a.x - b.x, y: a.y - b.y }
}

pub open spec fn v2_neg(a: V2) -> V2 {
    V2 { x: -a.x, y: -a.y }
}

/// Squared Euclidean length, exact.
pub open spec fn spec_len2(v: V2) -> int {
    v.x * v.x + v.y * v.y
}

/// Euclidean length, rounded down to a whole fixed-point step.
pub open spec fn spec_length(v: V2) -> int {
    spec_isqrt(spec_len2(v))
}

/// Fixed-point dot product: the exact integer product sum, scaled back
/// down by `SCALE` with truncation.
pub open spec fn spec_dot(a: V2, b: V2) -> int {
    spec_tdiv(a.x * b.x + a.y * b.y, SCALE as int)
}

/// The unscaled product sum, used where only its sign matters.
pub open spec fn spec_dot_raw(a: V2, b: V2) -> int {
    a.x * b.x + a.y * b.y
}

/// Scale a vector to (fixed-point) unit length: `v * SCALE / |v|`.
pub open spec fn spec_normalize(v: V2) -> V2 {
    V2 {
        x: spec_tdiv(v.x * (SCALE as int), spec_length(v)),
        y: spec_tdiv(v.y * (SCALE as int), spec_length(v)),
    }
}

/// A quarter turn: `(y, -x)`, the outward-normal direction of an edge
/// walked in the library's corner winding order.
pub open spec fn spec_rot90(v: V2) -> V2 {
    V2 { x: v.y, y: -v.x }
}

/// Rotate a vector about the origin by an angle whose scaled sine and
/// cosine are `s` and `c`.
pub open spec fn spec_rotate_vec(v: V2, s: int, c: int) -> V2 {
    V2 {
        x: spec_tdiv(v.x * c - v.y * s, SCALE as int),
        y: spec_tdiv(v.x * s + v.y * c, SCALE as int),
    }
}

/// Rotate `p` about the pivot `o`.
pub open spec fn spec_rotate_around(p: V2, o: V2, s: int, c: int) -> V2 {
    v2_add(spec_rotate_vec(v2_sub(p, o), s, c), o)
}

/// Largest component magnitude accepted by the length functions; squares
/// of such components stay far inside the integer square root's domain.
pub const VEC_ABS_MAX: i64 = 500_000_000_000_000;

/// Upper bound on any length the library computes.
pub const LEN_MAX: i64 = 800_000_000_000_000;

/// Euclidean norm of a vector, rounded down to a whole fixed-point step.
pub fn get_length(v: Vec2) -> (r: i64)
    requires
        -VEC_ABS_MAX <= v.x <= VEC_ABS_MAX,
        -VEC_ABS_MAX <= v.y <= VEC_ABS_MAX,
    ensures
        r == spec_length(v@),
        0 <= r < LEN_MAX,
{
    proof {
        lemma_square_le(v.x as int, VEC_ABS_MAX as int);
        lemma_square_le(v.y as int, VEC_ABS_MAX as int);
    }
    let n = ((v.x as i128) * (v.x as i128) + (v.y as i128) * (v.y as i128)) as u128;
    let r = isqrt_u128(n);
    proof {
        let ri = r as int;
        if ri >= LEN_MAX {
            lemma_mul_inequality(LEN_MAX as int, ri, LEN_MAX as int);
            lemma_mul_inequality(LEN_MAX as int, ri, ri);
        }
    }
    r as i64
}

/// `|a| <= b` bounds the square: `a * a <= b * b`.
proof fn lemma_square_le(a: int, b: int)
    requires
        -b <= a <= b,
        b >= 0,
    ensures
        0 <= a * a <= b * b,
{
    assert(0 <= a * a <= b * b) by (nonlinear_arith)
        requires -b <= a <= b, b >= 0;
}

/// Scale `v` to unit length (times `SCALE`).  The zero vector has no
/// direction: callers must rule it out, as the geometry derivation does by
/// refusing degenerate bodies.
pub fn normalize(v: Vec2) -> (r: Vec2)
    requires
        -VEC_ABS_MAX <= v.x <= VEC_ABS_MAX,
        -VEC_ABS_MAX <= v.y <= VEC_ABS_MAX,
        !(v.x == 0 && v.y == 0),
    ensures
        r@ == spec_normalize(v@),
        -SCALE <= r.x <= SCALE,
        -SCALE <= r.y <= SCALE,
{
    proof {
        lemma_square_le(v.x as int, VEC_ABS_MAX as int);
        lemma_square_le(v.y as int, VEC_ABS_MAX as int);
        lemma_normalize_component_bounds(v@);
    }
    let len = get_length(v);
    proof {
        // Some component is nonzero, so the squared length is at least 1.
        assert(spec_len2(v@) >= 1) by (nonlinear_arith)
            requires !(v@.x == 0 && v@.y == 0);
        lemma_le_isqrt(spec_len2(v@), 1);
    }
    let x = tdiv128((v.x as i128) * (SCALE as i128), len as i128) as i64;
    let y = tdiv128((v.y as i128) * (SCALE as i128), len as i128) as i64;
    Vec2 { x, y }
}

/// Each component of a normalized vector is at most `SCALE` in magnitude:
/// `|v.x| <= |v|` and the division by the length cancels the scale.
proof fn lemma_normalize_component_bounds(v: V2)
    requires
        !(v.x == 0 && v.y == 0),
    ensures
        spec_length(v) >= 1,
        -SCALE <= spec_normalize(v).x <= SCALE,
        -SCALE <= spec_normalize(v).y <= SCALE,
{
    let n = spec_len2(v);
    assert(n >= 1 && v.x * v.x <= n && v.y * v.y <= n) by (nonlinear_arith)
        requires !(v.x == 0 && v.y == 0), n == v.x * v.x + v.y * v.y;
    let len = spec_isqrt(n);
    lemma_le_isqrt(n, 1);
    lemma_abs_le_isqrt(v.x, n);
    lemma_abs_le_isqrt(v.y, n);
    lemma_scaled_ratio_bound(v.x, len);
    lemma_scaled_ratio_bound(v.y, len);
}

/// `a * a <= n` bounds `|a|` by the rounded square root of `n`.
proof fn lemma_abs_le_isqrt(a: int, n: int)
    requires
        n >= 0,
        a * a <= n,
    ensures
        -spec_isqrt(n) <= a <= spec_isqrt(n),
{
    if a >= 0 {
        lemma_le_isqrt(n, a);
    } else {
        assert((-a) * (-a) == a * a) by (nonlinear_arith);
        lemma_le_isqrt(n, -a);
    }
}

/// `|a| <= len` bounds the scaled ratio: `|a * SCALE / len| <= SCALE`.
proof fn lemma_scaled_ratio_bound(a: int, len: int)
    requires
        len >= 1,
        -len <= a <= len,
    ensures
        -SCALE <= spec_tdiv(a * (SCALE as int), len) <= SCALE,
{
    assert(-(1000 * len) <= a * 1000 <= 1000 * len) by (nonlinear_arith)
        requires -len <= a <= len;
    lemma_tdiv_bounded_by_multiple(a * 1000, len, 1000);
}



/// The unit normal stays nearly perpendicular to its edge after the
/// rounding of normalization: the raw dot product of an edge vector with
/// its quarter-turned, unit-scaled normal is below the sum of the edge's
/// component magnitudes — a rounding remainder, vanishingly small next
/// to the product of the lengths.
pub proof fn lemma_rot90_normalize_near_perpendicular(v: V2)
    requires
        !(v.x == 0 && v.y == 0),
    ensures
        -(vstd::math::abs(v.x) + vstd::math::abs(v.y))
            <= spec_dot_raw(v, spec_normalize(spec_rot90(v))),
        spec_dot_raw(v, spec_normalize(spec_rot90(v)))
            <= vstd::math::abs(v.x) + vstd::math::abs(v.y),
{
    let w = spec_rot90(v);
    assert(w.y * w.y == v.x * v.x) by (nonlinear_arith)
        requires w.y == -v.x;
    assert(spec_len2(w) == spec_len2(v));
    let n2 = spec_len2(v);
    assert(n2 >= 1 && v.x * v.x <= n2 && v.y * v.y <= n2) by (nonlinear_arith)
        requires !(v.x == 0 && v.y == 0), n2 == v.x * v.x + v.y * v.y;
    let len = spec_isqrt(n2);
    crate::num::lemma_isqrt_bounds(n2);
    lemma_le_isqrt(n2, 1);
    let nx = spec_tdiv(v.y * 1000, len);
    let ny = spec_tdiv((-v.x) * 1000, len);
    crate::num::lemma_tdiv_range(v.y * 1000, len);
    crate::num::lemma_tdiv_range((-v.x) * 1000, len);
    let e1 = v.y * 1000 - len * nx;
    let e2 = (-v.x) * 1000 - len * ny;
    assert(-len <= e1 <= len && -len <= e2 <= len);
    let d = spec_dot_raw(v, spec_normalize(w));

    // The scaled dot product collapses to the two rounding remainders.
    assert(len * d == len * (v.x * nx) + len * (v.y * ny)) by (nonlinear_arith)
        requires d == v.x * nx + v.y * ny;
    assert(len * (v.x * nx) == v.x * (len * nx)) by (nonlinear_arith);
    assert(len * (v.y * ny) == v.y * (len * ny)) by (nonlinear_arith);
    assert(v.x * (v.y * 1000 - e1) == v.x * (v.y * 1000) - v.x * e1) by (nonlinear_arith);
    assert(v.y * ((-v.x) * 1000 - e2) == v.y * ((-v.x) * 1000) - v.y * e2) by (nonlinear_arith);
    assert(v.y * ((-v.x) * 1000) == -(v.x * (v.y * 1000))) by (nonlinear_arith);
    assert(len * d == -(v.x * e1) - (v.y * e2));

    // Each remainder term is below a component magnitude times the length.
    let bx = vstd::math::abs(v.x) as int;
    let by = vstd::math::abs(v.y) as int;
    lemma_prod_bound(v.x, e1, bx, len);
    lemma_prod_bound(v.y, e2, by, len);
    assert((bx + by) * len == bx * len + by * len) by (nonlinear_arith);
    assert(-((bx + by) * len) <= len * d <= (bx + by) * len);

    // Divide out the positive length.
    vstd::arithmetic::mul::lemma_mul_is_commutative(len, d);
    vstd::arithmetic::mul::lemma_mul_is_commutative(len, bx + by);
    vstd::arithmetic::mul::lemma_mul_is_commutative(len, -(bx + by));
    vstd::arithmetic::mul::lemma_mul_unary_negation(bx + by, len);
    vstd::arithmetic::mul::lemma_mul_inequality_converse(d, bx + by, len);
    vstd::arithmetic::mul::lemma_mul_inequality_converse(-(bx + by), d, len);
}

/// Normalization lands near the fixed-point unit: for a vector at least
/// one unit long, the squared length of its normalization is within a
/// few thousandths of the squared scale.  Shorter vectors lose relative
/// precision to the rounded square root, so no tighter claim holds.
pub proof fn lemma_normalize_near_unit(v: V2)
    requires
        spec_length(v) >= SCALE as int,
    ensures
        1000 * 1000 - 4 * 1000 <= spec_len2(spec_normalize(v)),
        spec_len2(spec_normalize(v)) <= 1000 * 1000 + 6 * 1000 + 2,
{
    let n2 = spec_len2(v);
    assert(n2 >= 0) by (nonlinear_arith)
        requires n2 == v.x * v.x + v.y * v.y;
    let len = spec_length(v);
    crate::num::lemma_isqrt_bounds(n2);
    assert(v.x * v.x <= n2 && v.y * v.y <= n2) by (nonlinear_arith)
        requires n2 == v.x * v.x + v.y * v.y;
    lemma_abs_le_isqrt(v.x, n2);
    lemma_abs_le_isqrt(v.y, n2);
    let nx = spec_tdiv(v.x * 1000, len);
    let ny = spec_tdiv(v.y * 1000, len);
    crate::num::lemma_tdiv_range(v.x * 1000, len);
    crate::num::lemma_tdiv_range(v.y * 1000, len);
    let e1 = v.x * 1000 - len * nx;
    let e2 = v.y * 1000 - len * ny;
    assert(-len < e1 && e1 < len);
    assert(-len < e2 && e2 < len);

    // Exact expansion of the scaled components.
    assert((len * nx) * (len * nx) == (len * len) * (nx * nx)) by (nonlinear_arith);
    assert((len * ny) * (len * ny) == (len * len) * (ny * ny)) by (nonlinear_arith);
    assert((v.x * 1000 - e1) * (v.x * 1000 - e1)
        == 1000000 * (v.x * v.x) - 2 * ((v.x * e1) * 1000) + e1 * e1) by (nonlinear_arith);
    assert((v.y * 1000 - e2) * (v.y * 1000 - e2)
        == 1000000 * (v.y * v.y) - 2 * ((v.y * e2) * 1000) + e2 * e2) by (nonlinear_arith);
    assert((len * len) * (nx * nx + ny * ny)
        == (len * len) * (nx * nx) + (len * len) * (ny * ny)) by (nonlinear_arith);
    assert((len * len) * (nx * nx + ny * ny)
        == 1000000 * n2 - 2 * ((v.x * e1) * 1000) - 2 * ((v.y * e2) * 1000)
            + e1 * e1 + e2 * e2);

    // Error budget: each cross term is at most the squared length.
    lemma_prod_bound(v.x, e1, len, len);
    lemma_prod_bound(v.y, e2, len, len);
    assert(e1 * e1 <= len * len && e2 * e2 <= len * len) by (nonlinear_arith)
        requires -len < e1 < len, -len < e2 < len, len >= 1;
    assert(0 <= e1 * e1 && 0 <= e2 * e2) by (nonlinear_arith);

    // The squared length itself is pinned within twice the root.
    assert((len + 1) * (len + 1) == len * len + 2 * len + 1) by (nonlinear_arith);
    assert(n2 <= len * len + 2 * len);

    // Divide the sandwich by the positive square of the length.
    assert(len * len >= 1000 * len) by (nonlinear_arith)
        requires len >= 1000;
    assert((len * len) * (nx * nx + ny * ny) >= 996000 * (len * len));
    assert((len * len) * (nx * nx + ny * ny)
        <= 1000000 * (len * len) + 2000000 * len + 4002 * (len * len));
    assert(2000000 * len <= 2000 * (len * len)) by (nonlinear_arith)
        requires len >= 1000, len * len >= 1000 * len;
    assert((len * len) * (nx * nx + ny * ny) <= 1006002 * (len * len));
    assert(len * len > 0) by (nonlinear_arith)
        requires len >= 1000;
    vstd::arithmetic::mul::lemma_mul_is_commutative(len * len, nx * nx + ny * ny);
    vstd::arithmetic::mul::lemma_mul_is_commutative(len * len, 996000);
    vstd::arithmetic::mul::lemma_mul_is_commutative(len * len, 1006002);
    vstd::arithmetic::mul::lemma_mul_inequality_converse(
        996000, nx * nx + ny * ny, len * len,
    );
    vstd::arithmetic::mul::lemma_mul_inequality_converse(
        nx * nx + ny * ny, 1006002, len * len,
    );
}

/// Rotation before the scale-down division: the exact linear image of `v`
/// under the scaled rotation matrix.  The rounded rotation is this,
/// divided componentwise by `SCALE`.
pub open spec fn spec_rotate_fine(v: V2, s: int, c: int) -> V2 {
    V2 { x: v.x * c - v.y * s, y: v.x * s + v.y * c }
}

/// A quarter turn is exactly perpendicular to its argument.
pub proof fn lemma_rot90_perpendicular(v: V2)
    ensures
        spec_dot_raw(v, spec_rot90(v)) == 0,
{
    assert(v.x * v.y + v.y * (-v.x) == 0) by (nonlinear_arith);
}

/// The unrounded rotation scales every dot product by `c*c + s*s`: in
/// particular it maps perpendicular vectors to perpendicular vectors.
pub proof fn lemma_fine_rotation_scales_dot(u: V2, v: V2, s: int, c: int)
    ensures
        spec_dot_raw(spec_rotate_fine(u, s, c), spec_rotate_fine(v, s, c))
            == (c * c + s * s) * spec_dot_raw(u, v),
{
    lemma_rotation_product_identity(u.x, u.y, v.x, v.y, s, c);
}

/// The algebraic identity behind [`lemma_fine_rotation_scales_dot`].
proof fn lemma_rotation_product_identity(ux: int, uy: int, vx: int, vy: int, s: int, c: int)
    ensures
        (ux * c - uy * s) * (vx * c - vy * s) + (ux * s + uy * c) * (vx * s + vy * c)
            == (c * c + s * s) * (ux * vx + uy * vy),
{
    assert((ux * c - uy * s) * (vx * c - vy * s)
        == ux * c * (vx * c) - ux * c * (vy * s) - uy * s * (vx * c) + uy * s * (vy * s))
        by (nonlinear_arith);
    assert((ux * s + uy * c) * (vx * s + vy * c)
        == ux * s * (vx * s) + ux * s * (vy * c) + uy * c * (vx * s) + uy * c * (vy * c))
        by (nonlinear_arith);
    assert(ux * c * (vx * c) + ux * s * (vx * s) == (c * c + s * s) * (ux * vx))
        by (nonlinear_arith);
    assert(uy * s * (vy * s) + uy * c * (vy * c) == (c * c + s * s) * (uy * vy))
        by (nonlinear_arith);
    assert(ux * c * (vy * s) == ux * s * (vy * c)) by (nonlinear_arith);
    assert(uy * s * (vx * c) == uy * c * (vx * s)) by (nonlinear_arith);
    assert((c * c + s * s) * (ux * vx + uy * vy)
        == (c * c + s * s) * (ux * vx) + (c * c + s * s) * (uy * vy)) by (nonlinear_arith);
}

/// Componentwise bound on a rounded rotation: offsets bounded by `m` stay
/// within `2 * m` after rotation by scaled sine and cosine.
pub proof fn lemma_rotate_vec_bound(v: V2, s: int, c: int, m: int)
    requires
        m >= 0,
        -m <= v.x <= m,
        -m <= v.y <= m,
        -(SCALE as int) <= s <= SCALE as int,
        -(SCALE as int) <= c <= SCALE as int,
    ensures
        -(2 * m) <= spec_rotate_vec(v, s, c).x <= 2 * m,
        -(2 * m) <= spec_rotate_vec(v, s, c).y <= 2 * m,
{
    lemma_prod_bound(v.x, c, m, 1000);
    lemma_prod_bound(v.y, s, m, 1000);
    lemma_prod_bound(v.x, s, m, 1000);
    lemma_prod_bound(v.y, c, m, 1000);
    assert(2 * m * 1000 == 2 * (m * 1000)) by (nonlinear_arith);
    lemma_tdiv_bounded_by_multiple(v.x * c - v.y * s, 1000, 2 * m);
    lemma_tdiv_bounded_by_multiple(v.x * s + v.y * c, 1000, 2 * m);
}


/// The identity rotation (zero sine, full-scale cosine) moves nothing.
pub proof fn lemma_rotate_identity(v: V2)
    ensures
        spec_rotate_vec(v, 0, SCALE as int) == v,
{
    vstd::arithmetic::mul::lemma_mul_by_zero_is_zero(v.x);
    vstd::arithmetic::mul::lemma_mul_by_zero_is_zero(v.y);
    crate::num::lemma_tdiv_multiples_vanish(v.x, 1000);
    crate::num::lemma_tdiv_multiples_vanish(v.y, 1000);
}

/// The scaled coordinate axes normalize exactly to the fixed-point unit
/// axes.
pub proof fn lemma_normalize_axes(h: int)
    requires
        h >= 1,
    ensures
        spec_normalize(v2(2 * h, 0)) == v2(SCALE as int, 0),
        spec_normalize(v2(-(2 * h), 0)) == v2(-(SCALE as int), 0),
        spec_normalize(v2(0, 2 * h)) == v2(0, SCALE as int),
        spec_normalize(v2(0, -(2 * h))) == v2(0, -(SCALE as int)),
{
    let w = 2 * h;
    vstd::arithmetic::mul::lemma_mul_by_zero_is_zero(w);
    vstd::arithmetic::mul::lemma_mul_by_zero_is_zero(-w);
    vstd::arithmetic::mul::lemma_mul_by_zero_is_zero(0);
    assert((-w) * (-w) == w * w) by (nonlinear_arith);
    assert(w * w < (w + 1) * (w + 1)) by (nonlinear_arith)
        requires w >= 1;
    crate::num::lemma_isqrt_unique(w * w, w);
    // each nonzero component divides out to the scale
    vstd::arithmetic::mul::lemma_mul_is_commutative(w, 1000);
    crate::num::lemma_tdiv_multiples_vanish(1000, w);
    assert(spec_tdiv(w * 1000, w) == 1000);
    crate::num::lemma_tdiv_neg(w * 1000, w);
    assert((-w) * 1000 == -(w * 1000)) by (nonlinear_arith);
    // zero components stay zero
    vstd::arithmetic::div_mod::lemma_div_of0(w);
    assert(spec_tdiv(0, w) == 0);
}

/// Largest component magnitude the dot product accepts in its first
/// argument.  One operand must be short — the fixed-point product of two
/// full-range coordinates would overflow the 64-bit result — and in this
/// engine that operand is always a direction: a unit normal (components
/// within `SCALE`), for which this bound leaves a factor of nine
/// thousand to spare.
pub const AXIS_ABS_MAX: i64 = 9_000_000;

/// Fixed-point dot product of a short vector (an axis) with an arbitrary
/// in-range vector.
pub fn dot(axis: Vec2, v: Vec2) -> (r: i64)
    requires
        -AXIS_ABS_MAX <= axis.x <= AXIS_ABS_MAX,
        -AXIS_ABS_MAX <= axis.y <= AXIS_ABS_MAX,
        -VEC_ABS_MAX <= v.x <= VEC_ABS_MAX,
        -VEC_ABS_MAX <= v.y <= VEC_ABS_MAX,
    ensures
        r == spec_dot(axis@, v@),
        -9_000_000_000_000_000_000 <= r <= 9_000_000_000_000_000_000,
{
    proof {
        lemma_prod_bound(axis.x as int, v.x as int, AXIS_ABS_MAX as int, VEC_ABS_MAX as int);
        lemma_prod_bound(axis.y as int, v.y as int, AXIS_ABS_MAX as int, VEC_ABS_MAX as int);
        lemma_tdiv_bounded_by_multiple(
            (axis.x as int) * (v.x as int) + (axis.y as int) * (v.y as int),
            1000,
            9_000_000_000_000_000_000,
        );
    }
    let s = (axis.x as i128) * (v.x as i128) + (axis.y as i128) * (v.y as i128);
    tdiv128(s, SCALE as i128) as i64
}

/// A unit-range axis projects a bounded point to at most twice the
/// point's coordinate bound.
pub proof fn lemma_dot_bound(axis: V2, p: V2, m: int)
    requires
        -(SCALE as int) <= axis.x <= SCALE as int,
        -(SCALE as int) <= axis.y <= SCALE as int,
        m >= 0,
        -m <= p.x <= m,
        -m <= p.y <= m,
    ensures
        -(2 * m) <= spec_dot(axis, p) <= 2 * m,
{
    lemma_prod_bound(axis.x, p.x, 1000, m);
    lemma_prod_bound(axis.y, p.y, 1000, m);
    assert(2 * m * 1000 == 2 * (1000 * m)) by (nonlinear_arith);
    lemma_tdiv_bounded_by_multiple(axis.x * p.x + axis.y * p.y, 1000, 2 * m);
}

/// `|a| <= ab` and `|b| <= bb` bound the product by `ab * bb`.
pub proof fn lemma_prod_bound(a: int, b: int, ab: int, bb: int)
    requires
        -ab <= a <= ab,
        -bb <= b <= bb,
        ab >= 0,
        bb >= 0,
    ensures
        -(ab * bb) <= a * b <= ab * bb,
{
    assert(-(ab * bb) <= a * b <= ab * bb) by (nonlinear_arith)
        requires -ab <= a <= ab, -bb <= b <= bb, ab >= 0, bb >= 0;
}

/// Signed scalar projection of `point` onto the `axis`, which the
/// separating-axis sweep hands in as a unit normal.
pub fn project(point: Vec2, axis: Vec2) -> (r: i64)
    requires
        -AXIS_ABS_MAX <= axis.x <= AXIS_ABS_MAX,
        -AXIS_ABS_MAX <= axis.y <= AXIS_ABS_MAX,
        -VEC_ABS_MAX <= point.x <= VEC_ABS_MAX,
        -VEC_ABS_MAX <= point.y <= VEC_ABS_MAX,
    ensures
        r == spec_dot(axis@, point@),
        -9_000_000_000_000_000_000 <= r <= 9_000_000_000_000_000_000,
{
    dot(axis, point)
}

/// Coordinate bound accepted by the rotation helpers.
pub const ROT_ABS_MAX: i64 = 2_000_000_000_000;

/// Rotate `point` about the pivot `orbit` by an angle given through its
/// scaled sine and cosine.
pub fn rotate_point_around(point: Vec2, orbit: Vec2, rotation_sin: i64, rotation_cos: i64) -> (r: Vec2)
    requires
        -ROT_ABS_MAX <= point.x <= ROT_ABS_MAX,
        -ROT_ABS_MAX <= point.y <= ROT_ABS_MAX,
        -ROT_ABS_MAX <= orbit.x <= ROT_ABS_MAX,
        -ROT_ABS_MAX <= orbit.y <= ROT_ABS_MAX,
        -SCALE <= rotation_sin <= SCALE,
        -SCALE <= rotation_cos <= SCALE,
    ensures
        r@ == spec_rotate_around(point@, orbit@, rotation_sin as int, rotation_cos as int),
        orbit.x - 8_000_000_000_001 < r.x < orbit.x + 8_000_000_000_001,
        orbit.y - 8_000_000_000_001 < r.y < orbit.y + 8_000_000_000_001,
{
    let dx = (point.x as i128) - (orbit.x as i128);
    let dy = (point.y as i128) - (orbit.y as i128);
    let s = rotation_sin as i128;
    let c = rotation_cos as i128;
    proof {
        lemma_prod_bound(dx as int, c as int, 4_000_000_000_000, 1000);
        lemma_prod_bound(dy as int, s as int, 4_000_000_000_000, 1000);
        lemma_prod_bound(dx as int, s as int, 4_000_000_000_000, 1000);
        lemma_prod_bound(dy as int, c as int, 4_000_000_000_000, 1000);
        lemma_tdiv_bounded_by_multiple(
            (dx as int) * (c as int) - (dy as int) * (s as int),
            1000,
            8_000_000_000_000,
        );
        lemma_tdiv_bounded_by_multiple(
            (dx as int) * (s as int) + (dy as int) * (c as int),
            1000,
            8_000_000_000_000,
        );
    }
    let rx = tdiv128(dx * c - dy * s, SCALE as i128);
    let ry = tdiv128(dx * s + dy * c, SCALE as i128);
    Vec2 { x: (rx + orbit.x as i128) as i64, y: (ry + orbit.y as i128) as i64 }
}

/// Rotate a vector about the origin by an angle in whole degrees.
pub fn rotate_point(point: Vec2, rotation: i64) -> (r: Vec2)
    requires
        -ROT_ABS_MAX <= point.x <= ROT_ABS_MAX,
        -ROT_ABS_MAX <= point.y <= ROT_ABS_MAX,
    ensures
        r@ == spec_rotate_vec(point@, spec_sin(rotation as int), spec_cos(rotation as int)),
        -8_000_000_000_001 < r.x < 8_000_000_000_001,
        -8_000_000_000_001 < r.y < 8_000_000_000_001,
{
    let s = sin_milli(rotation);
    let c = cos_milli(rotation);
    let r = rotate_point_around(point, Vec2 { x: 0, y: 0 }, s, c);
    proof {
        assert(v2_sub(point@, v2(0, 0)) == point@);
        assert(v2_add(spec_rotate_vec(point@, s as int, c as int), v2(0, 0))
            == spec_rotate_vec(point@, s as int, c as int));
    }
    r
}

} // verus!
