//! Contact resolution: positional correction along the contact normal and
//! the impulse-based velocity response with area-derived mass.
//!
//! An anchored body has infinite effective mass: it is left exactly as it
//! was by both stages, while still driving the other body's response.

use vstd::prelude::*;
use crate::num::{
    SCALE, spec_tdiv, spec_clamp, tdiv128, clamp128, lemma_clamp_odd, lemma_tdiv_neg,
    lemma_tdiv_bounded_by_multiple, lemma_tdiv_multiples_vanish, lemma_tdiv_cancel_factor,
};
use crate::vec2::{
    Vec2, V2, v2, v2_sub, v2_neg, spec_dot, dot, lemma_dot_bound, lemma_prod_bound,
};
use crate::body::{Body, MAX_POS, MAX_VEL, MAX_SIZE, unit_range};
use crate::collide::OVERLAP_ABS;

verus! {

/// Fixed restitution coefficient, scaled by `SCALE`: half the approach
/// speed survives a collision.
pub const RESTITUTION: i64 = 500;

/// Mass of a body: the area of its extent.  Only mass ratios enter the
/// impulse, so the squared fixed-point unit cancels.
pub open spec fn spec_mass(b: Body) -> int {
    b.size@.x * b.size@.y
}

/// Positional shift along `n` by half the penetration depth.
pub open spec fn spec_shift(n: V2, depth: int) -> V2 {
    V2 {
        x: spec_tdiv(n.x * depth, 2 * (SCALE as int)),
        y: spec_tdiv(n.y * depth, 2 * (SCALE as int)),
    }
}

/// A body translated by `delta`, its position clamped into the
/// well-formed coordinate range; every other field kept.
pub open spec fn spec_translated(b: Body, delta: V2) -> Body {
    Body {
        position: Vec2 {
            x: spec_clamp(b.position@.x + delta.x, MAX_POS as int) as i64,
            y: spec_clamp(b.position@.y + delta.y, MAX_POS as int) as i64,
        },
        ..b
    }
}

/// Relative velocity of the pair along the contact normal.
pub open spec fn spec_rel_vn(a: Body, b: Body, n: V2) -> int {
    spec_dot(n, v2_sub(b.velocity@, a.velocity@))
}

/// Scalar velocity change of the first body along the normal:
/// `(1 + restitution) * vn * mass_b / (mass_a + mass_b)`, in fixed point.
pub open spec fn spec_dv_a(a: Body, b: Body, n: V2) -> int {
    spec_tdiv(
        (SCALE + RESTITUTION) * spec_rel_vn(a, b, n) * spec_mass(b),
        (spec_mass(a) + spec_mass(b)) * (SCALE as int),
    )
}

/// Scalar velocity change of the second body along the normal: the
/// mirror image of [`spec_dv_a`] with the other mass, opposite in sign.
pub open spec fn spec_dv_b(a: Body, b: Body, n: V2) -> int {
    spec_tdiv(
        -((SCALE + RESTITUTION) * spec_rel_vn(a, b, n) * spec_mass(a)),
        (spec_mass(a) + spec_mass(b)) * (SCALE as int),
    )
}

/// A body with the scalar change `dv` applied along `n` to its velocity,
/// clamped into the well-formed velocity range; every other field kept.
pub open spec fn spec_kicked(b: Body, n: V2, dv: int) -> Body {
    Body {
        velocity: Vec2 {
            x: spec_clamp(b.velocity@.x + spec_tdiv(n.x * dv, SCALE as int), MAX_VEL as int) as i64,
            y: spec_clamp(b.velocity@.y + spec_tdiv(n.y * dv, SCALE as int), MAX_VEL as int) as i64,
        },
        ..b
    }
}

/// Positional correction: move the first body half the penetration depth
/// against the normal and the second half the depth along it.  An
/// anchored body is left exactly as it was; the moving partner still
/// receives only its own half of the depth.
pub fn resolve_collision(shape_a: &mut Body, shape_b: &mut Body, overlap: i64, normal: Vec2)
    requires
        old(shape_a).well_formed(),
        old(shape_b).well_formed(),
        0 <= overlap <= OVERLAP_ABS,
        unit_range(normal),
    ensures
        old(shape_a).anchored ==> *final(shape_a) == *old(shape_a),
        !old(shape_a).anchored ==> *final(shape_a) == spec_translated(
            *old(shape_a),
            v2_neg(spec_shift(normal@, overlap as int)),
        ),
        old(shape_b).anchored ==> *final(shape_b) == *old(shape_b),
        !old(shape_b).anchored ==> *final(shape_b) == spec_translated(
            *old(shape_b),
            spec_shift(normal@, overlap as int),
        ),
        final(shape_a).well_formed(),
        final(shape_b).well_formed(),
{
    proof {
        lemma_prod_bound(normal.x as int, overlap as int, 1000, OVERLAP_ABS as int);
        lemma_prod_bound(normal.y as int, overlap as int, 1000, OVERLAP_ABS as int);
        lemma_tdiv_bounded_by_multiple(
            (normal.x as int) * (overlap as int), 2000, 2_100_000_000_000,
        );
        lemma_tdiv_bounded_by_multiple(
            (normal.y as int) * (overlap as int), 2000, 2_100_000_000_000,
        );
    }
    let sx = tdiv128((normal.x as i128) * (overlap as i128), 2 * (SCALE as i128));
    let sy = tdiv128((normal.y as i128) * (overlap as i128), 2 * (SCALE as i128));
    if !shape_a.anchored {
        shape_a.position = Vec2 {
            x: clamp128((shape_a.position.x as i128) - sx, MAX_POS),
            y: clamp128((shape_a.position.y as i128) - sy, MAX_POS),
        };
    }
    if !shape_b.anchored {
        shape_b.position = Vec2 {
            x: clamp128((shape_b.position.x as i128) + sx, MAX_POS),
            y: clamp128((shape_b.position.y as i128) + sy, MAX_POS),
        };
    }
}

/// Impulse-based velocity response.  Mass is the extent's area; the
/// relative velocity along the normal is reflected with restitution
/// `RESTITUTION / SCALE`, split between the bodies inversely to their
/// masses.  An anchored body's velocity is left exactly as it was.
pub fn resolve_velocities(shape_a: &mut Body, shape_b: &mut Body, normal: Vec2)
    requires
        old(shape_a).well_formed(),
        old(shape_b).well_formed(),
        unit_range(normal),
    ensures
        old(shape_a).anchored ==> *final(shape_a) == *old(shape_a),
        !old(shape_a).anchored ==> *final(shape_a) == spec_kicked(
            *old(shape_a), normal@, spec_dv_a(*old(shape_a), *old(shape_b), normal@),
        ),
        old(shape_b).anchored ==> *final(shape_b) == *old(shape_b),
        !old(shape_b).anchored ==> *final(shape_b) == spec_kicked(
            *old(shape_b), normal@, spec_dv_b(*old(shape_a), *old(shape_b), normal@),
        ),
        final(shape_a).well_formed(),
        final(shape_b).well_formed(),
{
    proof {
        lemma_prod_bound(shape_a.size.x as int, shape_a.size.y as int, MAX_SIZE as int, MAX_SIZE as int);
        lemma_prod_bound(shape_b.size.x as int, shape_b.size.y as int, MAX_SIZE as int, MAX_SIZE as int);
        assert((shape_a.size.x as int) * (shape_a.size.y as int) >= 100
            && (shape_b.size.x as int) * (shape_b.size.y as int) >= 100) by (nonlinear_arith)
            requires
                10 <= shape_a.size.x,
                10 <= shape_a.size.y,
                10 <= shape_b.size.x,
                10 <= shape_b.size.y;
    }
    let mass_a = (shape_a.size.x as i128) * (shape_a.size.y as i128);
    let mass_b = (shape_b.size.x as i128) * (shape_b.size.y as i128);
    let relative_velocity = Vec2 {
        x: shape_b.velocity.x - shape_a.velocity.x,
        y: shape_b.velocity.y - shape_a.velocity.y,
    };
    proof {
        lemma_dot_bound(normal@, relative_velocity@, 2_000_000_000_000);
    }
    let vn = dot(normal, relative_velocity);
    let denominator = (mass_a + mass_b) * 1000;
    proof {
        lemma_impulse_in_range(vn as int, mass_a as int, mass_b as int);
        lemma_impulse_in_range(vn as int, mass_b as int, mass_a as int);
    }
    let numerator_a = 1500 * (vn as i128) * mass_b;
    let numerator_b = -(1500 * (vn as i128) * mass_a);
    proof {
        lemma_tdiv_bounded_by_multiple(numerator_a as int, denominator as int, 6_000_000_000_000);
        lemma_tdiv_bounded_by_multiple(numerator_b as int, denominator as int, 6_000_000_000_000);
    }
    let dv_a = tdiv128(numerator_a, denominator);
    let dv_b = tdiv128(numerator_b, denominator);
    if !shape_a.anchored {
        apply_kick(shape_a, normal, dv_a);
    }
    if !shape_b.anchored {
        apply_kick(shape_b, normal, dv_b);
    }
}

/// The impulse numerator stays within `6_000_000_000_000` times the
/// denominator: the mass ratio is at most one and the scaled relative
/// speed is bounded.
proof fn lemma_impulse_in_range(vn: int, m_other: int, m_self: int)
    requires
        -4_000_000_000_000 <= vn <= 4_000_000_000_000,
        m_other > 0,
        m_self > 0,
    ensures
        1500 * vn * m_self <= 6_000_000_000_000 * ((m_other + m_self) * 1000),
        -(6_000_000_000_000 * ((m_other + m_self) * 1000)) <= 1500 * vn * m_self,
        -(6_000_000_000_000 * ((m_other + m_self) * 1000)) <= -(1500 * vn * m_self),
        -(1500 * vn * m_self) <= 6_000_000_000_000 * ((m_other + m_self) * 1000),
{
    assert(1500 * vn * m_self <= 6_000_000_000_000 * ((m_other + m_self) * 1000)
        && -(6_000_000_000_000 * ((m_other + m_self) * 1000)) <= 1500 * vn * m_self)
        by (nonlinear_arith)
        requires
            -4_000_000_000_000 <= vn <= 4_000_000_000_000,
            m_other > 0,
            m_self > 0;
}

/// Apply the scalar velocity change `dv` along `n` to one body.
fn apply_kick(b: &mut Body, n: Vec2, dv: i128)
    requires
        old(b).well_formed(),
        unit_range(n),
        -6_000_000_000_000 <= dv <= 6_000_000_000_000,
    ensures
        *final(b) == spec_kicked(*old(b), n@, dv as int),
        final(b).well_formed(),
{
    proof {
        lemma_prod_bound(n.x as int, dv as int, 1000, 6_000_000_000_000);
        lemma_prod_bound(n.y as int, dv as int, 1000, 6_000_000_000_000);
        lemma_tdiv_bounded_by_multiple((n.x as int) * (dv as int), 1000, 6_000_000_000_000);
        lemma_tdiv_bounded_by_multiple((n.y as int) * (dv as int), 1000, 6_000_000_000_000);
    }
    let kx = tdiv128((n.x as i128) * dv, SCALE as i128);
    let ky = tdiv128((n.y as i128) * dv, SCALE as i128);
    b.velocity = Vec2 {
        x: clamp128((b.velocity.x as i128) + kx, MAX_VEL),
        y: clamp128((b.velocity.y as i128) + ky, MAX_VEL),
    };
}

/// Head-on symmetry, exactly and for every contact normal: two bodies
/// of equal extent meeting with exactly opposite velocities leave the
/// velocity response with exactly opposite velocities.  The truncating
/// division is odd, so the two kicks mirror bit for bit, whatever
/// rounding they suffer.
pub proof fn lemma_head_on_symmetry(a: Body, b: Body, n: V2)
    requires
        a.well_formed(),
        b.well_formed(),
        a.size == b.size,
        a.velocity@ == v2_neg(b.velocity@),
    ensures
        spec_dv_b(a, b, n) == -spec_dv_a(a, b, n),
        spec_kicked(a, n, spec_dv_a(a, b, n)).velocity@
            == v2_neg(spec_kicked(b, n, spec_dv_b(a, b, n)).velocity@),
{
    let m = spec_mass(a);
    assert(spec_mass(b) == m);
    assert(m >= 100) by (nonlinear_arith)
        requires
            m == a.size@.x * a.size@.y,
            10 <= a.size@.x,
            10 <= a.size@.y;
    let den = (m + m) * (SCALE as int);
    let vn = spec_rel_vn(a, b, n);
    let num = (SCALE + RESTITUTION) * vn * m;
    lemma_tdiv_neg(num, den);
    assert(spec_dv_b(a, b, n) == -spec_dv_a(a, b, n));
    let dva = spec_dv_a(a, b, n);
    vstd::arithmetic::mul::lemma_mul_unary_negation(n.x, dva);
    vstd::arithmetic::mul::lemma_mul_unary_negation(n.y, dva);
    lemma_tdiv_neg(n.x * dva, SCALE as int);
    lemma_tdiv_neg(n.y * dva, SCALE as int);
    lemma_clamp_odd(a.velocity@.x + spec_tdiv(n.x * dva, SCALE as int), MAX_VEL as int);
    lemma_clamp_odd(a.velocity@.y + spec_tdiv(n.y * dva, SCALE as int), MAX_VEL as int);
}

/// Two equal-mass unanchored bodies meeting head on along the x axis
/// with equal and opposite velocities rebound with equal and opposite
/// velocities at half their approach speed: the restitution of one half
/// applied exactly.  Velocities are given as `2 * w` so that the
/// fixed-point divisions come out exact.
pub proof fn lemma_head_on_rebound(a: Body, b: Body, n: V2, w: int)
    requires
        a.well_formed(),
        b.well_formed(),
        !a.anchored,
        !b.anchored,
        a.size == b.size,
        n == v2(1000, 0),
        a.velocity@ == v2(2 * w, 0),
        b.velocity@ == v2(-(2 * w), 0),
        -500_000_000_000 <= w <= 500_000_000_000,
    ensures
        spec_kicked(a, n, spec_dv_a(a, b, n)).velocity@ == v2(-w, 0),
        spec_kicked(b, n, spec_dv_b(a, b, n)).velocity@ == v2(w, 0),
        spec_kicked(a, n, spec_dv_a(a, b, n)).velocity@
            == v2_neg(spec_kicked(b, n, spec_dv_b(a, b, n)).velocity@),
{
    let m = spec_mass(a);
    assert(m >= 100) by (nonlinear_arith)
        requires
            m == a.size@.x * a.size@.y,
            10 <= a.size@.x,
            10 <= a.size@.y;
    // Relative velocity along the axis: -4w, exactly.
    vstd::arithmetic::mul::lemma_mul_by_zero_is_zero(0);
    lemma_tdiv_multiples_vanish(-(4 * w), 1000);
    assert(1000 * (-(4 * w)) == 1000 * (-(2 * w)) - 1000 * (2 * w));
    assert(spec_rel_vn(a, b, n) == -(4 * w));
    // The common mass cancels from the impulse ratio.
    let vn = spec_rel_vn(a, b, n);
    assert((SCALE + RESTITUTION) * vn * m == (-(6000 * w)) * m);
    assert((m + m) * (SCALE as int) == 2000 * m);
    lemma_tdiv_cancel_factor(-(6000 * w), 2000, m);
    assert(spec_mass(b) == m);
    assert(spec_dv_a(a, b, n) == spec_tdiv((-(6000 * w)) * m, 2000 * m));
    assert(spec_dv_a(a, b, n) == spec_tdiv(-(6000 * w), 2000));
    lemma_tdiv_multiples_vanish(-(3 * w), 2000);
    assert(2000 * (-(3 * w)) == -(6000 * w));
    assert(spec_dv_a(a, b, n) == -(3 * w));
    lemma_tdiv_cancel_factor(6000 * w, 2000, m);
    vstd::arithmetic::mul::lemma_mul_unary_negation(6000 * w, m);
    assert(spec_dv_b(a, b, n) == spec_tdiv((6000 * w) * m, 2000 * m));
    assert(spec_dv_b(a, b, n) == 3 * w);
    // The kick along (1000, 0) lands exactly on the x component.
    lemma_tdiv_multiples_vanish(-(3 * w), 1000);
    lemma_tdiv_multiples_vanish(3 * w, 1000);
    assert(spec_tdiv(1000 * (-(3 * w)), 1000) == -(3 * w));
    assert(spec_tdiv(0 * (-(3 * w)), 1000) == 0) by {
        vstd::arithmetic::mul::lemma_mul_by_zero_is_zero(-(3 * w));
    }
    assert(spec_tdiv(0 * (3 * w), 1000) == 0) by {
        vstd::arithmetic::mul::lemma_mul_by_zero_is_zero(3 * w);
    }
}

} // verus!
