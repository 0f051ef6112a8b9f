//! Fixed-point trigonometry for whole-degree rotations.
//!
//! The sine is Bhaskara's rational approximation `4x(180-x) / (40500 - x(180-x))`
//! on `[0, 180]` degrees, scaled by [`crate::num::SCALE`].  It is exact at
//! 0, 30, 90, 150 and 180 degrees and at their reflections, and stays
//! within a few parts in a thousand of the real sine elsewhere, which is
//! all the collision geometry needs.  The cosine is the sine shifted by a
//! quarter turn.

use vstd::prelude::*;
use crate::num::{SCALE, spec_tdiv, lemma_tdiv_bounded_by_multiple};
use vstd::arithmetic::div_mod::{
    lemma_div_is_ordered, lemma_div_multiples_vanish, lemma_div_pos_is_pos,
    lemma_fundamental_div_mod, lemma_fundamental_div_mod_converse_mod,
    lemma_mod_division_less_than_divisor, lemma_add_mod_noop, lemma_small_mod,
    lemma_mod_add_multiples_vanish,
};

verus! {

/// Bhaskara's sine approximation on `[0, 180]` degrees, scaled by `SCALE`.
pub open spec fn spec_bhaskara(x: int) -> int
    recommends
        0 <= x <= 180,
{
    spec_tdiv(4000 * (x * (180 - x)), 40500 - x * (180 - x))
}

/// Scaled sine of an angle in degrees, any integer angle.
pub open spec fn spec_sin(d: int) -> int {
    let m = d % 360;
    if m < 180 {
        spec_bhaskara(m)
    } else {
        -spec_bhaskara(m - 180)
    }
}

/// Scaled cosine of an angle in degrees: the sine a quarter turn later.
pub open spec fn spec_cos(d: int) -> int {
    spec_sin(d + 90)
}

/// The approximation stays within the scaled unit interval.
pub proof fn lemma_bhaskara_bounds(x: int)
    requires
        0 <= x <= 180,
    ensures
        0 <= spec_bhaskara(x) <= SCALE,
{
    let q = x * (180 - x);
    assert(0 <= x * (180 - x) <= 8100) by (nonlinear_arith)
        requires 0 <= x <= 180;
    let den = 40500 - q;
    lemma_div_pos_is_pos(4000 * q, den);
    lemma_tdiv_bounded_by_multiple(4000 * q, den, 1000);
}

/// On the middle half-turn quarter `[45, 135]` the scaled sine is at least 705.
pub proof fn lemma_bhaskara_middle(x: int)
    requires
        45 <= x <= 135,
    ensures
        705 <= spec_bhaskara(x) <= SCALE,
{
    let q = x * (180 - x);
    assert(6075 <= x * (180 - x) <= 8100) by (nonlinear_arith)
        requires 45 <= x <= 135;
    let den = 40500 - q;
    lemma_div_multiples_vanish(705, den);
    lemma_div_is_ordered(705 * den, 4000 * q, den);
    lemma_bhaskara_bounds(x);
}

/// The scaled sine is bounded by the scale for every angle.
pub proof fn lemma_sin_bounds(d: int)
    ensures
        -SCALE <= spec_sin(d) <= SCALE,
{
    let m = d % 360;
    lemma_mod_division_less_than_divisor(d, 360);
    if m < 180 {
        lemma_bhaskara_bounds(m);
    } else {
        lemma_bhaskara_bounds(m - 180);
    }
}

/// The scaled cosine is bounded by the scale for every angle.
pub proof fn lemma_cos_bounds(d: int)
    ensures
        -SCALE <= spec_cos(d) <= SCALE,
{
    lemma_sin_bounds(d + 90);
}

/// Sine and cosine are periodic with period 360 degrees.
pub proof fn lemma_trig_period(d: int)
    ensures
        spec_sin(d + 360) == spec_sin(d),
        spec_cos(d + 360) == spec_cos(d),
{
    lemma_mod_add_multiples_vanish(d, 360);
    lemma_mod_add_multiples_vanish(d + 90, 360);
}

/// At every angle, the sine or the cosine has magnitude at least 705
/// (the scaled sine of 45 degrees): a rotation never shrinks both
/// coordinate directions at once.
pub proof fn lemma_trig_big_component(d: int)
    ensures
        705 <= spec_sin(d) <= SCALE
            || -SCALE <= spec_sin(d) <= -705
            || 705 <= spec_cos(d) <= SCALE
            || -SCALE <= spec_cos(d) <= -705,
{
    let m = d % 360;
    lemma_mod_division_less_than_divisor(d, 360);
    // The cosine reduces to the same residue shifted by a quarter turn.
    lemma_add_mod_noop(d, 90, 360);
    lemma_small_mod(90nat, 360nat);
    assert((d + 90) % 360 == (m + 90) % 360);
    if 45 <= m <= 135 {
        lemma_bhaskara_middle(m);
    } else if 225 <= m <= 315 {
        lemma_bhaskara_middle(m - 180);
    } else if m < 45 {
        // cosine residue m + 90 lies in [90, 135)
        lemma_small_mod((m + 90) as nat, 360nat);
        lemma_bhaskara_middle(m + 90);
    } else if m < 225 {
        // m in (135, 225): cosine residue m + 90 lies in (225, 315)
        lemma_small_mod((m + 90) as nat, 360nat);
        lemma_bhaskara_middle(m + 90 - 180);
    } else {
        // m in (315, 360): cosine residue reduces to m - 270 in (45, 90)
        lemma_mod_sub_multiple(m + 90, 360);
        lemma_small_mod((m - 270) as nat, 360nat);
        lemma_bhaskara_middle(m - 270);
    }
}

/// `(x + 360) % 360 == x % 360`, phrased for reuse.
proof fn lemma_mod_sub_multiple(x: int, m: int)
    requires
        m > 0,
    ensures
        x % m == (x - m) % m,
{
    vstd::arithmetic::div_mod::lemma_mod_sub_multiples_vanish(x, m);
}

/// At whole turns the sine vanishes and the cosine is the full scale.
pub proof fn lemma_trig_of_full_turns(d: int)
    requires
        d % 360 == 0,
    ensures
        spec_sin(d) == 0,
        spec_cos(d) == SCALE,
{
    lemma_add_mod_noop(d, 90, 360);
    lemma_small_mod(90nat, 360nat);
    assert((d + 90) % 360 == 90);
    assert(spec_bhaskara(0) == 0);
    assert(spec_bhaskara(90) == spec_tdiv(4000int * (90 * 90), 40500 - 90 * 90));
    assert(spec_tdiv(32400000, 32400) == 1000);
}

/// Reduce an angle in degrees to `[0, 360)`.
pub fn norm_deg(deg: i64) -> (r: i64)
    ensures
        r == (deg as int) % 360,
        0 <= r < 360,
{
    proof {
        lemma_mod_division_less_than_divisor(deg as int, 360);
    }
    if deg >= 0 {
        ((deg as u64) % 360) as i64
    } else {
        let d = deg as i128;
        let k = (((-d) as u128) % 360) as i64;
        proof {
            let q = (-(deg as int)) / 360;
            lemma_fundamental_div_mod(-(deg as int), 360);
            lemma_mod_division_less_than_divisor(-(deg as int), 360);
            if k == 0 {
                lemma_fundamental_div_mod_converse_mod(deg as int, 360, -q, 0);
            } else {
                lemma_fundamental_div_mod_converse_mod(deg as int, 360, -q - 1, 360 - k);
            }
        }
        if k == 0 {
            0
        } else {
            360 - k
        }
    }
}

/// Bhaskara's approximation, executable.
fn bhaskara(x: i64) -> (r: i64)
    requires
        0 <= x <= 180,
    ensures
        r == spec_bhaskara(x as int),
        0 <= r <= SCALE,
{
    proof {
        assert(0 <= (x as int) * (180 - x as int) <= 8100) by (nonlinear_arith)
            requires 0 <= x <= 180;
    }
    let q = x * (180 - x);
    let num = 4000 * q;
    let den = 40500 - q;
    proof {
        lemma_div_pos_is_pos(num as int, den as int);
        lemma_tdiv_bounded_by_multiple(num as int, den as int, 1000);
    }
    ((num as u64) / (den as u64)) as i64
}

/// Scaled sine of an angle in whole degrees.
pub fn sin_milli(deg: i64) -> (r: i64)
    ensures
        r == spec_sin(deg as int),
        -SCALE <= r <= SCALE,
{
    let m = norm_deg(deg);
    if m < 180 {
        bhaskara(m)
    } else {
        -bhaskara(m - 180)
    }
}

/// Scaled cosine of an angle in whole degrees.
pub fn cos_milli(deg: i64) -> (r: i64)
    ensures
        r == spec_cos(deg as int),
        -SCALE <= r <= SCALE,
{
    let m = norm_deg(deg);
    proof {
        lemma_add_mod_noop(deg as int, 90, 360);
        lemma_small_mod(90nat, 360nat);
        vstd::arithmetic::div_mod::lemma_mod_twice(deg as int, 360);
        assert((m + 90) % 360 == ((deg as int) + 90) % 360);
    }
    sin_milli(m + 90)
}

} // verus!
