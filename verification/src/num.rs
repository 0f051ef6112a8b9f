//! Fixed-point scalar arithmetic: truncating division and integer square
//! roots, with the lemmas the rest of the library needs about them.

use vstd::prelude::*;
use vstd::arithmetic::div_mod::{
    lemma_div_is_ordered, lemma_div_multiples_vanish, lemma_div_pos_is_pos,
    lemma_fundamental_div_mod, lemma_mod_division_less_than_divisor,
};
use vstd::arithmetic::mul::lemma_mul_inequality;

verus! {

/// Number of fixed-point steps per unit: every scalar in the library is a
/// count of thousandths of a unit.
pub const SCALE: i64 = 1000;

/// Truncating (round-toward-zero) division.  This is the rounding of every
/// fixed-point quotient in the library, chosen because it is odd:
/// `spec_tdiv(-a, b) == -spec_tdiv(a, b)`, which keeps rotation and
/// normalization symmetric under negation.
pub open spec fn spec_tdiv(a: int, b: int) -> int
    recommends
        b > 0,
{
    if a >= 0 {
        a / b
    } else {
        -((-a) / b)
    }
}

/// Truncating division is odd in its first argument.
pub proof fn lemma_tdiv_neg(a: int, b: int)
    requires
        b > 0,
    ensures
        spec_tdiv(-a, b) == -spec_tdiv(a, b),
{
}

/// The quotient stays within one divisor of the exact ratio:
/// `a - b < b * spec_tdiv(a, b) <= a` for a nonnegative dividend, and the
/// mirror image for a negative one.
pub proof fn lemma_tdiv_range(a: int, b: int)
    requires
        b > 0,
    ensures
        a >= 0 ==> b * spec_tdiv(a, b) <= a < b * spec_tdiv(a, b) + b,
        a < 0 ==> b * spec_tdiv(a, b) >= a > b * spec_tdiv(a, b) - b,
{
    if a >= 0 {
        lemma_fundamental_div_mod(a, b);
        lemma_mod_division_less_than_divisor(a, b);
    } else {
        lemma_fundamental_div_mod(-a, b);
        lemma_mod_division_less_than_divisor(-a, b);
        let d = (-a) / b;
        vstd::arithmetic::mul::lemma_mul_unary_negation(b, d);
        assert(b * spec_tdiv(a, b) == -(b * d));
    }
}

/// Truncating division is monotone in the dividend.
pub proof fn lemma_tdiv_mono(a1: int, a2: int, b: int)
    requires
        b > 0,
        a1 <= a2,
    ensures
        spec_tdiv(a1, b) <= spec_tdiv(a2, b),
{
    if a1 >= 0 {
        lemma_div_is_ordered(a1, a2, b);
    } else if a2 < 0 {
        lemma_div_is_ordered(-a2, -a1, b);
    } else {
        lemma_div_pos_is_pos(-a1, b);
        lemma_div_pos_is_pos(a2, b);
    }
}

/// A dividend bounded by a multiple of the divisor bounds the quotient:
/// `|a| <= c * b` gives `|spec_tdiv(a, b)| <= c`.
pub proof fn lemma_tdiv_bounded_by_multiple(a: int, b: int, c: int)
    requires
        b > 0,
        c >= 0,
        -(c * b) <= a <= c * b,
    ensures
        -c <= spec_tdiv(a, b) <= c,
{
    lemma_div_multiples_vanish(c, b);
    lemma_tdiv_mono(a, c * b, b);
    lemma_tdiv_mono(-(c * b), a, b);
    lemma_tdiv_neg(c * b, b);
}

/// A whole multiple of the divisor divides exactly, for either sign.
pub proof fn lemma_tdiv_multiples_vanish(x: int, d: int)
    requires
        d > 0,
    ensures
        spec_tdiv(d * x, d) == x,
{
    vstd::arithmetic::mul::lemma_mul_unary_negation(d, x);
    if x >= 0 {
        vstd::arithmetic::mul::lemma_mul_nonnegative(d, x);
        lemma_div_multiples_vanish(x, d);
    } else {
        vstd::arithmetic::mul::lemma_mul_strictly_positive(d, -x);
        lemma_div_multiples_vanish(-x, d);
        assert(d * (-x) == -(d * x));
    }
}

/// A common positive factor of dividend and divisor cancels.
pub proof fn lemma_tdiv_cancel_factor(x: int, y: int, m: int)
    requires
        y > 0,
        m > 0,
    ensures
        spec_tdiv(x * m, y * m) == spec_tdiv(x, y),
    decreases (if x >= 0 { 0int } else { 1int }),
{
    vstd::arithmetic::mul::lemma_mul_is_commutative(x, m);
    vstd::arithmetic::mul::lemma_mul_is_commutative(y, m);
    vstd::arithmetic::mul::lemma_mul_strictly_positive(y, m);
    if x >= 0 {
        vstd::arithmetic::mul::lemma_mul_nonnegative(x, m);
        vstd::arithmetic::div_mod::lemma_div_denominator(x * m, m, y);
        lemma_div_multiples_vanish(x, m);
    } else {
        lemma_tdiv_cancel_factor(-x, y, m);
        vstd::arithmetic::mul::lemma_mul_unary_negation(x, m);
        vstd::arithmetic::mul::lemma_mul_strictly_positive(-x, m);
    }
}

/// Dividends at least three divisors apart have distinct quotients, with
/// the larger dividend giving the strictly larger quotient.
pub proof fn lemma_tdiv_separated(a0: int, a1: int, b: int)
    requires
        b > 0,
        a1 - a0 >= 3 * b - 2,
    ensures
        spec_tdiv(a1, b) > spec_tdiv(a0, b),
{
    lemma_tdiv_range(a0, b);
    lemma_tdiv_range(a1, b);
    let q0 = spec_tdiv(a0, b);
    let q1 = spec_tdiv(a1, b);
    assert(b * q1 >= a1 - b + 1);
    assert(b * q0 <= a0 + b - 1);
    assert(b * q1 - b * q0 >= b);
    assert(b * (q1 - q0) == b * q1 - b * q0) by (nonlinear_arith);
    if q1 <= q0 {
        assert(b * (q1 - q0) <= 0) by (nonlinear_arith)
            requires b > 0, q1 - q0 <= 0;
    }
}

/// Truncating division of `a` by `b`, computed on magnitudes so that the
/// result matches [`spec_tdiv`] for dividends of either sign.
pub fn tdiv128(a: i128, b: i128) -> (r: i128)
    requires
        b > 0,
        a > i128::MIN,
    ensures
        r == spec_tdiv(a as int, b as int),
        a >= 0 ==> 0 <= r <= a,
        a < 0 ==> a <= r <= 0,
{
    proof {
        if a >= 0 {
            lemma_div_pos_is_pos(a as int, b as int);
            lemma_div_is_ordered_le_self(a as int, b as int);
        } else {
            lemma_div_pos_is_pos(-(a as int), b as int);
            lemma_div_is_ordered_le_self(-(a as int), b as int);
        }
    }
    if a >= 0 {
        ((a as u128) / (b as u128)) as i128
    } else {
        -((((-a) as u128) / (b as u128)) as i128)
    }
}

/// A nonnegative quotient never exceeds its dividend.
proof fn lemma_div_is_ordered_le_self(a: int, b: int)
    requires
        a >= 0,
        b > 0,
    ensures
        a / b <= a,
{
    vstd::arithmetic::div_mod::lemma_div_nonincreasing(a, b);
}

/// Floor of the square root, defined by counting up.
pub open spec fn spec_isqrt(n: int) -> int
    recommends
        n >= 0,
    decreases n,
{
    if n <= 0 {
        0
    } else {
        let r = spec_isqrt(n - 1);
        if (r + 1) * (r + 1) <= n {
            r + 1
        } else {
            r
        }
    }
}

/// `spec_isqrt(n)` really is the floor of the square root of `n`.
pub proof fn lemma_isqrt_bounds(n: int)
    requires
        n >= 0,
    ensures
        spec_isqrt(n) >= 0,
        spec_isqrt(n) * spec_isqrt(n) <= n,
        n < (spec_isqrt(n) + 1) * (spec_isqrt(n) + 1),
    decreases n,
{
    if n > 0 {
        lemma_isqrt_bounds(n - 1);
        let r = spec_isqrt(n - 1);
        if (r + 1) * (r + 1) <= n {
            assert((r + 2) * (r + 2) > (r + 1) * (r + 1)) by (nonlinear_arith)
                requires r >= 0;
        }
    }
}

/// Any nonnegative `r` with `r * r <= n < (r + 1) * (r + 1)` is `spec_isqrt(n)`.
pub proof fn lemma_isqrt_unique(n: int, r: int)
    requires
        n >= 0,
        r >= 0,
        r * r <= n,
        n < (r + 1) * (r + 1),
    ensures
        r == spec_isqrt(n),
{
    let s = spec_isqrt(n);
    lemma_isqrt_bounds(n);
    if r < s {
        lemma_mul_inequality(r + 1, s, r + 1);
        lemma_mul_inequality(r + 1, s, s);
    } else if s < r {
        lemma_mul_inequality(s + 1, r, s + 1);
        lemma_mul_inequality(s + 1, r, r);
    }
}

/// A square below `n` has its root below `spec_isqrt(n)`.
pub proof fn lemma_le_isqrt(n: int, a: int)
    requires
        n >= 0,
        a >= 0,
        a * a <= n,
    ensures
        a <= spec_isqrt(n),
{
    let s = spec_isqrt(n);
    lemma_isqrt_bounds(n);
    if a > s {
        lemma_mul_inequality(s + 1, a, s + 1);
        lemma_mul_inequality(s + 1, a, a);
    }
}

/// The rounded square root is monotone.
pub proof fn lemma_isqrt_mono(n1: int, n2: int)
    requires
        0 <= n1 <= n2,
    ensures
        spec_isqrt(n1) <= spec_isqrt(n2),
{
    lemma_isqrt_bounds(n1);
    lemma_le_isqrt(n2, spec_isqrt(n1));
}

/// Comparing squares compares the nonnegative roots.
pub proof fn lemma_root_le(x: int, y: int)
    requires
        0 <= x,
        0 <= y,
        x * x <= y * y,
    ensures
        x <= y,
{
    if x > y {
        lemma_mul_inequality(y + 1, x, y + 1);
        lemma_mul_inequality(y + 1, x, x);
        assert((y + 1) * (y + 1) > y * y) by (nonlinear_arith)
            requires y >= 0;
    }
}

/// A number strictly below a square has its rounded root strictly below
/// the square's root.
pub proof fn lemma_isqrt_below_square(n: int, t: int)
    requires
        0 <= n,
        0 <= t,
        n < t * t,
    ensures
        spec_isqrt(n) < t,
{
    lemma_isqrt_bounds(n);
    let s = spec_isqrt(n);
    if s >= t {
        lemma_mul_inequality(t, s, t);
        lemma_mul_inequality(t, s, s);
    }
}

/// Largest input the executable square root accepts: `2^100`, far above any
/// squared length the library forms.
pub const ISQRT_MAX_INPUT: u128 = 1267650600228229401496703205376;

/// Floor of the square root, by binary search.
pub fn isqrt_u128(n: u128) -> (r: u128)
    requires
        n < ISQRT_MAX_INPUT,
    ensures
        r == spec_isqrt(n as int),
        r * r <= n < (r + 1) * (r + 1),
{
    if n == 0 {
        proof { lemma_isqrt_unique(n as int, 0) }
        return 0;
    }
    let mut lo: u128 = 0;
    // 2^50, whose square is the input bound.
    let mut hi: u128 = 1125899906842624;
    proof {
        assert((1125899906842624 as int) * (1125899906842624 as int) == ISQRT_MAX_INPUT as int);
    }
    while lo + 1 < hi
        invariant
            0 <= lo < hi <= 1125899906842624,
            lo * lo <= n,
            n < hi * hi,
            n < ISQRT_MAX_INPUT,
        decreases hi - lo,
    {
        let mid = lo + (hi - lo) / 2;
        assert(lo < mid < hi);
        proof {
            lemma_mul_inequality(mid as int, 1125899906842624, mid as int);
            lemma_mul_inequality(mid as int, 1125899906842624, 1125899906842624);
            assert((1125899906842624 as int) * (1125899906842624 as int)
                == ISQRT_MAX_INPUT as int);
        }
        if mid * mid <= n {
            lo = mid;
        } else {
            hi = mid;
        }
    }
    proof {
        lemma_isqrt_unique(n as int, lo as int);
    }
    lo
}

/// Clamp `v` into `[-bound, bound]`.
pub open spec fn spec_clamp(v: int, bound: int) -> int
    recommends
        bound >= 0,
{
    if v < -bound {
        -bound
    } else if v > bound {
        bound
    } else {
        v
    }
}

/// Clamping is odd: negating the value negates the clamped value.
pub proof fn lemma_clamp_odd(v: int, bound: int)
    requires
        bound >= 0,
    ensures
        spec_clamp(-v, bound) == -spec_clamp(v, bound),
{
}

/// Clamp a wide intermediate back into the `i64` range the stored state uses.
pub fn clamp128(v: i128, bound: i64) -> (r: i64)
    requires
        bound >= 0,
    ensures
        r == spec_clamp(v as int, bound as int),
        -bound <= r <= bound,
{
    if v < -(bound as i128) {
        -bound
    } else if v > bound as i128 {
        bound
    } else {
        v as i64
    }
}

} // verus!
