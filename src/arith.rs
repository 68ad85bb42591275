//! Integer helpers for the fixed-point solver: division that rounds toward
//! zero, clamping to a representable range, and the ceiling square root.
use vstd::prelude::*;

verus! {

/// Quotient of `a` by a positive `b`, rounded toward zero.
pub open spec fn tdiv(a: int, b: int) -> int {
    if a >= 0 {
        a / b
    } else {
        -((-a) / b)
    }
}

/// Absolute value.
pub open spec fn abs(a: int) -> int {
    if a >= 0 {
        a
    } else {
        -a
    }
}

/// Rounding toward zero keeps the sign and never grows the magnitude, and
/// the quotient times the divisor does not exceed the dividend in magnitude.
pub proof fn lemma_tdiv_bounds(a: int, b: int)
    requires
        b >= 1,
    ensures
        a >= 0 ==> 0 <= tdiv(a, b) <= a,
        a < 0 ==> a <= tdiv(a, b) <= 0,
        abs(tdiv(a, b)) * b <= abs(a),
        abs(a) >= b ==> abs(tdiv(a, b)) >= 1,
{
    let m = abs(a);
    vstd::arithmetic::div_mod::lemma_div_pos_is_pos(m, b);
    vstd::arithmetic::div_mod::lemma_div_is_ordered_by_denominator(m, 1, b);
    vstd::arithmetic::div_mod::lemma_fundamental_div_mod(m, b);
    assert(m % b >= 0);
    assert((m / b) * b <= m) by (nonlinear_arith)
        requires m == b * (m / b) + (m % b), m % b >= 0;
    if m >= b {
        vstd::arithmetic::div_mod::lemma_div_is_ordered(b, m, b);
        assert(b / b == 1) by {
            vstd::arithmetic::div_mod::lemma_div_by_self(b);
        }
    }
}

/// `v` pulled into the interval `[-m, m]`.
pub open spec fn clamp(v: int, m: int) -> int {
    if v > m {
        m
    } else if v < -m {
        -m
    } else {
        v
    }
}

/// `r` is the least natural number whose square reaches `n`.
pub open spec fn is_ceil_sqrt(n: int, r: int) -> bool {
    &&& r >= 0
    &&& r * r >= n
    &&& (r == 0 || (r - 1) * (r - 1) < n)
}

/// The ceiling of the square root of `n`.
pub open spec fn ceil_sqrt_spec(n: int) -> int {
    choose|r: int| is_ceil_sqrt(n, r)
}

/// There is at most one ceiling square root.
pub proof fn lemma_ceil_sqrt_unique(n: int, r1: int, r2: int)
    requires
        is_ceil_sqrt(n, r1),
        is_ceil_sqrt(n, r2),
    ensures
        r1 == r2,
{
    if r1 < r2 {
        assert((r2 - 1) * (r2 - 1) >= r1 * r1) by (nonlinear_arith)
            requires r1 < r2, r1 >= 0;
    } else if r2 < r1 {
        assert((r1 - 1) * (r1 - 1) >= r2 * r2) by (nonlinear_arith)
            requires r2 < r1, r2 >= 0;
    }
}

/// A witness of `is_ceil_sqrt` is the value of `ceil_sqrt_spec`.
pub proof fn lemma_ceil_sqrt_is(n: int, r: int)
    requires
        is_ceil_sqrt(n, r),
    ensures
        ceil_sqrt_spec(n) == r,
{
    let c = ceil_sqrt_spec(n);
    assert(is_ceil_sqrt(n, c));
    lemma_ceil_sqrt_unique(n, r, c);
}

/// Largest value `ceil_sqrt` accepts.
pub const SQRT_INPUT_MAX: u128 = 1_237_940_039_285_380_274_899_124_224;

/// Ceiling of the square root, found by bisection.
pub fn ceil_sqrt(n: u128) -> (r: u128)
    requires
        n <= SQRT_INPUT_MAX,
    ensures
        is_ceil_sqrt(n as int, r as int),
        r as int == ceil_sqrt_spec(n as int),
        r <= 35_184_372_088_832,
{
    if n == 0 {
        proof {
            lemma_ceil_sqrt_is(0, 0);
        }
        return 0;
    }
    let mut lo: u128 = 0;
    let mut hi: u128 = 35_184_372_088_832;
    assert(hi * hi == SQRT_INPUT_MAX) by (nonlinear_arith)
        requires hi == 35_184_372_088_832u128;
    while hi - lo > 1
        invariant
            lo < hi,
            hi <= 35_184_372_088_832,
            lo * lo < n,
            hi * hi >= n,
        decreases hi - lo,
    {
        let mid: u128 = lo + (hi - lo) / 2;
        assert(mid * mid <= SQRT_INPUT_MAX) by (nonlinear_arith)
            requires mid <= hi, hi <= 35_184_372_088_832u128;
        if mid * mid >= n {
            hi = mid;
        } else {
            lo = mid;
        }
    }
    proof {
        lemma_ceil_sqrt_is(n as int, hi as int);
    }
    hi
}

/// Quotient rounded toward zero, for a positive divisor.
pub fn trunc_div(a: i128, b: i128) -> (q: i128)
    requires
        b > 0,
    ensures
        q as int == tdiv(a as int, b as int),
{
    if a >= 0 {
        a / b
    } else if a == i128::MIN {
        // -a does not fit: take one step toward zero first.
        let q0: i128 = (-(a + b)) / b;
        assert(tdiv(a as int, b as int) == -(q0 as int) - 1) by {
            let na: int = -(a as int);
            let bb: int = b as int;
            assert((na - bb) / bb == na / bb - 1) by {
                vstd::arithmetic::div_mod::lemma_div_minus_one(na, bb);
            }
        }
        -q0 - 1
    } else {
        -((-a) / b)
    }
}

/// `v` clamped into `[-m, m]` and narrowed.
pub fn clamp_to(v: i128, m: i64) -> (r: i64)
    requires
        m >= 0,
    ensures
        r as int == clamp(v as int, m as int),
{
    if v > m as i128 {
        m
    } else if v < -(m as i128) {
        -m
    } else {
        v as i64
    }
}

} // verus!
