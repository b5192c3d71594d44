//! Fixed-point conventions shared by every stage of the analysis.

use vstd::prelude::*;

verus! {

/// Raw steps per unit: the raw value `v` stands for the number `v / SCALE`.
pub const SCALE: i64 = 1_000_000;

/// Largest magnitude, in raw steps, that a coordinate of a sample point may have.
pub const COORD_LIMIT: i64 = 1_000_000_000_000;

/// Absolute value.
pub open spec fn magnitude(a: int) -> int {
    if a < 0 {
        -a
    } else {
        a
    }
}

/// Distance between two positions on one axis.
pub open spec fn distance(a: int, b: int) -> int {
    magnitude(a - b)
}

/// Quotient of `a` by a positive `b`, rounded toward zero.
pub open spec fn trunc_div(a: int, b: int) -> int
    recommends
        b > 0,
{
    if a >= 0 {
        a / b
    } else {
        -((-a) / b)
    }
}

/// The value of `i64` nearest to `v`.
pub open spec fn clamp_i64(v: int) -> int {
    if v < i64::MIN {
        i64::MIN as int
    } else if v > i64::MAX {
        i64::MAX as int
    } else {
        v
    }
}

/// `|a - b|`, exact for every pair of `i64`.
pub fn abs_diff(a: i64, b: i64) -> (d: i128)
    ensures
        d == distance(a as int, b as int),
{
    let wide_a: i128 = a as i128;
    let wide_b: i128 = b as i128;
    if wide_a >= wide_b {
        wide_a - wide_b
    } else {
        wide_b - wide_a
    }
}

/// Narrows a wide value, saturating at the ends of `i64`.
pub fn saturate(v: i128) -> (r: i64)
    ensures
        r == clamp_i64(v as int),
{
    if v < i64::MIN as i128 {
        i64::MIN
    } else if v > i64::MAX as i128 {
        i64::MAX
    } else {
        v as i64
    }
}

/// A quotient rounded toward zero lies between zero and the exact quotient.
pub proof fn lemma_trunc_div_bounds(a: int, b: int)
    requires
        b > 0,
    ensures
        magnitude(trunc_div(a, b)) * b <= magnitude(a),
        magnitude(a) < (magnitude(trunc_div(a, b)) + 1) * b,
        a >= 0 ==> trunc_div(a, b) >= 0,
        a <= 0 ==> trunc_div(a, b) <= 0,
{
    let m = magnitude(a);
    assert(m == b * (m / b) + m % b) by {
        vstd::arithmetic::div_mod::lemma_fundamental_div_mod(m, b);
    }
    assert(0 <= m % b < b) by {
        vstd::arithmetic::div_mod::lemma_mod_bound(m, b);
    }
    assert(m / b >= 0) by {
        vstd::arithmetic::div_mod::lemma_div_pos_is_pos(m, b);
    }
    assert(magnitude(trunc_div(a, b)) == m / b);
    assert((m / b) * b == b * (m / b)) by (nonlinear_arith);
    assert((m / b + 1) * b == b * (m / b) + b) by (nonlinear_arith);
}

/// A product is bounded by the product of the bounds of its factors.
pub proof fn lemma_product_bound(a: int, b: int, la: int, lb: int)
    by (nonlinear_arith)
    requires
        -la <= a <= la,
        -lb <= b <= lb,
    ensures
        -(la * lb) <= a * b <= la * lb,
{
}

/// A quotient rounded toward zero does not exceed an integer that the
/// exact quotient does not exceed.
pub proof fn lemma_trunc_div_upper(n: int, d: int, q: int)
    requires
        d > 0,
        n <= q * d,
    ensures
        trunc_div(n, d) <= q,
{
    lemma_trunc_div_bounds(n, d);
    let t = trunc_div(n, d);
    if n >= 0 {
        assert(t * d <= n);
        assert(t <= q) by (nonlinear_arith)
            requires
                t * d <= q * d,
                d > 0,
        ;
    } else {
        let m = -t;
        assert(m >= 0);
        assert(-n < (m + 1) * d);
        assert((-q) * d == -(q * d)) by (nonlinear_arith);
        assert((-q) < m + 1) by (nonlinear_arith)
            requires
                (-q) * d < (m + 1) * d,
                d > 0,
        ;
    }
}

/// A quotient rounded toward zero is not less than an integer that the
/// exact quotient is not less than.
pub proof fn lemma_trunc_div_lower(n: int, d: int, q: int)
    requires
        d > 0,
        q * d <= n,
    ensures
        q <= trunc_div(n, d),
{
    assert((-q) * d == -(q * d)) by (nonlinear_arith);
    lemma_trunc_div_upper(-n, d, -q);
    assert(trunc_div(-n, d) == -trunc_div(n, d));
}

/// Quotient of `n` by a nonzero `d`, rounded toward zero.
pub open spec fn quotient(n: int, d: int) -> int
    recommends
        d != 0,
{
    if d > 0 {
        trunc_div(n, d)
    } else {
        trunc_div(-n, -d)
    }
}

/// A quotient is zero where the divisor is larger in magnitude than the
/// dividend.
pub proof fn lemma_quotient_small(n: int, d: int)
    requires
        magnitude(n) < magnitude(d),
    ensures
        quotient(n, d) == 0,
{
    let m = magnitude(d);
    let v = if d > 0 {
        n
    } else {
        -n
    };
    lemma_trunc_div_bounds(v, m);
    let q = magnitude(trunc_div(v, m));
    assert(q == 0) by (nonlinear_arith)
        requires
            q >= 0,
            q * m <= magnitude(v),
            magnitude(v) < m,
    ;
}

/// Divides `n` by a nonzero `d`, rounding toward zero.
pub fn divide(n: i128, d: i128) -> (q: i128)
    requires
        d != 0,
        n > i128::MIN,
    ensures
        q == quotient(n as int, d as int),
{
    if d == i128::MIN {
        proof {
            lemma_quotient_small(n as int, d as int);
        }
        return 0;
    }
    let top: i128 = if n < 0 {
        -n
    } else {
        n
    };
    let bottom: i128 = if d < 0 {
        -d
    } else {
        d
    };
    let q: i128 = top / bottom;
    if (n < 0) != (d < 0) {
        -q
    } else {
        q
    }
}

} // verus!
