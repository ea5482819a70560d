//! Saturating fixed-point arithmetic with six decimal places.
//!
//! A scalar is an `i64` that stands for the rational `raw / ONE`. Products and
//! quotients are rounded toward zero; every result is clamped into
//! `[-LIMIT, LIMIT]`, the two ends playing the role of infinities.

use vstd::prelude::*;

verus! {

/// The raw value of the scalar 1.
pub const ONE: i64 = 1_000_000;

/// The largest magnitude a scalar can have.
pub const LIMIT: i64 = 0x7fff_ffff_ffff_ffff;

/// Clamps a mathematical integer into the scalar range.
pub open spec fn sat(x: int) -> i64 {
    if x > LIMIT {
        LIMIT
    } else if x < -(LIMIT as int) {
        (-(LIMIT as int)) as i64
    } else {
        x as i64
    }
}

/// The quotient of `n` by `d` rounded toward zero, and 0 when `d` is 0.
pub open spec fn quot(n: int, d: int) -> int {
    if d == 0 {
        0
    } else if (n >= 0) == (d > 0) {
        abs(n) / abs(d)
    } else {
        -(abs(n) / abs(d))
    }
}

/// The magnitude of `x`.
pub open spec fn abs(x: int) -> int {
    if x < 0 {
        -x
    } else {
        x
    }
}

/// The sign of `x`: -1, 0 or 1.
pub open spec fn sign(x: int) -> int {
    if x < 0 {
        -1
    } else if x == 0 {
        0
    } else {
        1
    }
}

/// The sum, clamped.
pub open spec fn spec_add(a: i64, b: i64) -> i64 {
    sat(a + b)
}

/// The difference, clamped.
pub open spec fn spec_sub(a: i64, b: i64) -> i64 {
    sat(a - b)
}

/// The negation; that of `i64::MIN` is `LIMIT`.
pub open spec fn spec_neg(a: i64) -> i64 {
    sat(-(a as int))
}

/// The product: that of the raw values by `ONE`, rounded toward zero and
/// clamped.
pub open spec fn spec_mul(a: i64, b: i64) -> i64 {
    sat(quot(a * b, ONE as int))
}

/// The quotient: `ONE` times the first raw value by the second, rounded
/// toward zero and clamped. A division by zero saturates by the sign of the
/// dividend.
pub open spec fn spec_div(a: i64, b: i64) -> i64 {
    if b == 0 {
        sat(sign(a as int) * LIMIT)
    } else {
        sat(quot(a * ONE, b as int))
    }
}

/// The scalar that stands for the integer `n`, clamped.
pub open spec fn spec_from_int(n: i64) -> i64 {
    sat(n * ONE)
}

/// `x` clamped into `[0, 1]`.
pub open spec fn spec_clamp_unit(x: i64) -> i64 {
    if x < 0 {
        0
    } else if x > ONE {
        ONE
    } else {
        x
    }
}

/// `x` clamped into `[0, 1]`.
pub fn clamp_unit(x: i64) -> (r: i64)
    ensures
        r == spec_clamp_unit(x),
{
    if x < 0 {
        0
    } else if x > ONE {
        ONE
    } else {
        x
    }
}

/// Clamps a wide integer into the scalar range.
pub fn saturate(x: i128) -> (r: i64)
    ensures
        r == sat(x as int),
{
    if x > LIMIT as i128 {
        LIMIT
    } else if x < -(LIMIT as i128) {
        -LIMIT
    } else {
        x as i64
    }
}

/// A product of two integers of magnitude at most `m` has magnitude at most
/// `m * m`.
proof fn lemma_product_bounds(a: int, b: int, m: int)
    requires
        -m <= a <= m,
        -m <= b <= m,
    ensures
        -(m * m) <= a * b <= m * m,
{
    assert(-(m * m) <= a * b <= m * m) by (nonlinear_arith)
        requires
            -m <= a <= m,
            -m <= b <= m,
    ;
}

/// The exact product of two scalars' raw values.
fn wide_product(a: i64, b: i64) -> (p: i128)
    ensures
        p == a * b,
        -0x4000_0000_0000_0000_0000_0000_0000_0000 <= p <= 0x4000_0000_0000_0000_0000_0000_0000_0000,
{
    proof {
        lemma_product_bounds(a as int, b as int, 0x8000_0000_0000_0000);
        assert(0x8000_0000_0000_0000int * 0x8000_0000_0000_0000int
            == 0x4000_0000_0000_0000_0000_0000_0000_0000int) by (nonlinear_arith);
    }
    (a as i128) * (b as i128)
}

/// `n / d` rounded toward zero, for a non-zero `d`.
fn wide_quot(n: i128, d: i128) -> (q: i128)
    requires
        d != 0,
        -0x4000_0000_0000_0000_0000_0000_0000_0000 <= n <= 0x4000_0000_0000_0000_0000_0000_0000_0000,
        -0x4000_0000_0000_0000_0000_0000_0000_0000 <= d <= 0x4000_0000_0000_0000_0000_0000_0000_0000,
    ensures
        q == quot(n as int, d as int),
{
    let un: i128 = if n < 0 { -n } else { n };
    let ud: i128 = if d < 0 { -d } else { d };
    let uq: i128 = un / ud;
    proof {
        assert(0 <= (un as int) / (ud as int) <= un) by (nonlinear_arith)
            requires
                un >= 0,
                ud > 0,
        ;
    }
    if (n >= 0) == (d > 0) {
        uq
    } else {
        -uq
    }
}

/// The saturating sum of two scalars.
pub fn fx_add(a: i64, b: i64) -> (r: i64)
    ensures
        r == spec_add(a, b),
{
    saturate(a as i128 + b as i128)
}

/// The saturating difference of two scalars.
pub fn fx_sub(a: i64, b: i64) -> (r: i64)
    ensures
        r == spec_sub(a, b),
{
    saturate(a as i128 - b as i128)
}

/// The saturating negation of a scalar.
pub fn fx_neg(a: i64) -> (r: i64)
    ensures
        r == spec_neg(a),
{
    saturate(-(a as i128))
}

/// The product of two scalars, rounded toward zero and saturating.
pub fn fx_mul(a: i64, b: i64) -> (r: i64)
    ensures
        r == spec_mul(a, b),
{
    saturate(wide_quot(wide_product(a, b), ONE as i128))
}

/// The quotient of two scalars, rounded toward zero and saturating, also
/// where the divisor is 0.
pub fn fx_div(a: i64, b: i64) -> (r: i64)
    ensures
        r == spec_div(a, b),
{
    if b == 0 {
        if a > 0 {
            LIMIT
        } else if a < 0 {
            -LIMIT
        } else {
            0
        }
    } else {
        saturate(wide_quot(wide_product(a, ONE), b as i128))
    }
}

/// The scalar that stands for the integer `n`.
pub fn from_int(n: i64) -> (r: i64)
    ensures
        r == spec_from_int(n),
{
    saturate(wide_product(n, ONE))
}

/// The integer square root: the largest `r` with `r * r <= n`, and 0 for a
/// negative `n`.
pub open spec fn isqrt(n: int) -> int
    decreases n,
{
    if n <= 0 {
        0
    } else {
        let r = isqrt(n - 1);
        if (r + 1) * (r + 1) <= n {
            r + 1
        } else {
            r
        }
    }
}

/// `isqrt(n)` is a root: its square is at most `n`, the next square is above.
pub proof fn lemma_isqrt_bounds(n: int)
    requires
        n >= 0,
    ensures
        isqrt(n) >= 0,
        isqrt(n) * isqrt(n) <= n,
        n < (isqrt(n) + 1) * (isqrt(n) + 1),
    decreases n,
{
    if n > 0 {
        lemma_isqrt_bounds(n - 1);
        let r = isqrt(n - 1);
        assert((r + 1) * (r + 1) < (r + 2) * (r + 2)) by (nonlinear_arith)
            requires
                r >= 0,
        ;
    }
}

/// There is only one such root.
pub proof fn lemma_isqrt_unique(n: int, r: int)
    requires
        r >= 0,
        r * r <= n,
        n < (r + 1) * (r + 1),
    ensures
        r == isqrt(n),
{
    lemma_isqrt_bounds(n);
    let s = isqrt(n);
    if r < s {
        assert((r + 1) * (r + 1) <= s * s) by (nonlinear_arith)
            requires
                0 <= r,
                r + 1 <= s,
        ;
    } else if s < r {
        assert((s + 1) * (s + 1) <= r * r) by (nonlinear_arith)
            requires
                0 <= s,
                s + 1 <= r,
        ;
    }
}

/// The square root, rounded down; 0 for a negative scalar.
pub open spec fn spec_sqrt(a: i64) -> i64 {
    isqrt(a * ONE) as i64
}

/// The square root of a scalar, rounded down. A negative scalar gives 0.
pub fn fx_sqrt(a: i64) -> (r: i64)
    ensures
        r == spec_sqrt(a),
        0 <= r < 0x400_0000_0000,
{
    if a <= 0 {
        assert(isqrt(a * ONE) == 0);
        return 0;
    }
    assert(0 < a * ONE < 0x10_0000_0000_0000_0000_0000int) by (nonlinear_arith)
        requires
            0 < a <= 0x7fff_ffff_ffff_ffff,
            ONE == 1_000_000,
    ;
    let n: u128 = (a as u128) * (ONE as u128);
    let mut lo: u128 = 0;
    let mut hi: u128 = 0x400_0000_0000;
    assert(0x400_0000_0000int * 0x400_0000_0000int == 0x10_0000_0000_0000_0000_0000int)
        by (nonlinear_arith);
    while hi - lo > 1
        invariant
            lo < hi <= 0x400_0000_0000,
            lo * lo <= n,
            n < hi * hi,
        decreases hi - lo,
    {
        let mid: u128 = lo + (hi - lo) / 2;
        assert(mid * mid <= 0x400_0000_0000int * 0x400_0000_0000int) by (nonlinear_arith)
            requires
                0 <= mid <= 0x400_0000_0000,
        ;
        if mid * mid <= n {
            lo = mid;
        } else {
            hi = mid;
        }
    }
    proof {
        lemma_isqrt_unique(n as int, lo as int);
    }
    lo as i64
}

/// Rounding toward zero commutes with negation of the dividend.
pub proof fn lemma_quot_neg(n: int, d: int)
    ensures
        quot(-n, d) == -quot(n, d),
{
    if d != 0 && n == 0 {
        assert(0int / abs(d) == 0) by (nonlinear_arith)
            requires
                abs(d) > 0,
        ;
    }
}

/// Negating a factor negates the product.
pub proof fn lemma_mul_neg(a: i64, b: i64)
    requires
        a >= -LIMIT,
    ensures
        spec_mul(spec_neg(a), b) == spec_neg(spec_mul(a, b)),
        spec_mul(b, spec_neg(a)) == spec_neg(spec_mul(b, a)),
{
    assert((-(a as int)) * b == -(a * b)) by (nonlinear_arith);
    assert(b * (-(a as int)) == -(b * a)) by (nonlinear_arith);
    lemma_quot_neg(a * b, ONE as int);
    lemma_quot_neg(b * a, ONE as int);
}

/// Negating both terms negates the sum.
pub proof fn lemma_add_neg(a: i64, b: i64)
    requires
        a >= -LIMIT,
        b >= -LIMIT,
    ensures
        spec_add(spec_neg(a), spec_neg(b)) == spec_neg(spec_add(a, b)),
{
}

/// Rounding toward zero keeps the order of the dividends.
pub proof fn lemma_quot_monotonic(n1: int, n2: int, d: int)
    requires
        n1 <= n2,
        d > 0,
    ensures
        quot(n1, d) <= quot(n2, d),
{
    assert(forall|x: int, y: int| 0 <= x <= y ==> 0 <= #[trigger] (x / d) <= #[trigger] (y / d))
        by (nonlinear_arith)
        requires
            d > 0,
    ;
    if n1 >= 0 {
        assert(0 <= n1 / d <= n2 / d);
    } else if n2 >= 0 {
        assert(0 <= (-n1) / d);
        assert(0 <= n2 / d);
    } else {
        assert(0 <= (-n2) / d <= (-n1) / d);
    }
}

/// Division by a scalar that is not negative keeps the order.
pub proof fn lemma_div_monotonic(x: i64, y: i64, d: i64)
    requires
        x <= y,
        d >= 0,
    ensures
        spec_div(x, d) <= spec_div(y, d),
{
    if d > 0 {
        assert(x * ONE <= y * ONE) by (nonlinear_arith)
            requires
                x <= y,
                ONE > 0,
        ;
        lemma_quot_monotonic(x * ONE, y * ONE, d as int);
    }
}

/// The square root is the integer square root of the scaled raw value, and
/// not negative.
pub proof fn lemma_sqrt_value(a: i64)
    ensures
        spec_sqrt(a) == isqrt(a * ONE),
        0 <= spec_sqrt(a) < 0x400_0000_0000,
{
    if a > 0 {
        let n = a * ONE;
        assert(0 < n < 0x10_0000_0000_0000_0000_0000int) by (nonlinear_arith)
            requires
                n == a * ONE,
                0 < a <= 0x7fff_ffff_ffff_ffff,
                ONE == 1_000_000,
        ;
        lemma_isqrt_bounds(n);
        let r = isqrt(n);
        if r >= 0x400_0000_0000 {
            assert(r * r >= 0x10_0000_0000_0000_0000_0000int) by (nonlinear_arith)
                requires
                    r >= 0x400_0000_0000,
            ;
        }
    } else {
        assert(a * ONE <= 0) by (nonlinear_arith)
            requires
                a <= 0,
                ONE > 0,
        ;
    }
}

/// A scalar that is not negative, times a scalar in `[0, 1]`, lies between 0
/// and the first.
pub proof fn lemma_mul_unit(a: i64, b: i64)
    requires
        0 <= a,
        0 <= b <= ONE,
    ensures
        0 <= spec_mul(a, b) <= a,
{
    let one = ONE as int;
    assert(0 <= a * b <= a * one) by (nonlinear_arith)
        requires
            0 <= a,
            0 <= b <= one,
    ;
    assert(0 <= (a * b) / one <= a) by (nonlinear_arith)
        requires
            0 <= a * b <= a * one,
            one > 0,
    ;
}

/// A quotient whose dividend is not larger in magnitude than its divisor
/// lies in `[-1, 1]`.
pub proof fn lemma_div_unit(a: i64, b: i64)
    requires
        b > 0,
        -b <= a <= b,
    ensures
        -ONE <= spec_div(a, b) <= ONE,
{
    let one = ONE as int;
    let m = abs(a as int);
    assert(abs(a * one) == m * one) by (nonlinear_arith)
        requires
            m == abs(a as int),
            one > 0,
    ;
    assert(0 <= (m * one) / (b as int) <= one) by (nonlinear_arith)
        requires
            0 <= m <= b,
            b > 0,
            one > 0,
    ;
}

/// Rounding toward zero leaves a remainder smaller than the divisor.
pub proof fn lemma_quot_remainder(n: int, d: int)
    requires
        d > 0,
    ensures
        -d < n - quot(n, d) * d < d,
{
    let m = abs(n);
    assert(0 <= m - (m / d) * d < d) by (nonlinear_arith)
        requires
            m >= 0,
            d > 0,
    ;
    if n < 0 {
        assert((-(m / d)) * d == -((m / d) * d)) by (nonlinear_arith);
    }
}

/// A product of two scalars of the same sign is not negative.
pub proof fn lemma_mul_same_sign(x: i64, y: i64)
    requires
        (x >= 0 && y >= 0) || (x <= 0 && y <= 0),
    ensures
        spec_mul(x, y) >= 0,
{
    assert(x * y >= 0) by (nonlinear_arith)
        requires
            (x >= 0 && y >= 0) || (x <= 0 && y <= 0),
    ;
    assert(0 <= (x * y) / (ONE as int)) by (nonlinear_arith)
        requires
            x * y >= 0,
            ONE > 0,
    ;
}

/// A quotient by a positive scalar has the sign of the dividend, or is 0.
pub proof fn lemma_div_sign(a: i64, b: i64)
    requires
        b > 0,
    ensures
        a >= 0 ==> spec_div(a, b) >= 0,
        a <= 0 ==> spec_div(a, b) <= 0,
{
    let n = a * ONE;
    assert(a >= 0 ==> n >= 0) by (nonlinear_arith)
        requires
            n == a * ONE,
            ONE > 0,
    ;
    assert(a <= 0 ==> n <= 0) by (nonlinear_arith)
        requires
            n == a * ONE,
            ONE > 0,
    ;
    assert(0 <= abs(n) / (b as int)) by (nonlinear_arith)
        requires
            abs(n) >= 0,
            b > 0,
    ;
    if n == 0 {
        assert(0int / (b as int) == 0) by (nonlinear_arith)
            requires
                b > 0,
        ;
    }
}

/// The product does not depend on the order of its factors.
pub proof fn lemma_mul_commutes(a: i64, b: i64)
    ensures
        spec_mul(a, b) == spec_mul(b, a),
{
    assert(a * b == b * a) by (nonlinear_arith);
}

/// The scalar 1 is neutral in products.
pub proof fn lemma_mul_one(a: i64)
    requires
        a >= -LIMIT,
    ensures
        spec_mul(ONE, a) == a,
        spec_mul(a, ONE) == a,
{
    let one = ONE as int;
    lemma_mul_commutes(a, ONE);
    assert(abs(a * one) == abs(a as int) * one) by (nonlinear_arith)
        requires
            one > 0,
    ;
    assert((abs(a as int) * one) / one == abs(a as int)) by (nonlinear_arith)
        requires
            one > 0,
    ;
    assert(a >= 0 ==> a * one >= 0) by (nonlinear_arith)
        requires
            one > 0,
    ;
    assert(a < 0 ==> a * one < 0) by (nonlinear_arith)
        requires
            one > 0,
    ;
}

/// A product that needs no rounding is exact: where the raw values multiply
/// to `q` times `ONE`, the product is `q`.
pub proof fn lemma_mul_exact(a: i64, b: i64, q: i64)
    requires
        a * b == q * ONE,
        q >= -LIMIT,
    ensures
        spec_mul(a, b) == q,
{
    let one = ONE as int;
    let m = abs(q as int);
    assert(abs(q * one) == m * one) by (nonlinear_arith)
        requires
            m == abs(q as int),
            one > 0,
    ;
    assert((m * one) / one == m) by (nonlinear_arith)
        requires
            one > 0,
    ;
    assert(q >= 0 ==> q * one >= 0) by (nonlinear_arith)
        requires
            one > 0,
    ;
    assert(q < 0 ==> q * one < 0) by (nonlinear_arith)
        requires
            one > 0,
    ;
}

/// A quotient that needs no rounding is exact: where `ONE` times the
/// dividend is `q` times the divisor, the quotient is `q`.
pub proof fn lemma_div_exact(a: i64, b: i64, q: i64)
    requires
        b != 0,
        a * ONE == q * b,
        q >= -LIMIT,
    ensures
        spec_div(a, b) == q,
{
    let n = a * ONE;
    let d = b as int;
    let m = abs(q as int);
    assert(abs(n) == m * abs(d)) by (nonlinear_arith)
        requires
            n == q * d,
            m == abs(q as int),
    ;
    assert((m * abs(d)) / abs(d) == m) by (nonlinear_arith)
        requires
            abs(d) > 0,
    ;
    assert(q == 0 ==> n == 0) by (nonlinear_arith)
        requires
            n == q * d,
    ;
    assert((q > 0 && d > 0) || (q < 0 && d < 0) ==> n > 0) by (nonlinear_arith)
        requires
            n == q * d,
    ;
    assert((q > 0 && d < 0) || (q < 0 && d > 0) ==> n < 0) by (nonlinear_arith)
        requires
            n == q * d,
    ;
}

} // verus!
