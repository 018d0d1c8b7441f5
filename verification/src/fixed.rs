use vstd::prelude::*;

verus! {

/// Number of fractional steps per unit of length: every scalar coordinate in
/// the library is an integer count of 1/SCALE units.
pub const SCALE: i64 = 65536;

/// Largest coordinate magnitude accepted from a frame observation.
pub const COORD_MAX: i64 = 0x400_0000;

/// Largest coordinate magnitude a stored surfel position may reach.
pub const POS_MAX: i64 = 0x8000_0000;

/// Truncating (round-toward-zero) division on mathematical integers, the
/// rounding that the executable code below uses for every quotient.
pub open spec fn tdiv(a: int, b: int) -> int
    recommends
        b > 0,
{
    if a >= 0 {
        a / b
    } else {
        -((-a) / b)
    }
}

/// The quotient rounded toward zero never exceeds `m` when `|a| <= m * b`.
pub proof fn lemma_tdiv_bound(a: int, b: int, m: int)
    requires
        b >= 1,
        m >= 0,
        -(m * b) <= a <= m * b,
    ensures
        -m <= tdiv(a, b) <= m,
{
    if a >= 0 {
        assert(a / b <= m) by (nonlinear_arith)
            requires b >= 1, m >= 0, a <= m * b, a >= 0;
        assert(a / b >= 0) by (nonlinear_arith)
            requires b >= 1, a >= 0;
    } else {
        assert((-a) / b <= m) by (nonlinear_arith)
            requires b >= 1, m >= 0, -a <= m * b, -a >= 0;
        assert((-a) / b >= 0) by (nonlinear_arith)
            requires b >= 1, -a >= 0;
    }
}

/// A non-negative dividend gives a non-negative quotient.
pub proof fn lemma_tdiv_nonneg(a: int, b: int)
    requires
        a >= 0,
        b >= 1,
    ensures
        tdiv(a, b) >= 0,
{
    assert(a / b >= 0) by (nonlinear_arith)
        requires a >= 0, b >= 1;
}

/// Dividing an exact multiple rounds to the exact factor.
pub proof fn lemma_tdiv_exact(x: int, d: int)
    requires
        d > 0,
    ensures
        tdiv(d * x, d) == x,
{
    if d * x >= 0 {
        vstd::arithmetic::div_mod::lemma_div_multiples_vanish(x, d);
    } else {
        assert(-(d * x) == d * (-x)) by (nonlinear_arith);
        vstd::arithmetic::div_mod::lemma_div_multiples_vanish(-x, d);
    }
}

/// A product is bounded by the product of the factors' bounds.
pub proof fn lemma_abs_mul(a: int, b: int, am: int, bm: int)
    requires
        -am <= a <= am,
        -bm <= b <= bm,
    ensures
        -(am * bm) <= a * b <= am * bm,
{
    assert(-(am * bm) <= a * b <= am * bm) by (nonlinear_arith)
        requires -am <= a <= am, -bm <= b <= bm;
}

/// A scalar whose square is at most `m * m` lies within `[-m, m]`.
pub proof fn lemma_sq_bound(x: int, m: int)
    requires
        m >= 0,
        x * x <= m * m,
    ensures
        -m <= x <= m,
{
    assert(-m <= x <= m) by (nonlinear_arith)
        requires m >= 0, x * x <= m * m;
}

/// Two scalars whose squares are both at most `n` have a product within
/// `[-n, n]`.
pub proof fn lemma_prod_within_norm(a: int, b: int, n: int)
    requires
        a * a <= n,
        b * b <= n,
    ensures
        -n <= a * b <= n,
{
    assert(-n <= a * b <= n) by (nonlinear_arith)
        requires a * a <= n, b * b <= n;
}

/// Quotient of two scalars, rounded toward zero.
pub fn div_round_zero(a: i64, b: i64) -> (r: i64)
    requires
        b > 0,
        a > i64::MIN,
    ensures
        r == tdiv(a as int, b as int),
{
    let neg = a < 0;
    let m: u64 = if neg { (-a) as u64 } else { a as u64 };
    let q: u64 = m / (b as u64);
    assert(q <= m) by {
        assert(m / (b as u64) <= m) by (nonlinear_arith)
            requires b >= 1;
    };
    if neg {
        -(q as i64)
    } else {
        q as i64
    }
}

/// Quotient of two wide scalars, rounded toward zero.
pub fn div_round_zero_wide(a: i128, b: i128) -> (r: i128)
    requires
        b > 0,
        a > i128::MIN,
    ensures
        r == tdiv(a as int, b as int),
{
    let neg = a < 0;
    let m: u128 = if neg { (-a) as u128 } else { a as u128 };
    let q: u128 = m / (b as u128);
    assert(q <= m) by {
        assert(m / (b as u128) <= m) by (nonlinear_arith)
            requires b >= 1;
    };
    if neg {
        -(q as i128)
    } else {
        q as i128
    }
}

/// Half of a scalar, rounded toward zero.
pub fn half(a: i64) -> (r: i64)
    requires
        a > i64::MIN,
    ensures
        r == tdiv(a as int, 2),
{
    if a >= 0 {
        a / 2
    } else {
        -((-a) / 2)
    }
}

/// Integer square root by bisection: the greatest `r` with `r * r <= x`.
pub fn isqrt(x: u128) -> (r: u64)
    requires
        x < 0x1_0000_0000_0000_0000_0000,
    ensures
        (r as int) * (r as int) <= x,
        x < ((r as int) + 1) * ((r as int) + 1),
{
    let mut lo: u64 = 0;
    let mut hi: u64 = 0x100_0000_0000;
    proof {
        assert((0x100_0000_0000 as int) * (0x100_0000_0000 as int)
            == 0x1_0000_0000_0000_0000_0000) by (nonlinear_arith);
    }
    while hi - lo > 1
        invariant
            lo < hi <= 0x100_0000_0000,
            (lo as int) * (lo as int) <= x,
            x < (hi as int) * (hi as int),
        decreases hi - lo,
    {
        let mid: u64 = lo + (hi - lo) / 2;
        proof {
            assert(lo < mid < hi) by {
                assert(1 <= (hi - lo) / 2 < hi - lo);
            };
            assert((mid as int) * (mid as int) <= 0x1_0000_0000_0000_0000_0000)
                by (nonlinear_arith)
                requires 0 <= mid as int <= 0x100_0000_0000;
        }
        if (mid as u128) * (mid as u128) <= x {
            lo = mid;
        } else {
            hi = mid;
        }
    }
    proof {
        assert(hi == lo + 1);
    }
    lo
}

} // verus!
