//! Fixed-point scalar arithmetic: the scaling constant, truncating
//! division, scaled multiplication, clamping, and integer square roots.

use vstd::prelude::*;

verus! {

/// Number of fixed-point steps per whole unit.  Positions are in
/// thousandths of a world unit, angles in thousandths of a degree,
/// durations in thousandths of a second, and the components of unit
/// direction vectors are scaled by this factor.
pub const ONE: i64 = 1000;

/// Largest coordinate magnitude (in milli-units) the library accepts.
pub const COORD_MAX: i64 = 700_000_000;

/// Largest linear or angular speed accepted, in milli-units (or
/// milli-degrees) per second.
pub const SPEED_MAX: i64 = 10_000_000;

/// Largest tick duration accepted, in milli-seconds.
pub const DT_MAX: i64 = 60_000;

/// Largest difficulty multiplier accepted, scaled by `ONE`
/// (so `1_000_000` is a thousandfold speed-up).
pub const DIFF_MAX: i64 = 1_000_000;

/// Largest accumulated orientation angle accepted, in milli-degrees.
pub const ANGLE_MAX: i64 = 1_000_000_000_000;

/// Division that rounds toward zero, for a positive divisor.
pub open spec fn tdiv(a: int, b: int) -> int {
    if a >= 0 {
        a / b
    } else {
        -((-a) / b)
    }
}

/// The product of two fixed-point quantities: `a * b / ONE`,
/// rounded toward zero.
pub open spec fn scaled(a: int, b: int) -> int {
    tdiv(a * b, ONE as int)
}

/// `x` clamped into the interval `[lo, hi]`.
pub open spec fn clamp_spec(x: int, lo: int, hi: int) -> int {
    if x < lo {
        lo
    } else if x > hi {
        hi
    } else {
        x
    }
}

pub fn clamp_i64(x: i64, lo: i64, hi: i64) -> (r: i64)
    requires
        lo <= hi,
    ensures
        r == clamp_spec(x as int, lo as int, hi as int),
        lo <= r <= hi,
{
    if x < lo {
        lo
    } else if x > hi {
        hi
    } else {
        x
    }
}

/// Truncating division rounds the quotient toward zero: the scaled
/// quotient stays within one divisor of `a`, on `a`'s side of zero.
pub proof fn lemma_tdiv_shape(a: int, b: int)
    requires
        0 < b,
    ensures
        0 <= a ==> 0 <= tdiv(a, b) && b * tdiv(a, b) <= a && a - b < b * tdiv(a, b),
        a < 0 ==> tdiv(a, b) <= 0 && a <= b * tdiv(a, b) && b * tdiv(a, b) < a + b,
{
    if 0 <= a {
        vstd::arithmetic::div_mod::lemma_fundamental_div_mod(a, b);
        vstd::arithmetic::div_mod::lemma_mod_pos_bound(a, b);
        vstd::arithmetic::div_mod::lemma_div_pos_is_pos(a, b);
    } else {
        let q = (-a) / b;
        vstd::arithmetic::div_mod::lemma_fundamental_div_mod(-a, b);
        vstd::arithmetic::div_mod::lemma_mod_pos_bound(-a, b);
        vstd::arithmetic::div_mod::lemma_div_pos_is_pos(-a, b);
        vstd::arithmetic::mul::lemma_mul_unary_negation(b, q);
        assert(b * tdiv(a, b) == -(b * q));
    }
}

/// The magnitude of a truncating quotient never exceeds the magnitude
/// of the dividend.
pub proof fn lemma_tdiv_le_mag(a: int, b: int)
    requires
        0 < b,
    ensures
        0 <= a ==> tdiv(a, b) <= a,
        a < 0 ==> a <= tdiv(a, b),
{
    lemma_tdiv_shape(a, b);
    if 0 <= a {
        assert(tdiv(a, b) <= b * tdiv(a, b)) by (nonlinear_arith)
            requires
                1 <= b,
                0 <= tdiv(a, b),
        ;
    } else {
        assert(b * tdiv(a, b) <= tdiv(a, b)) by (nonlinear_arith)
            requires
                1 <= b,
                tdiv(a, b) <= 0,
        ;
    }
}

/// Squaring a truncating quotient and the divisor never exceeds the
/// square of the dividend.
pub proof fn lemma_tdiv_sq(a: int, b: int)
    requires
        0 < b,
    ensures
        tdiv(a, b) * tdiv(a, b) * (b * b) <= a * a,
{
    lemma_tdiv_shape(a, b);
    if 0 <= a {
        assert(tdiv(a, b) * tdiv(a, b) * (b * b) <= a * a) by (nonlinear_arith)
            requires
                0 <= tdiv(a, b),
                b * tdiv(a, b) <= a,
                0 < b,
        ;
    } else {
        assert(tdiv(a, b) * tdiv(a, b) * (b * b) <= a * a) by (nonlinear_arith)
            requires
                tdiv(a, b) <= 0,
                a <= b * tdiv(a, b),
                0 < b,
        ;
    }
}

/// A dividend bounded by `m * b` has a truncating quotient bounded
/// by `m`.
pub proof fn lemma_tdiv_bound_by(a: int, b: int, m: int)
    requires
        0 < b,
        0 <= m,
        -(m * b) <= a <= m * b,
    ensures
        -m <= tdiv(a, b) <= m,
{
    lemma_tdiv_shape(a, b);
    if 0 <= a {
        assert(tdiv(a, b) <= m) by (nonlinear_arith)
            requires
                0 < b,
                0 <= m,
                a <= m * b,
                b * tdiv(a, b) <= a,
                0 <= tdiv(a, b),
        ;
    } else {
        assert(-m <= tdiv(a, b)) by (nonlinear_arith)
            requires
                0 < b,
                0 <= m,
                -(m * b) <= a,
                a <= b * tdiv(a, b),
                tdiv(a, b) <= 0,
        ;
    }
}

/// Executable truncating division, for a positive divisor.
pub fn tdiv_exec(a: i64, b: i64) -> (r: i64)
    requires
        0 < b,
        -0x4000_0000_0000_0000 < a < 0x4000_0000_0000_0000,
    ensures
        r == tdiv(a as int, b as int),
{
    proof {
        lemma_tdiv_le_mag(a as int, b as int);
    }
    if a >= 0 {
        let q: u64 = (a as u64) / (b as u64);
        q as i64
    } else {
        let q: u64 = ((-a) as u64) / (b as u64);
        -(q as i64)
    }
}

/// The product of two fixed-point quantities, `a * b / ONE`,
/// rounded toward zero.
pub fn mul_scaled(a: i64, b: i64) -> (r: i64)
    requires
        -0x4000_0000_0000_0000 < a * b < 0x4000_0000_0000_0000,
    ensures
        r == scaled(a as int, b as int),
{
    let p: i64 = a * b;
    tdiv_exec(p, ONE)
}

/// `r` is the integer square root of `n`.
pub open spec fn is_sqrt(n: int, r: int) -> bool {
    0 <= r && r * r <= n && n < (r + 1) * (r + 1)
}

/// The integer square root of `n` (for `n >= 0`): the largest `r`
/// with `r * r <= n`.
pub closed spec fn sqrt_s(n: int) -> int {
    choose|r: int| #[trigger] is_sqrt(n, r)
}

/// Every nonnegative integer has an integer square root.
pub proof fn lemma_sqrt_exists(n: int)
    requires
        0 <= n,
    ensures
        exists|r: int| #[trigger] is_sqrt(n, r),
    decreases n,
{
    if n == 0 {
        assert(is_sqrt(0, 0));
    } else {
        lemma_sqrt_exists(n - 1);
        let r = choose|r: int| #[trigger] is_sqrt(n - 1, r);
        if (r + 1) * (r + 1) <= n {
            assert(n < (r + 2) * (r + 2)) by (nonlinear_arith)
                requires
                    0 <= r,
                    n - 1 < (r + 1) * (r + 1),
                    (r + 1) * (r + 1) <= n,
            ;
            assert(is_sqrt(n, r + 1));
        } else {
            assert(is_sqrt(n, r));
        }
    }
}

/// Integer square roots are unique.
pub proof fn lemma_sqrt_unique(n: int, a: int, b: int)
    requires
        is_sqrt(n, a),
        is_sqrt(n, b),
    ensures
        a == b,
{
    assert(a == b) by (nonlinear_arith)
        requires
            0 <= a,
            a * a <= n,
            n < (a + 1) * (a + 1),
            0 <= b,
            b * b <= n,
            n < (b + 1) * (b + 1),
    ;
}

/// `sqrt_s(n)` satisfies the square-root property whenever `n >= 0`.
pub proof fn lemma_sqrt_props(n: int)
    requires
        0 <= n,
    ensures
        is_sqrt(n, sqrt_s(n)),
{
    lemma_sqrt_exists(n);
}

/// Any nonnegative `x` whose square is at most `n` is at most the
/// integer square root of `n`.
pub proof fn lemma_sqrt_dominates(n: int, x: int)
    requires
        0 <= n,
        0 <= x,
        x * x <= n,
    ensures
        x <= sqrt_s(n),
{
    lemma_sqrt_props(n);
    assert(x <= sqrt_s(n)) by (nonlinear_arith)
        requires
            0 <= x,
            x * x <= n,
            0 <= sqrt_s(n),
            n < (sqrt_s(n) + 1) * (sqrt_s(n) + 1),
    ;
}

/// Executable integer square root, by bisection.
pub fn isqrt(n: u64) -> (r: u64)
    requires
        n <= 4_000_000_000_000_000_000,
    ensures
        r as int == sqrt_s(n as int),
        is_sqrt(n as int, r as int),
{
    let mut lo: u64 = 0;
    let mut hi: u64 = 2_000_000_001;
    proof {
        assert((2_000_000_001int) * (2_000_000_001int) > 4_000_000_000_000_000_000int)
            by (nonlinear_arith);
    }
    while lo + 1 < hi
        invariant
            lo < hi <= 2_000_000_001,
            n <= 4_000_000_000_000_000_000,
            (lo as int) * (lo as int) <= n as int,
            (n as int) < (hi as int) * (hi as int),
        decreases hi - lo,
    {
        let mid: u64 = lo + (hi - lo) / 2;
        proof {
            assert((mid as int) * (mid as int) <= 2_000_000_001int * 2_000_000_001int)
                by (nonlinear_arith)
                requires
                    0 <= mid as int <= 2_000_000_001int,
            ;
        }
        if mid * mid <= n {
            lo = mid;
        } else {
            hi = mid;
        }
    }
    proof {
        assert(is_sqrt(n as int, lo as int));
        lemma_sqrt_props(n as int);
        lemma_sqrt_unique(n as int, lo as int, sqrt_s(n as int));
    }
    lo
}

} // verus!
