//! Fixed-point scalar arithmetic.
//!
//! Every real-valued quantity in this library (coordinates, colors, ray
//! parameters) is represented as an `i64` holding the real value scaled by
//! [`SCALE`] and truncated toward zero. All operations state their result
//! exactly, as an integer function of the operands.

use vstd::prelude::*;

verus! {

/// Number of fixed-point units in one real unit.
pub const SCALE: i64 = 1_000_000;

/// Absolute value of a mathematical integer.
pub open spec fn iabs(a: int) -> int {
    if a >= 0 {
        a
    } else {
        -a
    }
}

/// Integer division truncated toward zero: the rounding every fixed-point
/// operation of this library uses.
pub open spec fn tdiv(a: int, b: int) -> int
    recommends
        b != 0,
{
    if (a >= 0) == (b >= 0) {
        iabs(a) / iabs(b)
    } else {
        -(iabs(a) / iabs(b))
    }
}

/// Fixed-point product: the product of the operands, rescaled and truncated.
pub open spec fn fmul(a: int, b: int) -> int {
    tdiv(a * b, SCALE as int)
}

/// Fixed-point quotient, truncated toward zero.
pub open spec fn fdiv(a: int, b: int) -> int
    recommends
        b != 0,
{
    tdiv(a * (SCALE as int), b)
}

/// Integer square root, rounded down.
pub open spec fn sqrt_floor(n: nat) -> nat
    decreases n,
{
    if n == 0 {
        0
    } else {
        let p = sqrt_floor((n - 1) as nat);
        if (p + 1) * (p + 1) <= n {
            p + 1
        } else {
            p
        }
    }
}

/// Fixed-point square root of a nonnegative fixed-point value.
pub open spec fn fsqrt(a: int) -> int
    recommends
        a >= 0,
{
    sqrt_floor((a * (SCALE as int)) as nat) as int
}

/// `sqrt_floor(n)` is the largest integer whose square does not exceed `n`.
pub proof fn lemma_sqrt_floor_bounds(n: nat)
    ensures
        sqrt_floor(n) * sqrt_floor(n) <= n,
        n < (sqrt_floor(n) + 1) * (sqrt_floor(n) + 1),
    decreases n,
{
    if n > 0 {
        lemma_sqrt_floor_bounds((n - 1) as nat);
        let p = sqrt_floor((n - 1) as nat);
        assert(p * p <= n - 1 && n - 1 < (p + 1) * (p + 1));
        if (p + 1) * (p + 1) <= n {
            assert(sqrt_floor(n) == p + 1);
            assert((p + 1) * (p + 1) < (p + 2) * (p + 2)) by (nonlinear_arith);
            assert(n < (p + 2) * (p + 2));
        } else {
            assert(sqrt_floor(n) == p);
            assert(p * p <= n);
        }
    } else {
        assert(n == 0);
        assert(sqrt_floor(0) == 0);
        assert(0 < (0 + 1) * (0 + 1)) by (nonlinear_arith);
    }
}

/// Any integer bracketing `n` between consecutive squares is `sqrt_floor(n)`.
pub proof fn lemma_sqrt_floor_unique(n: nat, r: nat)
    requires
        r * r <= n,
        n < (r + 1) * (r + 1),
    ensures
        r == sqrt_floor(n),
{
    lemma_sqrt_floor_bounds(n);
    let s = sqrt_floor(n);
    assert(r < s + 1 && s < r + 1) by {
        if r >= s + 1 {
            assert((s + 1) * (s + 1) <= r * r) by (nonlinear_arith)
                requires
                    s + 1 <= r,
            ;
        }
        if s >= r + 1 {
            assert((r + 1) * (r + 1) <= s * s) by (nonlinear_arith)
                requires
                    r + 1 <= s,
            ;
        }
    }
}

/// Truncating division recovers an exact multiple.
pub proof fn lemma_tdiv_exact(q: int, b: int)
    requires
        b > 0,
        q >= 0,
    ensures
        tdiv(q * b, b) == q,
{
    assert(q * b >= 0) by (nonlinear_arith)
        requires
            q >= 0,
            b > 0,
    ;
    vstd::arithmetic::div_mod::lemma_div_multiples_vanish(q, b);
    assert(q * b == b * q) by (nonlinear_arith);
}

/// The integer square root is monotone.
pub proof fn lemma_sqrt_floor_mono(n1: nat, n2: nat)
    requires
        n1 <= n2,
    ensures
        sqrt_floor(n1) <= sqrt_floor(n2),
{
    lemma_sqrt_floor_bounds(n1);
    lemma_sqrt_floor_bounds(n2);
    let s1 = sqrt_floor(n1);
    let s2 = sqrt_floor(n2);
    if s1 > s2 {
        assert((s2 + 1) * (s2 + 1) <= s1 * s1) by (nonlinear_arith)
            requires
                s2 + 1 <= s1,
        ;
    }
}

/// Truncating division never grows magnitude and keeps the dividend's sign.
pub proof fn lemma_tdiv_bound(a: int, b: int)
    requires
        b > 0,
    ensures
        iabs(tdiv(a, b)) <= iabs(a) / b,
        iabs(tdiv(a, b)) * b <= iabs(a),
        iabs(tdiv(a, b)) <= iabs(a),
        a >= 0 ==> tdiv(a, b) >= 0,
        a <= 0 ==> tdiv(a, b) <= 0,
{
    assert(iabs(a) / b <= iabs(a)) by (nonlinear_arith)
        requires
            b >= 1,
            iabs(a) >= 0,
    ;
    vstd::arithmetic::div_mod::lemma_fundamental_div_mod(iabs(a), b);
    vstd::arithmetic::div_mod::lemma_div_pos_is_pos(iabs(a), b);
    assert((iabs(a) / b) * b <= iabs(a)) by (nonlinear_arith)
        requires
            b > 0,
            iabs(a) >= 0,
            iabs(a) == b * (iabs(a) / b) + iabs(a) % b,
            0 <= iabs(a) % b,
    ;
}

/// Truncating division by a positive divisor is monotone on nonnegative dividends.
pub proof fn lemma_tdiv_mono(a1: int, a2: int, b: int)
    requires
        0 <= a1 <= a2,
        b > 0,
    ensures
        0 <= tdiv(a1, b) <= tdiv(a2, b),
{
    vstd::arithmetic::div_mod::lemma_div_is_ordered(a1, a2, b);
    vstd::arithmetic::div_mod::lemma_div_pos_is_pos(a1, b);
}

/// Magnitude bound on a product from magnitude bounds on its factors.
pub proof fn lemma_abs_mul(a: int, b: int, ma: int, mb: int)
    requires
        iabs(a) <= ma,
        iabs(b) <= mb,
    ensures
        iabs(a * b) <= ma * mb,
{
    assert(iabs(a * b) <= ma * mb) by (nonlinear_arith)
        requires
            iabs(a) <= ma,
            iabs(b) <= mb,
    ;
}

/// Rescaling a value bounded by `m * SCALE` yields a value bounded by `m`.
pub proof fn lemma_scale_down_bound(w: int, m: int)
    requires
        m >= 0,
        iabs(w) <= m * (SCALE as int),
    ensures
        iabs(tdiv(w, SCALE as int)) <= m,
{
    lemma_tdiv_bound(w, SCALE as int);
    lemma_tdiv_mono(iabs(w), m * (SCALE as int), SCALE as int);
    lemma_tdiv_exact(m, SCALE as int);
}

/// Truncating division leaves a remainder smaller than the divisor.
pub proof fn lemma_trunc_rem(a: int, b: int)
    requires
        b >= 1,
    ensures
        iabs(a - tdiv(a, b) * b) <= b - 1,
{
    vstd::arithmetic::div_mod::lemma_fundamental_div_mod(iabs(a), b);
    vstd::arithmetic::div_mod::lemma_mod_bound(iabs(a), b);
    let q = iabs(a) / b;
    assert(iabs(a) - q * b == iabs(a) % b) by (nonlinear_arith)
        requires
            iabs(a) == b * q + iabs(a) % b,
    ;
    if a >= 0 {
        assert(tdiv(a, b) == q);
    } else {
        assert(tdiv(a, b) == -q);
        assert(a - (-q) * b == -(iabs(a) - q * b)) by (nonlinear_arith)
            requires
                a == -iabs(a),
    ;
    }
}

/// A dividend strictly below a multiple of the divisor divides to strictly
/// below that multiplier.
pub proof fn lemma_tdiv_lt(v: int, b: int, k: int)
    requires
        0 <= v,
        1 <= b,
        v < k * b,
    ensures
        tdiv(v, b) < k,
{
    lemma_tdiv_bound(v, b);
    let q = tdiv(v, b);
    if q >= k {
        assert(k * b <= q * b) by (nonlinear_arith)
            requires
                k <= q,
                b >= 1,
        ;
    }
}

/// Quotients of nonnegative dividends add up to at most the quotient of the sum.
pub proof fn lemma_tdiv_sum_le(p1: int, p2: int, b: int)
    requires
        p1 >= 0,
        p2 >= 0,
        b >= 1,
    ensures
        tdiv(p1, b) + tdiv(p2, b) <= tdiv(p1 + p2, b),
{
    lemma_tdiv_bound(p1, b);
    lemma_tdiv_bound(p2, b);
    let q1 = tdiv(p1, b);
    let q2 = tdiv(p2, b);
    let q = tdiv(p1 + p2, b);
    vstd::arithmetic::div_mod::lemma_fundamental_div_mod(p1 + p2, b);
    vstd::arithmetic::div_mod::lemma_mod_bound(p1 + p2, b);
    if q1 + q2 > q {
        assert(false) by (nonlinear_arith)
            requires
                q1 + q2 >= q + 1,
                q1 * b <= p1,
                q2 * b <= p2,
                0 <= q1,
                0 <= q2,
                b >= 1,
                p1 + p2 == b * q + (p1 + p2) % b,
                (p1 + p2) % b < b,
        ;
    }
}

/// Truncating division by a positive divisor is monotone on all dividends.
pub proof fn lemma_tdiv_mono_signed(a1: int, a2: int, b: int)
    requires
        a1 <= a2,
        b > 0,
    ensures
        tdiv(a1, b) <= tdiv(a2, b),
{
    lemma_tdiv_bound(a1, b);
    lemma_tdiv_bound(a2, b);
    if a1 >= 0 {
        vstd::arithmetic::div_mod::lemma_div_is_ordered(a1, a2, b);
    } else if a2 < 0 {
        vstd::arithmetic::div_mod::lemma_div_is_ordered(-a2, -a1, b);
    }
}

/// Bound on a fixed-point product from bounds on its operands.
pub proof fn lemma_fmul_bound(a: int, b: int, ma: int, mb: int)
    requires
        iabs(a) <= ma,
        iabs(b) <= mb,
    ensures
        iabs(fmul(a, b)) <= tdiv(ma * mb, SCALE as int),
        iabs(a * b) <= ma * mb,
{
    assert(iabs(a * b) <= ma * mb) by (nonlinear_arith)
        requires
            iabs(a) <= ma,
            iabs(b) <= mb,
    ;
    lemma_tdiv_bound(a * b, SCALE as int);
    lemma_tdiv_mono(iabs(a * b), ma * mb, SCALE as int);
    assert(iabs(tdiv(a * b, SCALE as int)) == tdiv(iabs(a * b), SCALE as int));
}

/// Division truncated toward zero on wide integers.
pub(crate) fn tdiv_i128(a: i128, b: i128) -> (r: i128)
    requires
        b > 0,
        a > i128::MIN,
    ensures
        r == tdiv(a as int, b as int),
{
    if a >= 0 {
        (((a as u128) / (b as u128)) as i128)
    } else {
        let m: u128 = ((-a) as u128) / (b as u128);
        proof {
            vstd::arithmetic::div_mod::lemma_div_is_ordered(m as int, -(a as int), 1);
            vstd::arithmetic::div_mod::lemma_div_is_ordered_by_denominator(-(a as int), 1, b as int);
        }
        -(m as i128)
    }
}

/// Fixed-point multiplication.
pub fn fx_mul(a: i64, b: i64) -> (r: i64)
    requires
        i64::MIN <= fmul(a as int, b as int) <= i64::MAX,
    ensures
        r == fmul(a as int, b as int),
{
    proof {
        assert(-0x40000000000000000000000000000000 <= (a as int) * (b as int)
            <= 0x40000000000000000000000000000000) by (nonlinear_arith)
            requires
                -0x8000000000000000 <= a as int <= 0x7fffffffffffffff,
                -0x8000000000000000 <= b as int <= 0x7fffffffffffffff,
        ;
    }
    let p: i128 = (a as i128) * (b as i128);
    let q: i128 = tdiv_i128(p, SCALE as i128);
    q as i64
}

/// Fixed-point division.
pub fn fx_div(a: i64, b: i64) -> (r: i64)
    requires
        b != 0,
        i64::MIN <= fdiv(a as int, b as int) <= i64::MAX,
    ensures
        r == fdiv(a as int, b as int),
{
    let n: i128 = (a as i128) * (SCALE as i128);
    let q: i128 = if b >= 0 {
        tdiv_i128(n, b as i128)
    } else {
        -tdiv_i128(n, -(b as i128))
    };
    proof {
        if b < 0 {
            assert(tdiv(n as int, -(b as int)) == -tdiv(n as int, b as int));
        }
    }
    q as i64
}

/// Integer square root of a wide unsigned value, rounded down.
pub(crate) fn isqrt_u128(n: u128) -> (r: u128)
    ensures
        r == sqrt_floor(n as nat),
        r * r <= n,
{
    let mut lo: u128 = 0;
    let mut hi: u128 = 0x1_0000_0000_0000_0000;
    proof {
        assert((hi as int) * (hi as int) > n as int) by (nonlinear_arith)
            requires
                hi == 0x1_0000_0000_0000_0000u128,
                n <= u128::MAX,
        ;
    }
    while lo + 1 < hi
        invariant
            (lo as int) * (lo as int) <= n as int,
            (n as int) < (hi as int) * (hi as int),
            lo < hi <= 0x1_0000_0000_0000_0000u128,
        decreases hi - lo,
    {
        let mid: u128 = lo + (hi - lo) / 2;
        assert(lo < mid < hi);
        if mid <= n / mid {
            proof {
                vstd::arithmetic::div_mod::lemma_fundamental_div_mod(n as int, mid as int);
                assert((mid as int) * (mid as int) <= n as int) by (nonlinear_arith)
                    requires
                        mid > 0,
                        mid as int <= (n as int) / (mid as int),
                        n as int == (mid as int) * ((n as int) / (mid as int)) + (n as int) % (
                        mid as int),
                        0 <= (n as int) % (mid as int),
                ;
            }
            lo = mid;
        } else {
            proof {
                vstd::arithmetic::div_mod::lemma_fundamental_div_mod(n as int, mid as int);
                assert((n as int) < (mid as int) * (mid as int)) by (nonlinear_arith)
                    requires
                        mid > 0,
                        mid as int > (n as int) / (mid as int),
                        n as int == (mid as int) * ((n as int) / (mid as int)) + (n as int) % (
                        mid as int),
                        (n as int) % (mid as int) < mid as int,
                ;
            }
            hi = mid;
        }
    }
    proof {
        lemma_sqrt_floor_unique(n as nat, lo as nat);
    }
    lo
}

/// Fixed-point square root.
pub fn fx_sqrt(a: i64) -> (r: i64)
    requires
        a >= 0,
    ensures
        r == fsqrt(a as int),
        r >= 0,
{
    proof {
        assert((a as int) * (SCALE as int) <= (i64::MAX as int) * (SCALE as int))
            by (nonlinear_arith)
            requires
                0 <= a <= i64::MAX,
        ;
    }
    let n: u128 = (a as u128) * (SCALE as u128);
    let r: u128 = isqrt_u128(n);
    proof {
        assert((r as int) * (r as int) <= n as int);
        assert(r <= 4_000_000_000_000u128) by (nonlinear_arith)
            requires
                (r as int) * (r as int) <= n as int,
                n as int <= (i64::MAX as int) * (SCALE as int),
        ;
    }
    r as i64
}

} // verus!
