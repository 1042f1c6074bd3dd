//! Scalar helpers for the fixed-point arithmetic the simulation runs on:
//! truncating division (the semantics of Rust's `/` on signed integers),
//! clamping, and an exact integer square root.

use vstd::prelude::*;

verus! {

/// Truncating (round-toward-zero) quotient for a positive divisor: the value
/// Rust's `/` computes on signed integers.
pub open spec fn tdiv(a: int, b: int) -> int {
    if a >= 0 {
        a / b
    } else {
        -((-a) / b)
    }
}

/// Clamp `x` into the closed interval `[-lim, lim]`.
pub open spec fn clamp_spec(x: int, lim: int) -> int {
    if x > lim {
        lim
    } else if x < -lim {
        -lim
    } else {
        x
    }
}

pub open spec fn min_i(a: int, b: int) -> int {
    if a <= b {
        a
    } else {
        b
    }
}

pub open spec fn abs_i(a: int) -> int {
    if a >= 0 {
        a
    } else {
        -a
    }
}

/// Floor of the real square root of `n`.
pub open spec fn sqrt_floor(n: nat) -> nat {
    choose|r: nat| #[trigger] (r * r) <= n < (r + 1) * (r + 1)
}

pub proof fn lemma_sqrt_floor_exists(n: nat)
    ensures
        exists|r: nat| #[trigger] (r * r) <= n < (r + 1) * (r + 1),
    decreases n,
{
    if n == 0 {
        let z: nat = 0;
        assert(z * z <= n < (z + 1) * (z + 1)) by (nonlinear_arith)
            requires
                n == 0,
                z == 0,
        ;
    } else {
        lemma_sqrt_floor_exists((n - 1) as nat);
        let r = choose|r: nat| #[trigger] (r * r) <= n - 1 < (r + 1) * (r + 1);
        if (r + 1) * (r + 1) <= n {
            assert((r + 1) * (r + 1) == n) by {
                assert(n - 1 < (r + 1) * (r + 1));
            }
            assert((r + 1) * (r + 1) < (r + 2) * (r + 2)) by (nonlinear_arith);
            assert((r + 1) * (r + 1) <= n < (r + 2) * (r + 2));
        } else {
            assert(r * r <= n < (r + 1) * (r + 1));
        }
    }
}

/// `sqrt_floor` is pinned down by the squeeze `r * r <= n < (r + 1) * (r + 1)`.
pub proof fn lemma_sqrt_floor_is(n: nat, r: nat)
    requires
        r * r <= n,
        n < (r + 1) * (r + 1),
    ensures
        sqrt_floor(n) == r,
{
    lemma_sqrt_floor_exists(n);
    let s = sqrt_floor(n);
    assert(s * s <= n < (s + 1) * (s + 1));
    assert(!(r < s)) by (nonlinear_arith)
        requires
            s * s <= n,
            n < (r + 1) * (r + 1),
    ;
    assert(!(s < r)) by (nonlinear_arith)
        requires
            r * r <= n,
            n < (s + 1) * (s + 1),
    ;
}

/// The defining squeeze of `sqrt_floor`.
pub proof fn lemma_sqrt_floor_bounds(n: nat)
    ensures
        sqrt_floor(n) * sqrt_floor(n) <= n,
        n < (sqrt_floor(n) + 1) * (sqrt_floor(n) + 1),
{
    lemma_sqrt_floor_exists(n);
}

/// Exact floor square root by binary search.
pub fn isqrt_u128(n: u128) -> (r: u128)
    ensures
        r * r <= n,
        n < (r + 1) * (r + 1),
        r == sqrt_floor(n as nat),
        r < 0x1_0000_0000_0000_0000u128,
{
    let mut lo: u128 = 0;
    let mut hi: u128 = 0x1_0000_0000_0000_0000;
    proof {
        assert(n < 0x1_0000_0000_0000_0000 * 0x1_0000_0000_0000_0000);
    }
    while lo + 1 < hi
        invariant
            lo < hi <= 0x1_0000_0000_0000_0000u128,
            lo * lo <= n,
            n < hi * hi,
        decreases hi - lo,
    {
        let mid: u128 = lo + (hi - lo) / 2;
        assert(mid < hi);
        assert(mid * mid < 0x1_0000_0000_0000_0000 * 0x1_0000_0000_0000_0000) by (nonlinear_arith)
            requires
                mid < 0x1_0000_0000_0000_0000,
        ;
        if mid * mid <= n {
            lo = mid;
        } else {
            hi = mid;
        }
    }
    proof {
        assert(n < (lo + 1) * (lo + 1));
        lemma_sqrt_floor_is(n as nat, lo as nat);
    }
    lo
}

/// Truncating division on `i128`, with its value related to `tdiv`.
pub fn tdiv_i128(a: i128, b: i128) -> (q: i128)
    requires
        b > 0,
        a > i128::MIN,
    ensures
        q == tdiv(a as int, b as int),
        abs_i(q as int) <= abs_i(a as int),
{
    let q: i128 = a / b;
    proof {
        assert(a >= 0 ==> q == a as int / b as int);
        assert(a < 0 ==> q == -((-(a as int)) / (b as int)));
        assert(abs_i(q as int) <= abs_i(a as int)) by (nonlinear_arith)
            requires
                b > 0,
                q == tdiv(a as int, b as int),
        ;
    }
    q
}

pub fn clamp_i128(x: i128, lim: i128) -> (r: i128)
    requires
        lim >= 0,
    ensures
        r == clamp_spec(x as int, lim as int),
{
    if x > lim {
        lim
    } else if x < -lim {
        -lim
    } else {
        x
    }
}

/// Product of two `i128` values whose magnitudes stay within `2^63`.
pub fn mul_i128(a: i128, b: i128) -> (r: i128)
    requires
        -0x8000_0000_0000_0000i128 <= a <= 0x8000_0000_0000_0000i128,
        -0x8000_0000_0000_0000i128 <= b <= 0x8000_0000_0000_0000i128,
    ensures
        r == a * b,
{
    proof {
        assert(abs_i((a as int) * (b as int)) <= 0x8000_0000_0000_0000i128 * 0x8000_0000_0000_0000i128)
            by (nonlinear_arith)
            requires
                -0x8000_0000_0000_0000i128 <= a <= 0x8000_0000_0000_0000i128,
                -0x8000_0000_0000_0000i128 <= b <= 0x8000_0000_0000_0000i128,
        ;
    }
    a * b
}

/// Magnitude bounds multiply through a product, and signs behave.
pub proof fn lemma_mul_bounds(a: int, b: int, ma: int, mb: int)
    requires
        abs_i(a) <= ma,
        abs_i(b) <= mb,
    ensures
        abs_i(a * b) <= ma * mb,
        a >= 0 && b >= 0 ==> a * b >= 0,
{
    assert(abs_i(a * b) <= ma * mb && (a >= 0 && b >= 0 ==> a * b >= 0)) by (nonlinear_arith)
        requires
            abs_i(a) <= ma,
            abs_i(b) <= mb,
    ;
}

/// Product where one factor may be large (up to `2^101`) and the other small
/// Product where one factor may be large (up to `2^101`) and the other small
/// (up to `2^21`).
pub fn mul_wide_i128(a: i128, b: i128) -> (r: i128)
    requires
        abs_i(a as int) <= 2535301200456458802993406410752i128,
        abs_i(b as int) <= 2097152i128,
    ensures
        r == a * b,
{
    proof {
        assert(abs_i((a as int) * (b as int)) <= 2535301200456458802993406410752i128
            * 2097152i128) by (nonlinear_arith)
            requires
                abs_i(a as int) <= 2535301200456458802993406410752i128,
                abs_i(b as int) <= 2097152i128,
        ;
    }
    a * b
}

/// Product where one factor may reach `2^78` and the other `2^48`.
pub fn mul_mid_i128(a: i128, b: i128) -> (r: i128)
    requires
        abs_i(a as int) <= 302231454903657293676544i128,
        abs_i(b as int) <= 281474976710656i128,
    ensures
        r == a * b,
{
    proof {
        assert(abs_i((a as int) * (b as int)) <= 302231454903657293676544i128
            * 281474976710656i128) by (nonlinear_arith)
            requires
                abs_i(a as int) <= 302231454903657293676544i128,
                abs_i(b as int) <= 281474976710656i128,
        ;
    }
    a * b
}

/// Negating the dividend negates the truncating quotient.
pub proof fn lemma_tdiv_neg(a: int, b: int)
    requires
        b >= 1,
    ensures
        tdiv(-a, b) == -tdiv(a, b),
{
    assert(0int / b == 0) by (nonlinear_arith)
        requires
            b >= 1,
    ;
}

/// Squares are nonnegative.
pub proof fn lemma_square_nonneg(a: int)
    ensures
        a * a >= 0,
{
    assert(a * a >= 0) by (nonlinear_arith);
}

/// Euclidean division of a nonnegative value by a positive one stays within
/// `[0, dividend]`.
pub proof fn lemma_div_nonneg(a: int, b: int)
    requires
        a >= 0,
        b >= 1,
    ensures
        0 <= a / b <= a,
{
    assert(0 <= a / b <= a) by (nonlinear_arith)
        requires
            a >= 0,
            b >= 1,
    ;
}

/// Division by a positive value is monotone on nonnegative dividends.
pub proof fn lemma_div_mono(a: int, b: int, d: int)
    requires
        0 <= a <= b,
        d >= 1,
    ensures
        a / d <= b / d,
{
    assert(a / d <= b / d) by (nonlinear_arith)
        requires
            0 <= a <= b,
            d >= 1,
    ;
}

/// Multiplying and then dividing by the same positive value is the identity.
pub proof fn lemma_mul_div_exact(a: int, d: int)
    requires
        d >= 1,
    ensures
        (a * d) / d == a,
{
    assert((a * d) / d == a) by (nonlinear_arith)
        requires
            d >= 1,
    ;
}

/// The quotient shrinks no slower than the dividend: `|tdiv(a, b)| <= |a| / b`.
pub proof fn lemma_tdiv_shrinks(a: int, b: int, m: int)
    requires
        b >= 1,
        abs_i(a) <= m * b,
        m >= 0,
    ensures
        abs_i(tdiv(a, b)) <= m,
{
    assert(abs_i(tdiv(a, b)) <= m) by (nonlinear_arith)
        requires
            b >= 1,
            abs_i(a) <= m * b,
            m >= 0,
    ;
}

} // verus!
