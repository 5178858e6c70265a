//! Fixed-point arithmetic with sixteen fractional bits.
//!
//! Coordinates, radii, ratios and coverages are integers counted in units of
//! 1/65536: a coordinate of `ONE` is one pixel, a coverage of `ONE` is fully
//! opaque. The specification functions work on `int`; the executable helpers
//! compute the same values in `i64` and are proved to agree with them.

use vstd::prelude::*;

verus! {

/// The fixed-point representation of 1.
pub const ONE: i32 = 0x1_0000;

/// The fixed-point representation of 1/2.
pub const HALF: i32 = 0x8000;

/// Absolute value.
pub open spec fn abs(v: int) -> int {
    if v < 0 {
        -v
    } else {
        v
    }
}

/// The whole part of `v`, rounded toward negative infinity.
pub open spec fn floor_px(v: int) -> int {
    v / (ONE as int)
}

/// The fractional part of `v`, in `0..ONE`, so that
/// `v == floor_px(v) * ONE + fract(v)`.
pub open spec fn fract(v: int) -> int {
    v % (ONE as int)
}

/// `v` rounded to the nearest whole number, halves away from zero.
pub open spec fn round_px(v: int) -> int {
    if v >= 0 {
        (v + HALF) / (ONE as int)
    } else {
        -((HALF - v) / (ONE as int))
    }
}

/// The fixed-point product of `a` and `b`, rounded toward negative infinity.
pub open spec fn mul_fx(a: int, b: int) -> int {
    (a * b) / (ONE as int)
}

/// The point at ratio `t` on the way from `a` to `b`, rounded to the nearest
/// representable value: `a + t * (b - a)` for a ratio `t` in `0..=ONE`.
pub open spec fn lerp(a: int, b: int, t: int) -> int {
    a + (t * (b - a) + HALF) / (ONE as int)
}

/// Whether `r` is the whole part of the square root of `n`.
pub open spec fn is_floor_sqrt(n: nat, r: nat) -> bool {
    r * r <= n < (r + 1) * (r + 1)
}

/// The largest `r` with `r * r <= n`.
pub closed spec fn floor_sqrt(n: nat) -> nat {
    choose|r: nat| is_floor_sqrt(n, r)
}

/// Squaring is monotone on the naturals.
pub proof fn lemma_square_monotone(a: nat, b: nat)
    requires
        a <= b,
    ensures
        a * a <= b * b,
{
    assert(a * a <= b * b) by (nonlinear_arith)
        requires
            a <= b,
    ;
}

/// `floor_sqrt(n)` is the one natural number whose square is at most `n`
/// while the square of its successor exceeds `n`.
pub proof fn lemma_floor_sqrt(n: nat)
    ensures
        is_floor_sqrt(n, floor_sqrt(n)),
    decreases n,
{
    if n == 0 {
        assert(0nat * 0nat == 0 && (0nat + 1) * (0nat + 1) == 1) by (nonlinear_arith);
        assert(is_floor_sqrt(n, 0));
    } else {
        lemma_floor_sqrt((n - 1) as nat);
        let p: nat = floor_sqrt((n - 1) as nat);
        if (p + 1) * (p + 1) <= n {
            assert((p + 2) * (p + 2) > n) by (nonlinear_arith)
                requires
                    n - 1 < (p + 1) * (p + 1),
            ;
            assert(is_floor_sqrt(n, p + 1));
        } else {
            assert(is_floor_sqrt(n, p));
        }
    }
}

/// Any `r` that brackets `n` between its square and its successor's square is
/// `floor_sqrt(n)`.
pub proof fn lemma_floor_sqrt_unique(n: nat, r: nat)
    requires
        is_floor_sqrt(n, r),
    ensures
        floor_sqrt(n) == r,
{
    lemma_floor_sqrt(n);
    let s: nat = floor_sqrt(n);
    if s < r {
        lemma_square_monotone(s + 1, r);
    } else if r < s {
        lemma_square_monotone(r + 1, s);
    }
}

/// A ratio in `0..=ONE` keeps the interpolated value between its two ends.
pub proof fn lemma_lerp_between(a: int, b: int, t: int)
    requires
        0 <= t <= ONE,
    ensures
        a <= b ==> a <= lerp(a, b, t) <= b,
        b <= a ==> b <= lerp(a, b, t) <= a,
        lerp(a, b, 0) == a,
        lerp(a, b, ONE as int) == b,
{
    let d: int = b - a;
    if d >= 0 {
        assert(0 <= t * d <= 65536 * d) by (nonlinear_arith)
            requires
                0 <= t <= 65536,
                d >= 0,
        ;
    } else {
        assert(65536 * d <= t * d <= 0) by (nonlinear_arith)
            requires
                0 <= t <= 65536,
                d < 0,
        ;
    }
    assert(0 * d == 0);
}

/// Whole part of a fixed-point value.
pub fn floor_of(v: i64) -> (r: i64)
    ensures
        r == floor_px(v as int),
{
    if v >= 0 {
        v / 65536
    } else {
        let m: i64 = -(v + 1);
        -(m / 65536) - 1
    }
}

/// Quotient of `n` by a positive `d`, rounded toward negative infinity.
pub fn div_floor(n: i64, d: i64) -> (r: i64)
    requires
        d > 0,
        n > i64::MIN,
    ensures
        r == n / d,
{
    if n >= 0 {
        n / d
    } else {
        let m: i64 = -(n + 1);
        let q: i64 = m / d;
        proof {
            let rem: int = (m as int) % (d as int);
            vstd::arithmetic::div_mod::lemma_fundamental_div_mod(m as int, d as int);
            vstd::arithmetic::div_mod::lemma_mod_bound(m as int, d as int);
            vstd::arithmetic::div_mod::lemma_div_pos_is_pos(m as int, d as int);
            assert((n as int) == (-(q as int) - 1) * (d as int) + ((d as int) - 1 - rem))
                by (nonlinear_arith)
                requires
                    m == d * q + rem,
                    n == -m - 1,
            ;
            vstd::arithmetic::div_mod::lemma_fundamental_div_mod_converse(
                n as int,
                d as int,
                -(q as int) - 1,
                (d as int) - 1 - rem,
            );
            assert(q <= m) by (nonlinear_arith)
                requires
                    m == d * q + rem,
                    d >= 1,
                    q >= 0,
                    rem >= 0,
            ;
        }
        -q - 1
    }
}

/// Absolute value of a number above `i64::MIN`.
pub fn abs_of(v: i64) -> (r: i64)
    requires
        v > i64::MIN,
    ensures
        r == abs(v as int),
{
    if v < 0 {
        -v
    } else {
        v
    }
}

/// Fractional part of a fixed-point value.
pub fn fract_of(v: i64) -> (r: i64)
    ensures
        r == fract(v as int),
        0 <= r < ONE,
{
    let f: i64 = floor_of(v);
    v - f * 65536
}

/// Nearest whole number to a fixed-point value, halves away from zero.
pub fn round_of(v: i32) -> (r: i64)
    ensures
        r == round_px(v as int),
        -32768 <= r <= 32768,
        -HALF <= v - r * ONE <= HALF,
{
    let w: i64 = v as i64;
    if w >= 0 {
        (w + 32768) / 65536
    } else {
        -((32768 - w) / 65536)
    }
}

/// Interpolates between two coordinates with a ratio in `0..=ONE`.
pub fn lerp_of(a: i32, b: i32, t: u32) -> (r: i32)
    requires
        t <= ONE,
    ensures
        r == lerp(a as int, b as int, t as int),
{
    let d: i64 = b as i64 - a as i64;
    proof {
        lemma_lerp_between(a as int, b as int, t as int);
        if d >= 0 {
            assert(0 <= (t as int) * (d as int) <= 65536 * d) by (nonlinear_arith)
                requires
                    0 <= t <= 65536,
                    d >= 0,
            ;
        } else {
            assert(65536 * d <= (t as int) * (d as int) <= 0) by (nonlinear_arith)
                requires
                    0 <= t <= 65536,
                    d < 0,
            ;
        }
    }
    let scaled: i64 = (t as i64) * d + 32768;
    let step: i64 = floor_of(scaled);
    (a as i64 + step) as i32
}

/// Integer square root: the largest `r` with `r * r <= n`.
pub fn isqrt(n: u128) -> (r: u128)
    ensures
        r == floor_sqrt(n as nat),
        r * r <= n < (r + 1) * (r + 1),
        r < 0x1_0000_0000_0000_0000,
{
    let mut lo: u128 = 0;
    let mut hi: u128 = 0x1_0000_0000_0000_0000;
    assert(0x1_0000_0000_0000_0000int * 0x1_0000_0000_0000_0000int > u128::MAX) by (nonlinear_arith);
    while hi - lo > 1
        invariant
            lo < hi <= 0x1_0000_0000_0000_0000,
            lo * lo <= n < hi * hi,
        decreases hi - lo,
    {
        let mid: u128 = lo + (hi - lo) / 2;
        assert(mid * mid <= u128::MAX) by (nonlinear_arith)
            requires
                mid <= 0xFFFF_FFFF_FFFF_FFFF,
        ;
        if mid * mid <= n {
            lo = mid;
        } else {
            hi = mid;
        }
    }
    proof {
        lemma_floor_sqrt_unique(n as nat, lo as nat);
    }
    lo
}

} // verus!
