//! Fixed-point reals. A real quantity (a latency in milliseconds, a
//! coordinate, a learning rate) is held as a signed 64-bit count of
//! billionths. Every operation is total: a result that does not fit is
//! clamped to the nearest representable value, and a quotient by a
//! non-positive divisor is zero.

use vstd::prelude::*;

verus! {

/// The integer that stands for the real number one.
pub const SCALE: i64 = 1_000_000_000;

/// The representable value nearest to `x`.
pub open spec fn clamp(x: int) -> int {
    if x < i64::MIN {
        i64::MIN as int
    } else if x > i64::MAX {
        i64::MAX as int
    } else {
        x
    }
}

/// `x / d` rounded toward zero; zero where `d` is not positive.
pub open spec fn quot(x: int, d: int) -> int {
    if d <= 0 {
        0
    } else if x >= 0 {
        x / d
    } else {
        -((-x) / d)
    }
}

/// Sum of two reals.
pub open spec fn spec_plus(a: i64, b: i64) -> i64 {
    clamp(a + b) as i64
}

/// Difference of two reals.
pub open spec fn spec_minus(a: i64, b: i64) -> i64 {
    clamp(a - b) as i64
}

/// Product of two reals.
pub open spec fn spec_times(a: i64, b: i64) -> i64 {
    clamp(quot(a * b, SCALE as int)) as i64
}

/// Quotient of two reals; zero where the divisor is not positive.
pub open spec fn spec_ratio(a: i64, b: i64) -> i64 {
    clamp(quot(a * SCALE, b as int)) as i64
}

/// Absolute value of a real.
pub open spec fn spec_magnitude(a: i64) -> i64 {
    clamp(if a < 0 { -a } else { a as int }) as i64
}

/// A real divided by a count; zero for the count zero.
pub open spec fn spec_share(a: i64, count: u64) -> i64 {
    quot(a as int, count as int) as i64
}

/// Largest `r` with `r * r <= x`.
pub open spec fn is_root(x: int, r: int) -> bool {
    0 <= r && r * r <= x < (r + 1) * (r + 1)
}

/// The remainder that `quot` leaves is smaller than the divisor.
pub proof fn lemma_quot_remainder(x: int, d: int)
    requires
        d > 0,
    ensures
        -d < x - d * quot(x, d) < d,
        x >= 0 ==> 0 <= quot(x, d) <= x,
        x <= 0 ==> x <= quot(x, d) <= 0,
{
    if x >= 0 {
        assert(0 <= x - d * (x / d) < d && 0 <= x / d <= x) by (nonlinear_arith)
            requires
                d > 0,
                x >= 0,
        ;
    } else {
        let y = -x;
        assert(0 <= y - d * (y / d) < d && 0 <= y / d <= y) by (nonlinear_arith)
            requires
                d > 0,
                y >= 0,
        ;
        assert(d * (-(y / d)) == -(d * (y / d))) by (nonlinear_arith);
    }
}

/// Clamps a wide intermediate result to the representable range.
pub fn saturate(x: i128) -> (r: i64)
    ensures
        r == clamp(x as int),
{
    if x < -0x8000_0000_0000_0000i128 {
        i64::MIN
    } else if x > 0x7fff_ffff_ffff_ffffi128 {
        i64::MAX
    } else {
        x as i64
    }
}

/// `x / d` rounded toward zero, zero for a divisor that is not positive.
pub fn quotient(x: i128, d: i128) -> (r: i128)
    requires
        x > i128::MIN,
    ensures
        r == quot(x as int, d as int),
{
    if d <= 0 {
        0
    } else if x >= 0 {
        x / d
    } else {
        let y: i128 = -x;
        let q: i128 = y / d;
        proof {
            lemma_quot_remainder(y as int, d as int);
        }
        -q
    }
}

/// Saturating sum.
pub fn plus(a: i64, b: i64) -> (r: i64)
    ensures
        r == spec_plus(a, b),
{
    saturate(a as i128 + b as i128)
}

/// Saturating difference.
pub fn minus(a: i64, b: i64) -> (r: i64)
    ensures
        r == spec_minus(a, b),
{
    saturate(a as i128 - b as i128)
}

/// Saturating absolute value.
pub fn magnitude(a: i64) -> (r: i64)
    ensures
        r == spec_magnitude(a),
        r >= 0,
{
    let wide: i128 = a as i128;
    if wide < 0 {
        saturate(-wide)
    } else {
        a
    }
}

/// The product of two 64-bit values fits in 128 bits.
pub proof fn lemma_product_bound(a: int, b: int)
    requires
        i64::MIN <= a <= i64::MAX,
        i64::MIN <= b <= i64::MAX,
    ensures
        -0x4000_0000_0000_0000_0000_0000_0000_0000 <= a * b
            <= 0x4000_0000_0000_0000_0000_0000_0000_0000,
{
    assert(-0x4000_0000_0000_0000_0000_0000_0000_0000 <= a * b
        <= 0x4000_0000_0000_0000_0000_0000_0000_0000) by (nonlinear_arith)
        requires
            -0x8000_0000_0000_0000 <= a <= 0x7fff_ffff_ffff_ffff,
            -0x8000_0000_0000_0000 <= b <= 0x7fff_ffff_ffff_ffff,
    ;
}

/// Saturating product of two reals.
pub fn times(a: i64, b: i64) -> (r: i64)
    ensures
        r == spec_times(a, b),
{
    proof {
        lemma_product_bound(a as int, b as int);
    }
    let wide: i128 = (a as i128) * (b as i128);
    saturate(quotient(wide, SCALE as i128))
}

/// Saturating quotient of two reals, zero for a divisor that is not positive.
pub fn ratio(a: i64, b: i64) -> (r: i64)
    ensures
        r == spec_ratio(a, b),
{
    proof {
        lemma_product_bound(a as int, SCALE as int);
    }
    let wide: i128 = (a as i128) * (SCALE as i128);
    saturate(quotient(wide, b as i128))
}

/// A real divided by a count, rounded toward zero; zero for the count zero.
pub fn share(a: i64, count: u64) -> (r: i64)
    ensures
        r == spec_share(a, count),
        r == quot(a as int, count as int),
{
    let q: i128 = quotient(a as i128, count as i128);
    proof {
        if count > 0 {
            lemma_quot_remainder(a as int, count as int);
        }
    }
    q as i64
}

/// Squaring is monotone on the naturals.
proof fn lemma_square_monotone(a: int, b: int)
    requires
        0 <= a <= b,
    ensures
        a * a <= b * b,
{
    assert(a * a <= b * b) by (nonlinear_arith)
        requires
            0 <= a <= b,
    ;
}

/// Integer square root: the largest `r` whose square does not exceed `x`.
pub fn isqrt(x: u128) -> (r: u64)
    ensures
        is_root(x as int, r as int),
{
    let mut low: u128 = 0;
    let mut high: u128 = 0x1_0000_0000_0000_0000;
    proof {
        assert(0x1_0000_0000_0000_0000int * 0x1_0000_0000_0000_0000int
            == 0x1_0000_0000_0000_0000_0000_0000_0000_0000int) by (nonlinear_arith);
    }
    while high - low > 1
        invariant
            low < high <= 0x1_0000_0000_0000_0000,
            low * low <= x,
            x < high * high,
        decreases high - low,
    {
        let mid: u128 = low + (high - low) / 2;
        proof {
            lemma_square_monotone(mid as int, 0xffff_ffff_ffff_ffff);
            assert(0xffff_ffff_ffff_ffffint * 0xffff_ffff_ffff_ffffint
                < 0x1_0000_0000_0000_0000_0000_0000_0000_0000int) by (nonlinear_arith);
        }
        let square: u128 = mid * mid;
        if square <= x {
            low = mid;
        } else {
            high = mid;
        }
    }
    low as u64
}

/// The root of a number is unique.
pub proof fn lemma_root_unique(x: int, r: int, s: int)
    requires
        is_root(x, r),
        is_root(x, s),
    ensures
        r == s,
{
    if r < s {
        lemma_square_monotone(r + 1, s);
    } else if s < r {
        lemma_square_monotone(s + 1, r);
    }
}

} // verus!
