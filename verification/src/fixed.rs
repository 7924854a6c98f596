//! Fixed-point scalars: the numeric ground the whole library stands on.
//!
//! A quantity is an `i64` holding `value * SCALE`, so one unit is
//! `1 / SCALE`.  Every arithmetic step saturates at the `i64` range, and
//! every executable operation is pinned to a spec-level mirror, so the
//! training recurrence is a mathematical function of its inputs.
use vstd::prelude::*;

verus! {

/// Scale factor of the fixed-point representation: one unit is `1 / SCALE`.
pub const SCALE: i64 = 1_000_000;

/// Clips an unbounded integer to the `i64` range.
pub open spec fn clip(x: int) -> int {
    if x > i64::MAX {
        i64::MAX as int
    } else if x < i64::MIN {
        i64::MIN as int
    } else {
        x
    }
}

/// Division truncated toward zero (for a positive divisor), as the
/// machine division of signed integers behaves.
pub open spec fn tdiv(a: int, b: int) -> int
    recommends
        b > 0,
{
    if a >= 0 {
        a / b
    } else {
        -((-a) / b)
    }
}

/// What `sat_add` returns: the exact sum, clipped to the `i64` range.
pub open spec fn spec_sat_add(a: int, b: int) -> int {
    clip(a + b)
}

/// What `sat_sub` returns: the exact difference, clipped to the `i64` range.
pub open spec fn spec_sat_sub(a: int, b: int) -> int {
    clip(a - b)
}

/// What `fx_mul` returns: the product of two fixed-point quantities,
/// rescaled by truncation and clipped to the `i64` range.
pub open spec fn spec_fx_mul(a: int, b: int) -> int {
    clip(tdiv(a * b, SCALE as int))
}

/// Saturating addition of two fixed-point quantities.
pub fn sat_add(a: i64, b: i64) -> (r: i64)
    ensures
        r == spec_sat_add(a as int, b as int),
{
    if b >= 0 && a > i64::MAX - b {
        i64::MAX
    } else if b < 0 && a < i64::MIN - b {
        i64::MIN
    } else {
        a + b
    }
}

/// Saturating subtraction of two fixed-point quantities.
pub fn sat_sub(a: i64, b: i64) -> (r: i64)
    ensures
        r == spec_sat_sub(a as int, b as int),
{
    if b <= 0 && a > i64::MAX + b {
        i64::MAX
    } else if b > 0 && a < i64::MIN + b {
        i64::MIN
    } else {
        a - b
    }
}

/// Clips a wide intermediate result back to an `i64`.
fn clip_i128(q: i128) -> (r: i64)
    ensures
        r == clip(q as int),
{
    if q > i64::MAX as i128 {
        i64::MAX
    } else if q < i64::MIN as i128 {
        i64::MIN
    } else {
        q as i64
    }
}

/// Fixed-point multiplication: `(a * b) / SCALE`, truncated toward zero
/// and saturated at the `i64` range.
pub fn fx_mul(a: i64, b: i64) -> (r: i64)
    ensures
        r == spec_fx_mul(a as int, b as int),
{
    proof {
        lemma_i64_product_bounds(a as int, b as int);
    }
    let p: i128 = (a as i128) * (b as i128);
    let q: i128 = p / (SCALE as i128);
    proof {
        lemma_tdiv_in_range(p as int, SCALE as int);
    }
    clip_i128(q)
}

/// Division of a fixed-point quantity by a positive sample count,
/// truncated toward zero.
pub fn div_n(a: i64, n: usize) -> (r: i64)
    requires
        0 < n <= i64::MAX,
    ensures
        r == tdiv(a as int, n as int),
{
    proof {
        lemma_tdiv_in_range(a as int, n as int);
    }
    a / (n as i64)
}

/// The product of two `i64` values stays well inside the `i128` range.
proof fn lemma_i64_product_bounds(a: int, b: int)
    requires
        i64::MIN <= a <= i64::MAX,
        i64::MIN <= b <= i64::MAX,
    ensures
        -0x4000_0000_0000_0000_0000_0000_0000_0000 <= a * b
            <= 0x4000_0000_0000_0000_0000_0000_0000_0000,
{
    assert(-0x4000_0000_0000_0000_0000_0000_0000_0000 <= a * b
        <= 0x4000_0000_0000_0000_0000_0000_0000_0000) by (nonlinear_arith)
        requires
            -0x8000_0000_0000_0000 <= a <= 0x7fff_ffff_ffff_ffff,
            -0x8000_0000_0000_0000 <= b <= 0x7fff_ffff_ffff_ffff,
    ;
}

/// Truncating division by a positive divisor never grows the magnitude.
proof fn lemma_tdiv_in_range(a: int, b: int)
    requires
        b > 0,
    ensures
        a >= 0 ==> 0 <= tdiv(a, b) <= a,
        a < 0 ==> a <= tdiv(a, b) <= 0,
{
    if a >= 0 {
        assert(0 <= a / b <= a) by (nonlinear_arith)
            requires
                a >= 0,
                b > 0,
        ;
    } else {
        assert(0 <= (-a) / b <= -a) by (nonlinear_arith)
            requires
                -a >= 0,
                b > 0,
        ;
    }
}

} // verus!
