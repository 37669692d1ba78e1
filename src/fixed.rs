//! Saturating fixed-point scalars with 16 fractional bits.

use vstd::arithmetic::div_mod::{lemma_div_is_ordered, lemma_div_pos_is_pos};
use vstd::prelude::*;

verus! {

/// The raw value that stands for 1.0.
pub const ONE: i64 = 65536;

/// The largest raw value; it stands for +infinity.
pub const INFINITY: i64 = 0x7fff_ffff_ffff_ffff;

/// The negation of `INFINITY`; it stands for -infinity. Arithmetic never
/// produces `i64::MIN`, so that negation is exact on every result.
pub const NEG_INFINITY: i64 = -0x7fff_ffff_ffff_ffff;

/// Saturates an exact result into `[-i64::MAX, i64::MAX]`.
pub open spec fn clip(x: int) -> int {
    if x < -i64::MAX {
        -i64::MAX as int
    } else if x > i64::MAX {
        i64::MAX as int
    } else {
        x
    }
}

pub open spec fn abs(x: int) -> int {
    if x < 0 {
        -x
    } else {
        x
    }
}

/// Division rounding toward zero, as Rust's integer division does.
pub open spec fn tdiv(n: int, d: int) -> int {
    if (n < 0) == (d < 0) {
        abs(n) / abs(d)
    } else {
        -(abs(n) / abs(d))
    }
}

pub open spec fn fadd(a: int, b: int) -> int {
    clip(a + b)
}

pub open spec fn fsub(a: int, b: int) -> int {
    clip(a - b)
}

pub open spec fn fneg(a: int) -> int {
    clip(-a)
}

/// Fixed-point product: the exact product, rescaled and rounded toward zero.
pub open spec fn fmul(a: int, b: int) -> int {
    clip(tdiv(a * b, ONE as int))
}

/// Fixed-point quotient, rounded toward zero. Division by zero gives the
/// infinity of the dividend's sign, or zero for a zero dividend.
pub open spec fn fdiv(a: int, b: int) -> int {
    if b == 0 {
        if a > 0 {
            i64::MAX as int
        } else if a < 0 {
            -i64::MAX as int
        } else {
            0
        }
    } else {
        clip(tdiv(a * ONE, b))
    }
}

/// `r` is the integer square root of `n`.
pub open spec fn is_isqrt(n: int, r: int) -> bool {
    0 <= r && r * r <= n && n < (r + 1) * (r + 1)
}

pub open spec fn isqrt(n: int) -> int {
    choose|r: int| is_isqrt(n, r)
}

/// Fixed-point square root, rounded down; zero for values that are not positive.
pub open spec fn fsqrt(a: int) -> int {
    if a <= 0 {
        0
    } else {
        isqrt(a * ONE)
    }
}

/// Fixed-point value of an integer.
pub open spec fn fint(n: int) -> int {
    clip(n * ONE)
}

/// Rounding toward zero keeps the order of dividends.
pub proof fn lemma_tdiv_monotone(n1: int, n2: int, d: int)
    requires
        n1 <= n2,
        0 < d,
    ensures
        tdiv(n1, d) <= tdiv(n2, d),
{
    if n1 >= 0 {
        lemma_div_is_ordered(n1, n2, d);
    } else if n2 < 0 {
        lemma_div_is_ordered(-n2, -n1, d);
    } else {
        lemma_div_pos_is_pos(-n1, d);
        lemma_div_pos_is_pos(n2, d);
    }
}

/// Fixed-point division by a non-negative scalar keeps the order of dividends.
pub proof fn lemma_fdiv_monotone(a1: int, a2: int, b: int)
    requires
        a1 <= a2,
        0 <= b,
    ensures
        fdiv(a1, b) <= fdiv(a2, b),
{
    if b > 0 {
        assert(a1 * ONE <= a2 * ONE) by (nonlinear_arith)
            requires
                a1 <= a2,
        ;
        lemma_tdiv_monotone(a1 * ONE, a2 * ONE, b);
    }
}

/// Every fixed-point result is a valid `i64`.
pub proof fn lemma_fdiv_range(a: int, b: int)
    ensures
        i64::MIN <= fdiv(a, b) <= i64::MAX,
{
}

/// A square is never negative.
pub proof fn lemma_fmul_self_nonneg(a: int)
    ensures
        fmul(a, a) >= 0,
{
    assert(a * a >= 0) by (nonlinear_arith);
}

pub proof fn lemma_square_monotone(x: int, y: int)
    requires
        0 <= x <= y,
    ensures
        x * x <= y * y,
{
    assert(x * x <= y * y) by (nonlinear_arith)
        requires
            0 <= x <= y,
    ;
}

/// Every natural number has an integer square root.
pub proof fn lemma_isqrt_exists(n: int)
    requires
        0 <= n,
    ensures
        is_isqrt(n, isqrt(n)),
    decreases n,
{
    if n == 0 {
        assert(is_isqrt(0, 0));
    } else {
        lemma_isqrt_exists(n - 1);
        let r = isqrt(n - 1);
        if n < (r + 1) * (r + 1) {
            assert(is_isqrt(n, r));
        } else {
            assert((r + 1) * (r + 1) < (r + 2) * (r + 2)) by (nonlinear_arith)
                requires
                    0 <= r,
            ;
            assert(is_isqrt(n, r + 1));
        }
    }
}

/// A fixed-point square root is never negative.
pub proof fn lemma_fsqrt_nonneg(a: int)
    ensures
        fsqrt(a) >= 0,
{
    if a > 0 {
        assert(a * ONE > 0) by (nonlinear_arith)
            requires
                a > 0,
        ;
        lemma_isqrt_exists(a * ONE);
    }
}

/// The integer square root is unique.
pub proof fn lemma_isqrt_unique(n: int, r: int)
    requires
        is_isqrt(n, r),
    ensures
        isqrt(n) == r,
{
    let s = isqrt(n);
    assert(is_isqrt(n, s));
    if s < r {
        lemma_square_monotone(s + 1, r);
    } else if r < s {
        lemma_square_monotone(r + 1, s);
    }
}

pub fn clip_i128(x: i128) -> (r: i64)
    ensures
        r == clip(x as int),
{
    if x < -(i64::MAX as i128) {
        NEG_INFINITY
    } else if x > i64::MAX as i128 {
        i64::MAX
    } else {
        x as i64
    }
}

pub fn tdiv_i128(n: i128, d: i128) -> (r: i128)
    requires
        d != 0,
        n > i128::MIN,
        d > i128::MIN,
    ensures
        r == tdiv(n as int, d as int),
{
    let an: i128 = if n < 0 { -n } else { n };
    let ad: i128 = if d < 0 { -d } else { d };
    assert(0 <= an / ad <= an) by (nonlinear_arith)
        requires
            an >= 0,
            ad >= 1,
    ;
    let q: i128 = an / ad;
    if (n < 0) == (d < 0) {
        q
    } else {
        -q
    }
}

/// Saturating sum.
pub fn fx_add(a: i64, b: i64) -> (r: i64)
    ensures
        r == fadd(a as int, b as int),
{
    clip_i128(a as i128 + b as i128)
}

/// Saturating difference.
pub fn fx_sub(a: i64, b: i64) -> (r: i64)
    ensures
        r == fsub(a as int, b as int),
{
    clip_i128(a as i128 - b as i128)
}

/// Saturating negation.
pub fn fx_neg(a: i64) -> (r: i64)
    ensures
        r == fneg(a as int),
{
    clip_i128(-(a as i128))
}

/// Saturating fixed-point product.
pub fn fx_mul(a: i64, b: i64) -> (r: i64)
    ensures
        r == fmul(a as int, b as int),
{
    assert(-0x4000_0000_0000_0000_0000_0000_0000_0000 <= (a as int) * (b as int)
        <= 0x4000_0000_0000_0000_0000_0000_0000_0000) by (nonlinear_arith)
        requires
            -0x8000_0000_0000_0000 <= a < 0x8000_0000_0000_0000,
            -0x8000_0000_0000_0000 <= b < 0x8000_0000_0000_0000,
    ;
    let p: i128 = a as i128 * b as i128;
    clip_i128(tdiv_i128(p, ONE as i128))
}

/// Saturating fixed-point quotient.
pub fn fx_div(a: i64, b: i64) -> (r: i64)
    ensures
        r == fdiv(a as int, b as int),
{
    if b == 0 {
        return if a > 0 {
            INFINITY
        } else if a < 0 {
            NEG_INFINITY
        } else {
            0
        };
    }
    assert(-0x8000_0000_0000_0000_0000_0000 <= (a as int) * 65536 < 0x8000_0000_0000_0000_0000_0000)
        by (nonlinear_arith)
        requires
            -0x8000_0000_0000_0000 <= a < 0x8000_0000_0000_0000,
    ;
    let p: i128 = a as i128 * ONE as i128;
    clip_i128(tdiv_i128(p, b as i128))
}

/// Integer square root of `n`.
pub fn isqrt_u128(n: u128) -> (r: u128)
    ensures
        is_isqrt(n as int, r as int),
        r < 0x1_0000_0000_0000_0000,
{
    let mut lo: u128 = 0;
    let mut hi: u128 = 0x1_0000_0000_0000_0000;
    assert((hi as int) * (hi as int) == 0x1_0000_0000_0000_0000_0000_0000_0000_0000);
    while hi - lo > 1
        invariant
            lo < hi <= 0x1_0000_0000_0000_0000,
            lo * lo <= n,
            n < (hi as int) * (hi as int),
        decreases hi - lo,
    {
        let mid: u128 = lo + (hi - lo) / 2;
        assert((mid as int) * (mid as int) < 0x1_0000_0000_0000_0000_0000_0000_0000_0000) by {
            lemma_square_monotone(mid as int, 0xffff_ffff_ffff_ffff);
        }
        if mid * mid <= n {
            lo = mid;
        } else {
            hi = mid;
        }
    }
    lo
}

/// Fixed-point square root, rounded down; zero for values that are not positive.
pub fn fx_sqrt(a: i64) -> (r: i64)
    ensures
        r == fsqrt(a as int),
        r >= 0,
{
    if a <= 0 {
        0
    } else {
        assert(0 < (a as int) * 65536 < 0x1_0000_0000_0000_0000_0000) by (nonlinear_arith)
            requires
                0 < a < 0x8000_0000_0000_0000,
        ;
        let n: u128 = a as u128 * ONE as u128;
        let s = isqrt_u128(n);
        proof {
            lemma_isqrt_unique(n as int, s as int);
            if s >= 0x100_0000_0000 {
                lemma_square_monotone(0x100_0000_0000, s as int);
            }
        }
        s as i64
    }
}

/// Fixed-point value of an integer, saturated.
pub fn fx_from_int(n: i64) -> (r: i64)
    ensures
        r == fint(n as int),
{
    assert(-0x8000_0000_0000_0000_0000_0000 <= (n as int) * 65536 < 0x8000_0000_0000_0000_0000_0000)
        by (nonlinear_arith)
        requires
            -0x8000_0000_0000_0000 <= n < 0x8000_0000_0000_0000,
    ;
    clip_i128(n as i128 * ONE as i128)
}

/// Fixed-point value of a count, saturated.
pub fn fx_from_usize(n: usize) -> (r: i64)
    ensures
        r == fint(n as int),
{
    assert(0 <= (n as int) * 65536 < 0x1_0000_0000_0000_0000_0000) by (nonlinear_arith)
        requires
            0 <= n < 0x1_0000_0000_0000_0000,
    ;
    clip_i128(n as i128 * ONE as i128)
}

} // verus!
