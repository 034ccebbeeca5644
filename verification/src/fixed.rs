//! Q47.16 fixed-point scalar arithmetic.
//!
//! A scalar is an `i64` holding `value * SCALE`, with `SCALE = 2^16`.
//! Multiplication, division and square root round toward zero, exactly as
//! the specification functions here state.

use vstd::prelude::*;

verus! {

/// Number of raw units per whole unit: a raw value `v` stands for `v / SCALE`.
pub const SCALE: i64 = 65536;

/// Largest raw magnitude accepted by `fx_mul`: products stay within `i128`
/// and quotients within `i64`.
pub const FX_MUL_BOUND: i64 = 0x80_0000_0000;

/// Largest raw magnitude accepted as a numerator by `fx_div` and `div_i64`.
pub const FX_DIV_BOUND: i64 = 0x4000_0000_0000;

/// Truncating (round-toward-zero) division, the semantics of machine division.
/// Meaningful for `b > 0`.
pub open spec fn tdiv(a: int, b: int) -> int {
    if a >= 0 {
        a / b
    } else {
        -((-a) / b)
    }
}

/// Fixed-point product: `(a * b) / SCALE`, truncated toward zero.
pub open spec fn fx_mul_spec(a: int, b: int) -> int {
    tdiv(a * b, SCALE as int)
}

/// Fixed-point quotient: `(a * SCALE) / b`, truncated toward zero.
/// Meaningful for `b > 0`.
pub open spec fn fx_div_spec(a: int, b: int) -> int {
    tdiv(a * (SCALE as int), b)
}

/// Integer square root of `n`, the greatest `r` with `r * r <= n`
/// (and `0` for `n <= 0`).
pub open spec fn isqrt_spec(n: int) -> int
    decreases n,
{
    if n <= 0 {
        0
    } else {
        let r = isqrt_spec(n - 1);
        if (r + 1) * (r + 1) <= n {
            r + 1
        } else {
            r
        }
    }
}

/// Fixed-point square root: the raw result of `sqrt(a / SCALE)` is
/// `isqrt(a * SCALE)`.
pub open spec fn fx_sqrt_spec(a: int) -> int {
    isqrt_spec(a * (SCALE as int))
}

/// `isqrt_spec(n)` really is the integer square root of `n`.
pub proof fn lemma_isqrt_props(n: int)
    requires
        n >= 0,
    ensures
        0 <= isqrt_spec(n),
        isqrt_spec(n) * isqrt_spec(n) <= n,
        n < (isqrt_spec(n) + 1) * (isqrt_spec(n) + 1),
    decreases n,
{
    if n == 0 {
        assert(isqrt_spec(0) == 0);
    } else {
        lemma_isqrt_props(n - 1);
        let r = isqrt_spec(n - 1);
        if (r + 1) * (r + 1) <= n {
            assert(n - 1 < (r + 1) * (r + 1));
            assert(n < (r + 2) * (r + 2)) by (nonlinear_arith)
                requires
                    r >= 0,
                    n <= (r + 1) * (r + 1),
            ;
        } else {
            assert(r * r <= n - 1);
        }
    }
}

/// Any `s` that squares below `n` and whose successor squares above it
/// is the integer square root.
pub proof fn lemma_isqrt_unique(n: int, s: int)
    requires
        0 <= s,
        s * s <= n,
        n < (s + 1) * (s + 1),
    ensures
        s == isqrt_spec(n),
{
    lemma_isqrt_props(n);
    let r = isqrt_spec(n);
    assert(r == s) by (nonlinear_arith)
        requires
            0 <= s,
            0 <= r,
            s * s <= n,
            n < (s + 1) * (s + 1),
            r * r <= n,
            n < (r + 1) * (r + 1),
    ;
}

/// Magnitude bound on a product from bounds on the factors.
pub proof fn lemma_mul_abs_le(a: int, am: int, b: int, bm: int) by (nonlinear_arith)
    requires
        -am <= a <= am,
        -bm <= b <= bm,
    ensures
        -(am * bm) <= a * b <= am * bm,
{
}

/// Truncating division shrinks magnitudes: a bound on the numerator bounds
/// the quotient by the divided bound.
pub proof fn lemma_tdiv_abs_le(a: int, m: int, b: int)
    requires
        b >= 1,
        -m <= a <= m,
    ensures
        -(m / b) <= tdiv(a, b) <= m / b,
        -m <= tdiv(a, b) <= m,
{
    if a >= 0 {
        vstd::arithmetic::div_mod::lemma_div_is_ordered(a, m, b);
        vstd::arithmetic::div_mod::lemma_div_pos_is_pos(a, b);
        vstd::arithmetic::div_mod::lemma_div_nonincreasing(a, b);
        vstd::arithmetic::div_mod::lemma_div_pos_is_pos(m, b);
        vstd::arithmetic::div_mod::lemma_div_nonincreasing(m, b);
    } else {
        vstd::arithmetic::div_mod::lemma_div_is_ordered(-a, m, b);
        vstd::arithmetic::div_mod::lemma_div_pos_is_pos(-a, b);
        vstd::arithmetic::div_mod::lemma_div_nonincreasing(-a, b);
        vstd::arithmetic::div_mod::lemma_div_pos_is_pos(m, b);
        vstd::arithmetic::div_mod::lemma_div_nonincreasing(m, b);
    }
}

/// Truncating division is monotone in the numerator.
pub proof fn lemma_tdiv_mono(a1: int, a2: int, b: int)
    requires
        b >= 1,
        a1 <= a2,
    ensures
        tdiv(a1, b) <= tdiv(a2, b),
{
    if a1 >= 0 {
        vstd::arithmetic::div_mod::lemma_div_is_ordered(a1, a2, b);
    } else if a2 >= 0 {
        vstd::arithmetic::div_mod::lemma_div_pos_is_pos(-a1, b);
        vstd::arithmetic::div_mod::lemma_div_pos_is_pos(a2, b);
    } else {
        vstd::arithmetic::div_mod::lemma_div_is_ordered(-a2, -a1, b);
    }
}

/// Fixed-point multiply. Truncates the product toward zero.
pub fn fx_mul(a: i64, b: i64) -> (r: i64)
    requires
        -FX_MUL_BOUND <= a <= FX_MUL_BOUND,
        -FX_MUL_BOUND <= b <= FX_MUL_BOUND,
    ensures
        r == fx_mul_spec(a as int, b as int),
{
    proof {
        lemma_mul_abs_le(a as int, FX_MUL_BOUND as int, b as int, FX_MUL_BOUND as int);
    }
    let p: i128 = (a as i128) * (b as i128);
    if p >= 0 {
        let q: u128 = (p as u128) / 65536;
        proof {
            lemma_tdiv_abs_le(p as int, FX_MUL_BOUND as int * FX_MUL_BOUND as int, 65536);
        }
        q as i64
    } else {
        let q: u128 = ((-p) as u128) / 65536;
        proof {
            lemma_tdiv_abs_le(p as int, FX_MUL_BOUND as int * FX_MUL_BOUND as int, 65536);
        }
        -(q as i64)
    }
}

/// Fixed-point divide by a positive divisor. Truncates toward zero.
pub fn fx_div(a: i64, b: i64) -> (r: i64)
    requires
        1 <= b,
        -FX_DIV_BOUND <= a <= FX_DIV_BOUND,
    ensures
        r == fx_div_spec(a as int, b as int),
{
    let n: i64 = a * 65536;
    proof {
        lemma_tdiv_abs_le(n as int, FX_DIV_BOUND as int * 65536, b as int);
    }
    if n >= 0 {
        ((n as u64) / (b as u64)) as i64
    } else {
        -((((-n) as u64) / (b as u64)) as i64)
    }
}

/// Plain truncating `i64` division by a positive divisor.
pub fn div_i64(a: i64, b: i64) -> (r: i64)
    requires
        1 <= b,
        -FX_DIV_BOUND <= a <= FX_DIV_BOUND,
    ensures
        r == tdiv(a as int, b as int),
{
    proof {
        lemma_tdiv_abs_le(a as int, FX_DIV_BOUND as int, b as int);
    }
    if a >= 0 {
        ((a as u64) / (b as u64)) as i64
    } else {
        -((((-a) as u64) / (b as u64)) as i64)
    }
}

/// Integer square root by binary search.
pub fn isqrt_u128(n: u128) -> (r: u128)
    requires
        n < 0x1_0000_0000_0000_0000_0000,
    ensures
        r == isqrt_spec(n as int),
        r < 0x100_0000_0000,
        r * r <= n,
{
    let mut lo: u128 = 0;
    let mut hi: u128 = 0xFF_FFFF_FFFF;
    proof {
        assert((0xFF_FFFF_FFFFu128 + 1) * (0xFF_FFFF_FFFFu128 + 1) > n) by (nonlinear_arith)
            requires
                n < 0x1_0000_0000_0000_0000_0000,
        ;
    }
    while lo < hi
        invariant
            lo <= hi,
            hi <= 0xFF_FFFF_FFFF,
            lo * lo <= n,
            n < (hi + 1) * (hi + 1),
        decreases hi - lo,
    {
        let mid: u128 = lo + (hi - lo + 1) / 2;
        proof {
            assert(mid * mid <= 0xFF_FFFF_FFFFu128 * 0xFF_FFFF_FFFFu128) by (nonlinear_arith)
                requires
                    0 <= mid <= 0xFF_FFFF_FFFFu128,
            ;
        }
        if mid * mid <= n {
            lo = mid;
        } else {
            hi = mid - 1;
        }
    }
    proof {
        lemma_isqrt_unique(n as int, lo as int);
    }
    lo
}

/// Fixed-point square root of a nonnegative scalar.
pub fn fx_sqrt(a: i64) -> (r: i64)
    requires
        0 <= a,
    ensures
        r == fx_sqrt_spec(a as int),
        0 <= r < 0x100_0000_0000,
        r * r <= a * SCALE,
        a * SCALE < (r + 1) * (r + 1),
{
    proof {
        assert((a as u128) * 65536 < 0x1_0000_0000_0000_0000_0000u128) by (nonlinear_arith)
            requires
                0 <= a <= i64::MAX,
        ;
        lemma_isqrt_props(a as int * 65536);
    }
    let n: u128 = (a as u128) * 65536;
    let r = isqrt_u128(n);
    r as i64
}

} // verus!
