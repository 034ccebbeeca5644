//! The uniform random source for sampling, as fixed-point scalars.

use vstd::prelude::*;
use crate::fixed::{SCALE, FX_MUL_BOUND, fx_mul};

verus! {

/// A uniform fixed-point sample in `[0, 1)`.
///
/// Relies on `rand::random::<u16>`: a uniform 16-bit value, which is exactly
/// one raw fixed-point unit of resolution over `[0, 1)`.
#[verifier::external_body]
pub fn rand_fx() -> (r: i64)
    ensures
        0 <= r < SCALE,
{
    rand::random::<u16>() as i64
}

/// A uniform fixed-point sample in `[min, max)`, as `min + (max - min) * u`
/// for a uniform `u` in `[0, 1)`.
pub fn rand_fx_range(min: i64, max: i64) -> (r: i64)
    requires
        -FX_MUL_BOUND <= min < max <= FX_MUL_BOUND,
        max - min <= FX_MUL_BOUND,
    ensures
        min <= r < max,
{
    let u = rand_fx();
    let d = max - min;
    proof {
        vstd::arithmetic::div_mod::lemma_div_pos_is_pos((d as int) * (u as int), SCALE as int);
        vstd::arithmetic::mul::lemma_mul_nonnegative(d as int, u as int);
        assert((d as int) * (u as int) < (SCALE as int) * (d as int)) by (nonlinear_arith)
            requires
                0 < (d as int),
                0 <= (u as int) < (SCALE as int);
        vstd::arithmetic::div_mod::lemma_multiply_divide_lt(
            (d as int) * (u as int),
            SCALE as int,
            d as int,
        );
    }
    min + fx_mul(d, u)
}

} // verus!
