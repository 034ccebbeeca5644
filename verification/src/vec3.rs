//! 3-component fixed-point vectors: arithmetic, dot and cross products,
//! normalization, and random sampling for diffuse bounces.

use vstd::prelude::*;
use crate::fixed::{
    SCALE, FX_MUL_BOUND, FX_DIV_BOUND, tdiv, fx_mul_spec, fx_div_spec, fx_sqrt_spec,
    fx_mul, fx_div, fx_sqrt, lemma_mul_abs_le, lemma_tdiv_abs_le,
};
use crate::RenderError;

verus! {

/// Component magnitude accepted by the product-forming operations.
pub const VEC_OP_BOUND: i64 = 0x8000_0000;

/// Component magnitude of scene coordinates: ray origins and directions,
/// sphere centres and surface points stay within this volume.
pub const COORD_BOUND: i64 = 0x200_0000;

/// A vector of three Q47.16 fixed-point scalars.
#[derive(Clone, Copy, Debug, PartialEq, Eq, Structural)]
pub struct Vec3 {
    pub x: i64,
    pub y: i64,
    pub z: i64,
}

/// A `Vec3` from ghost scalars known to fit their fields.
pub open spec fn vec3s(x: int, y: int, z: int) -> Vec3 {
    Vec3 { x: x as i64, y: y as i64, z: z as i64 }
}

/// Component-wise sum.
pub open spec fn add_spec(a: Vec3, b: Vec3) -> Vec3 {
    vec3s(a.x + b.x, a.y + b.y, a.z + b.z)
}

/// Component-wise difference.
pub open spec fn sub_spec(a: Vec3, b: Vec3) -> Vec3 {
    vec3s(a.x - b.x, a.y - b.y, a.z - b.z)
}

/// Component-wise negation.
pub open spec fn neg_spec(a: Vec3) -> Vec3 {
    vec3s(-a.x, -a.y, -a.z)
}

/// Scaling by a fixed-point scalar.
pub open spec fn mul_s_spec(a: Vec3, t: int) -> Vec3 {
    vec3s(fx_mul_spec(a.x as int, t), fx_mul_spec(a.y as int, t), fx_mul_spec(a.z as int, t))
}

/// Division by a positive fixed-point scalar.
pub open spec fn div_s_spec(a: Vec3, t: int) -> Vec3 {
    vec3s(fx_div_spec(a.x as int, t), fx_div_spec(a.y as int, t), fx_div_spec(a.z as int, t))
}

/// Fixed-point dot product.
pub open spec fn dot_spec(a: Vec3, b: Vec3) -> int {
    fx_mul_spec(a.x as int, b.x as int) + fx_mul_spec(a.y as int, b.y as int) + fx_mul_spec(
        a.z as int,
        b.z as int,
    )
}

/// Fixed-point squared length.
pub open spec fn lsq_spec(a: Vec3) -> int {
    dot_spec(a, a)
}

/// Fixed-point length.
pub open spec fn length_spec(a: Vec3) -> int {
    fx_sqrt_spec(lsq_spec(a))
}

/// Fixed-point cross product.
pub open spec fn cross_spec(a: Vec3, b: Vec3) -> Vec3 {
    vec3s(
        fx_mul_spec(a.y as int, b.z as int) - fx_mul_spec(a.z as int, b.y as int),
        fx_mul_spec(a.z as int, b.x as int) - fx_mul_spec(a.x as int, b.z as int),
        fx_mul_spec(a.x as int, b.y as int) - fx_mul_spec(a.y as int, b.x as int),
    )
}

/// The unit vector of `a`: each component divided by the length.
/// Meaningful only when the length is positive.
pub open spec fn unit_spec(a: Vec3) -> Vec3 {
    div_s_spec(a, length_spec(a))
}

impl Vec3 {
    /// Every component within `[-m, m]`.
    pub open spec fn abs_le(&self, m: int) -> bool {
        &&& -m <= self.x <= m
        &&& -m <= self.y <= m
        &&& -m <= self.z <= m
    }

    pub fn new(a: i64, b: i64, c: i64) -> (v: Vec3)
        ensures
            v == (Vec3 { x: a, y: b, z: c }),
    {
        Vec3 { x: a, y: b, z: c }
    }

    pub fn x(&self) -> (r: i64)
        ensures
            r == self.x,
    {
        self.x
    }

    pub fn y(&self) -> (r: i64)
        ensures
            r == self.y,
    {
        self.y
    }

    pub fn z(&self) -> (r: i64)
        ensures
            r == self.z,
    {
        self.z
    }

    /// Whether every component lies within `[-m, m]`.
    pub fn within(&self, m: i64) -> (b: bool)
        requires
            0 <= m,
        ensures
            b == self.abs_le(m as int),
    {
        -m <= self.x && self.x <= m && -m <= self.y && self.y <= m && -m <= self.z && self.z <= m
    }

    pub fn add(&self, rhs: &Vec3) -> (v: Vec3)
        requires
            self.abs_le(0x2000_0000_0000_0000),
            rhs.abs_le(0x2000_0000_0000_0000),
        ensures
            v == add_spec(*self, *rhs),
    {
        Vec3 { x: self.x + rhs.x, y: self.y + rhs.y, z: self.z + rhs.z }
    }

    pub fn sub(&self, rhs: &Vec3) -> (v: Vec3)
        requires
            self.abs_le(0x2000_0000_0000_0000),
            rhs.abs_le(0x2000_0000_0000_0000),
        ensures
            v == sub_spec(*self, *rhs),
    {
        Vec3 { x: self.x - rhs.x, y: self.y - rhs.y, z: self.z - rhs.z }
    }

    pub fn neg(&self) -> (v: Vec3)
        requires
            self.abs_le(0x2000_0000_0000_0000),
        ensures
            v == neg_spec(*self),
    {
        Vec3 { x: -self.x, y: -self.y, z: -self.z }
    }

    /// Scale by the fixed-point scalar `t`.
    pub fn mul_s(&self, t: i64) -> (v: Vec3)
        requires
            self.abs_le(FX_MUL_BOUND as int),
            -FX_MUL_BOUND <= t <= FX_MUL_BOUND,
        ensures
            v == mul_s_spec(*self, t as int),
    {
        Vec3 { x: fx_mul(self.x, t), y: fx_mul(self.y, t), z: fx_mul(self.z, t) }
    }

    /// Divide by the positive fixed-point scalar `t`.
    pub fn div_s(&self, t: i64) -> (v: Vec3)
        requires
            self.abs_le(FX_DIV_BOUND as int),
            1 <= t,
        ensures
            v == div_s_spec(*self, t as int),
    {
        Vec3 { x: fx_div(self.x, t), y: fx_div(self.y, t), z: fx_div(self.z, t) }
    }

    pub fn dot(&self, rhs: &Vec3) -> (r: i64)
        requires
            self.abs_le(VEC_OP_BOUND as int),
            rhs.abs_le(VEC_OP_BOUND as int),
        ensures
            r == dot_spec(*self, *rhs),
    {
        proof {
            lemma_dot_bound(*self, *rhs, VEC_OP_BOUND as int, VEC_OP_BOUND as int);
        }
        fx_mul(self.x, rhs.x) + fx_mul(self.y, rhs.y) + fx_mul(self.z, rhs.z)
    }

    pub fn length_squared(&self) -> (r: i64)
        requires
            self.abs_le(VEC_OP_BOUND as int),
        ensures
            r == lsq_spec(*self),
            0 <= r,
    {
        proof {
            lemma_lsq_bound(*self, VEC_OP_BOUND as int);
            lemma_dot_bound(*self, *self, VEC_OP_BOUND as int, VEC_OP_BOUND as int);
        }
        fx_mul(self.x, self.x) + fx_mul(self.y, self.y) + fx_mul(self.z, self.z)
    }

    pub fn length(&self) -> (r: i64)
        requires
            self.abs_le(VEC_OP_BOUND as int),
        ensures
            r == length_spec(*self),
            0 <= r,
    {
        proof {
            lemma_lsq_bound(*self, VEC_OP_BOUND as int);
        }
        fx_sqrt(self.length_squared())
    }

    pub fn cross(&self, rhs: &Vec3) -> (v: Vec3)
        requires
            self.abs_le(VEC_OP_BOUND as int),
            rhs.abs_le(VEC_OP_BOUND as int),
        ensures
            v == cross_spec(*self, *rhs),
    {
        proof {
            lemma_fx_mul_pair_bound(*self, *rhs, VEC_OP_BOUND as int);
        }
        Vec3 {
            x: fx_mul(self.y, rhs.z) - fx_mul(self.z, rhs.y),
            y: fx_mul(self.z, rhs.x) - fx_mul(self.x, rhs.z),
            z: fx_mul(self.x, rhs.y) - fx_mul(self.y, rhs.x),
        }
    }

    /// The unit vector, or an explicit error for a direction too short to
    /// normalize (rather than a silently degenerate result).
    pub fn unit_vec(&self) -> (r: Result<Vec3, RenderError>)
        requires
            self.abs_le(VEC_OP_BOUND as int),
        ensures
            lsq_spec(*self) > 0 ==> r == Ok::<Vec3, RenderError>(unit_spec(*self)),
            lsq_spec(*self) == 0 ==> r == Err::<Vec3, RenderError>(RenderError::DegenerateVector),
    {
        let lsq = self.length_squared();
        if lsq == 0 {
            Err(RenderError::DegenerateVector)
        } else {
            let len = self.length();
            proof {
                lemma_lsq_bound(*self, VEC_OP_BOUND as int);
                crate::fixed::lemma_isqrt_props(lsq_spec(*self) * (SCALE as int));
                assert(len >= 1) by (nonlinear_arith)
                    requires
                        len == crate::fixed::isqrt_spec(lsq_spec(*self) * (SCALE as int)),
                        lsq_spec(*self) >= 1,
                        len >= 0,
                        (len + 1) * (len + 1) > lsq_spec(*self) * (SCALE as int),
                ;
            }
            Ok(self.div_s(len))
        }
    }

    /// A vector whose components are uniform in `[0, 1)`.
    pub fn random() -> (v: Vec3)
        ensures
            v.abs_le(SCALE as int),
            0 <= v.x < SCALE,
            0 <= v.y < SCALE,
            0 <= v.z < SCALE,
    {
        Vec3 { x: crate::randomizer::rand_fx(), y: crate::randomizer::rand_fx(), z: crate::randomizer::rand_fx() }
    }

    /// A vector whose components are uniform in `[min, max)`.
    pub fn random_range(min: i64, max: i64) -> (v: Vec3)
        requires
            -FX_MUL_BOUND <= min < max <= FX_MUL_BOUND,
            max - min <= FX_MUL_BOUND,
        ensures
            min <= v.x < max,
            min <= v.y < max,
            min <= v.z < max,
    {
        Vec3 {
            x: crate::randomizer::rand_fx_range(min, max),
            y: crate::randomizer::rand_fx_range(min, max),
            z: crate::randomizer::rand_fx_range(min, max),
        }
    }

    /// Rejection sampling: uniform points of the cube `[-1, 1)^3` until one
    /// falls strictly inside the unit ball. The attempt count is bounded so
    /// that termination can be checked; the bound is beyond any realistic
    /// rejection streak, and a fixed in-ball point stands in after it.
    pub fn random_in_unit_sphere() -> (v: Vec3)
        ensures
            v.abs_le(SCALE as int),
            0 <= lsq_spec(v) < SCALE,
    {
        let mut attempts: u32 = 64;
        while attempts > 0
            decreases attempts,
        {
            let p = Vec3::random_range(-SCALE, SCALE);
            let lsq = p.length_squared();
            if lsq < SCALE {
                return p;
            }
            attempts = attempts - 1;
        }
        Vec3 { x: 32768, y: 0, z: 0 }
    }

    /// A unit vector of uniformly random direction: the normalization of a
    /// rejection-sampled point of the unit ball long enough to normalize.
    pub fn random_unit_vector() -> (v: Vec3)
        ensures
            exists|p: Vec3|
                p.abs_le(SCALE as int) && 0 < lsq_spec(p) < SCALE && v == unit_spec(p),
    {
        let mut attempts: u32 = 64;
        while attempts > 0
            decreases attempts,
        {
            let p = Vec3::random_in_unit_sphere();
            let lsq = p.length_squared();
            if lsq >= 1 {
                match p.unit_vec() {
                    Ok(u) => {
                        proof {
                            assert(p.abs_le(SCALE as int) && 0 < lsq_spec(p) < SCALE && u
                                == unit_spec(p));
                        }
                        return u;
                    },
                    Err(_) => {},
                }
            }
            attempts = attempts - 1;
        }
        let fallback = Vec3 { x: 32768, y: 0, z: 0 };
        match fallback.unit_vec() {
            Ok(u) => {
                proof {
                    assert(fallback.abs_le(SCALE as int) && 0 < lsq_spec(fallback) < SCALE && u
                        == unit_spec(fallback));
                }
                u
            },
            Err(_) => {
                proof {
                    assert(false);
                }
                fallback
            },
        }
    }

    /// A random point of the unit ball on the side of `normal`'s hemisphere:
    /// the sample is reflected when it opposes `normal`.
    pub fn random_in_hemisphere(normal: &Vec3) -> (v: Vec3)
        requires
            normal.abs_le(VEC_OP_BOUND as int),
        ensures
            v.abs_le(SCALE as int),
            0 <= lsq_spec(v) < SCALE,
            0 <= dot_spec(v, *normal),
    {
        let in_unit_sphere = Vec3::random_in_unit_sphere();
        let d = in_unit_sphere.dot(normal);
        if d > 0 {
            in_unit_sphere
        } else {
            proof {
                lemma_dot_neg(in_unit_sphere, *normal);
                lemma_lsq_neg(in_unit_sphere);
            }
            in_unit_sphere.neg()
        }
    }
}

/// Component bounds of a scaled vector, before and after the field casts.
pub proof fn lemma_mul_s_bound(a: Vec3, t: int, am: int, tm: int)
    requires
        0 <= am,
        0 <= tm,
        a.abs_le(am),
        -tm <= t <= tm,
    ensures
        -((am * tm) / (SCALE as int)) <= fx_mul_spec(a.x as int, t) <= (am * tm) / (SCALE as int),
        -((am * tm) / (SCALE as int)) <= fx_mul_spec(a.y as int, t) <= (am * tm) / (SCALE as int),
        -((am * tm) / (SCALE as int)) <= fx_mul_spec(a.z as int, t) <= (am * tm) / (SCALE as int),
{
    lemma_mul_abs_le(a.x as int, am, t, tm);
    lemma_mul_abs_le(a.y as int, am, t, tm);
    lemma_mul_abs_le(a.z as int, am, t, tm);
    lemma_tdiv_abs_le((a.x as int) * t, am * tm, SCALE as int);
    lemma_tdiv_abs_le((a.y as int) * t, am * tm, SCALE as int);
    lemma_tdiv_abs_le((a.z as int) * t, am * tm, SCALE as int);
}

/// Component bounds of a vector divided by a positive scalar.
pub proof fn lemma_div_s_bound(a: Vec3, t: int, am: int)
    requires
        0 <= am,
        a.abs_le(am),
        1 <= t,
    ensures
        -(am * (SCALE as int)) <= fx_div_spec(a.x as int, t) <= am * (SCALE as int),
        -(am * (SCALE as int)) <= fx_div_spec(a.y as int, t) <= am * (SCALE as int),
        -(am * (SCALE as int)) <= fx_div_spec(a.z as int, t) <= am * (SCALE as int),
{
    lemma_mul_abs_le(a.x as int, am, SCALE as int, SCALE as int);
    lemma_mul_abs_le(a.y as int, am, SCALE as int, SCALE as int);
    lemma_mul_abs_le(a.z as int, am, SCALE as int, SCALE as int);
    lemma_tdiv_abs_le((a.x as int) * (SCALE as int), am * (SCALE as int), t);
    lemma_tdiv_abs_le((a.y as int) * (SCALE as int), am * (SCALE as int), t);
    lemma_tdiv_abs_le((a.z as int) * (SCALE as int), am * (SCALE as int), t);
}

/// A vector with any squared length at all is at least one raw unit long.
pub proof fn lemma_length_ge_one(a: Vec3)
    requires
        lsq_spec(a) >= 1,
    ensures
        1 <= length_spec(a),
{
    crate::fixed::lemma_isqrt_props(lsq_spec(a) * (SCALE as int));
    let r = crate::fixed::isqrt_spec(lsq_spec(a) * (SCALE as int));
    assert(r >= 1) by (nonlinear_arith)
        requires
            r >= 0,
            (r + 1) * (r + 1) > lsq_spec(a) * (SCALE as int),
            lsq_spec(a) >= 1,
            SCALE == 65536;
}

/// Negating one factor negates a fixed-point product.
pub proof fn lemma_fx_mul_neg(a: int, b: int)
    ensures
        fx_mul_spec(-a, b) == -fx_mul_spec(a, b),
{
    assert((-a) * b == -(a * b)) by (nonlinear_arith);
}

/// Negating one argument negates a dot product.
pub proof fn lemma_dot_neg(a: Vec3, b: Vec3)
    requires
        a.abs_le(0x4000_0000_0000_0000),
    ensures
        dot_spec(neg_spec(a), b) == -dot_spec(a, b),
{
    lemma_fx_mul_neg(a.x as int, b.x as int);
    lemma_fx_mul_neg(a.y as int, b.y as int);
    lemma_fx_mul_neg(a.z as int, b.z as int);
}

/// Negation keeps the squared length.
pub proof fn lemma_lsq_neg(a: Vec3)
    requires
        a.abs_le(0x4000_0000_0000_0000),
    ensures
        lsq_spec(neg_spec(a)) == lsq_spec(a),
{
    assert((-(a.x as int)) * (-(a.x as int)) == (a.x as int) * (a.x as int)) by (nonlinear_arith);
    assert((-(a.y as int)) * (-(a.y as int)) == (a.y as int) * (a.y as int)) by (nonlinear_arith);
    assert((-(a.z as int)) * (-(a.z as int)) == (a.z as int) * (a.z as int)) by (nonlinear_arith);
}

/// Bound on each `fx_mul` of paired components, for the cross product.
proof fn lemma_fx_mul_pair_bound(a: Vec3, b: Vec3, m: int)
    requires
        0 <= m,
        a.abs_le(m),
        b.abs_le(m),
    ensures
        -((m * m) / (SCALE as int)) <= fx_mul_spec(a.x as int, b.x as int) <= (m * m) / (
        SCALE as int),
        -((m * m) / (SCALE as int)) <= fx_mul_spec(a.x as int, b.y as int) <= (m * m) / (
        SCALE as int),
        -((m * m) / (SCALE as int)) <= fx_mul_spec(a.x as int, b.z as int) <= (m * m) / (
        SCALE as int),
        -((m * m) / (SCALE as int)) <= fx_mul_spec(a.y as int, b.x as int) <= (m * m) / (
        SCALE as int),
        -((m * m) / (SCALE as int)) <= fx_mul_spec(a.y as int, b.y as int) <= (m * m) / (
        SCALE as int),
        -((m * m) / (SCALE as int)) <= fx_mul_spec(a.y as int, b.z as int) <= (m * m) / (
        SCALE as int),
        -((m * m) / (SCALE as int)) <= fx_mul_spec(a.z as int, b.x as int) <= (m * m) / (
        SCALE as int),
        -((m * m) / (SCALE as int)) <= fx_mul_spec(a.z as int, b.y as int) <= (m * m) / (
        SCALE as int),
        -((m * m) / (SCALE as int)) <= fx_mul_spec(a.z as int, b.z as int) <= (m * m) / (
        SCALE as int),
{
    lemma_mul_abs_le(a.x as int, m, b.x as int, m);
    lemma_mul_abs_le(a.x as int, m, b.y as int, m);
    lemma_mul_abs_le(a.x as int, m, b.z as int, m);
    lemma_mul_abs_le(a.y as int, m, b.x as int, m);
    lemma_mul_abs_le(a.y as int, m, b.y as int, m);
    lemma_mul_abs_le(a.y as int, m, b.z as int, m);
    lemma_mul_abs_le(a.z as int, m, b.x as int, m);
    lemma_mul_abs_le(a.z as int, m, b.y as int, m);
    lemma_mul_abs_le(a.z as int, m, b.z as int, m);
    lemma_tdiv_abs_le(a.x as int * b.x as int, m * m, SCALE as int);
    lemma_tdiv_abs_le(a.x as int * b.y as int, m * m, SCALE as int);
    lemma_tdiv_abs_le(a.x as int * b.z as int, m * m, SCALE as int);
    lemma_tdiv_abs_le(a.y as int * b.x as int, m * m, SCALE as int);
    lemma_tdiv_abs_le(a.y as int * b.y as int, m * m, SCALE as int);
    lemma_tdiv_abs_le(a.y as int * b.z as int, m * m, SCALE as int);
    lemma_tdiv_abs_le(a.z as int * b.x as int, m * m, SCALE as int);
    lemma_tdiv_abs_le(a.z as int * b.y as int, m * m, SCALE as int);
    lemma_tdiv_abs_le(a.z as int * b.z as int, m * m, SCALE as int);
}

/// Magnitude bound on a dot product from bounds on its arguments.
pub proof fn lemma_dot_bound(a: Vec3, b: Vec3, am: int, bm: int)
    requires
        0 <= am,
        0 <= bm,
        a.abs_le(am),
        b.abs_le(bm),
    ensures
        -(3 * ((am * bm) / (SCALE as int))) <= dot_spec(a, b) <= 3 * ((am * bm) / (SCALE as int)),
        -((am * bm) / (SCALE as int)) <= fx_mul_spec(a.x as int, b.x as int) <= (am * bm) / (
        SCALE as int),
        -((am * bm) / (SCALE as int)) <= fx_mul_spec(a.y as int, b.y as int) <= (am * bm) / (
        SCALE as int),
        -((am * bm) / (SCALE as int)) <= fx_mul_spec(a.z as int, b.z as int) <= (am * bm) / (
        SCALE as int),
{
    lemma_mul_abs_le(a.x as int, am, b.x as int, bm);
    lemma_mul_abs_le(a.y as int, am, b.y as int, bm);
    lemma_mul_abs_le(a.z as int, am, b.z as int, bm);
    lemma_tdiv_abs_le(a.x as int * b.x as int, am * bm, SCALE as int);
    lemma_tdiv_abs_le(a.y as int * b.y as int, am * bm, SCALE as int);
    lemma_tdiv_abs_le(a.z as int * b.z as int, am * bm, SCALE as int);
}

/// A squared length is nonnegative and bounded from the component bound.
pub proof fn lemma_lsq_bound(a: Vec3, am: int)
    requires
        0 <= am,
        a.abs_le(am),
    ensures
        0 <= lsq_spec(a) <= 3 * ((am * am) / (SCALE as int)),
{
    lemma_dot_bound(a, a, am, am);
    lemma_square_fx_nonneg(a.x as int);
    lemma_square_fx_nonneg(a.y as int);
    lemma_square_fx_nonneg(a.z as int);
}

/// The fixed-point square of any scalar is nonnegative.
pub proof fn lemma_square_fx_nonneg(x: int)
    ensures
        0 <= fx_mul_spec(x, x),
{
    assert(x * x >= 0) by (nonlinear_arith);
    if x * x >= 0 {
        vstd::arithmetic::div_mod::lemma_div_pos_is_pos(x * x, SCALE as int);
    }
}

} // verus!
