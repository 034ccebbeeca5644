//! The sphere primitive and its quadratic-formula intersection test.

use vstd::prelude::*;
use crate::fixed::{
    SCALE, fx_mul, fx_div, fx_sqrt, fx_mul_spec, fx_div_spec, fx_sqrt_spec, lemma_mul_abs_le,
    lemma_tdiv_abs_le,
};
use crate::vec3::{
    Vec3, sub_spec, div_s_spec, neg_spec, dot_spec, lsq_spec, lemma_dot_bound, lemma_lsq_bound,
    lemma_div_s_bound, COORD_BOUND,
};
use crate::ray::Ray;
use crate::hittable::{Hittable, HitRecord, T_FAR, NORMAL_BOUND, RADIUS_MAX};
use crate::RenderError;

verus! {

/// A sphere of positive radius.
#[derive(Clone, Copy, Debug, PartialEq, Eq, Structural)]
pub struct Sphere {
    pub center: Vec3,
    pub radius: i64,
}

impl Sphere {
    /// Construction validates the geometry: a non-positive (or oversized)
    /// radius or an out-of-volume centre is rejected, not carried along.
    pub fn new(center: Vec3, radius: i64) -> (s: Result<Sphere, RenderError>)
        ensures
            center.abs_le(COORD_BOUND as int) && 1 <= radius <= RADIUS_MAX ==> s
                == Ok::<Sphere, RenderError>(Sphere { center, radius }),
            !(center.abs_le(COORD_BOUND as int) && 1 <= radius <= RADIUS_MAX) ==> s
                == Err::<Sphere, RenderError>(RenderError::InvalidGeometry),
    {
        if center.within(COORD_BOUND) && 1 <= radius && radius <= RADIUS_MAX {
            Ok(Sphere { center, radius })
        } else {
            Err(RenderError::InvalidGeometry)
        }
    }

    /// The record built at an accepted root, unless the point or normal
    /// leaves the fixed-point volume (then the test counts as a miss).
    pub open spec fn record_model(&self, ray: Ray, root: int) -> Option<HitRecord> {
        let p = ray.at_spec(root);
        if !p.abs_le(COORD_BOUND as int) {
            None
        } else {
            let outward = div_s_spec(sub_spec(p, self.center), self.radius as int);
            if !outward.abs_le(NORMAL_BOUND as int) {
                None
            } else {
                let front = dot_spec(ray.dir, outward) < 0;
                Some(
                    HitRecord {
                        p,
                        normal: if front {
                            outward
                        } else {
                            neg_spec(outward)
                        },
                        t: root as i64,
                        front_face: front,
                    },
                )
            }
        }
    }
}

/// Shrinking the window's upper bound keeps a sphere's hit exactly when
/// its parameter still fits, and never conjures a different hit: the root
/// policy prefers the nearer root, and the roots keep their order.
pub proof fn lemma_sphere_window_shrink(s: Sphere, ray: Ray, t_min: int, t_max: int, t_cap: int)
    requires
        0 <= t_min,
        t_cap <= t_max <= T_FAR as int,
    ensures
        (match s.hit_model(ray, t_min, t_max) {
            Some(rec) => if rec.t <= t_cap {
                s.hit_model(ray, t_min, t_cap) == Some(rec)
            } else {
                s.hit_model(ray, t_min, t_cap) is None
            },
            None => s.hit_model(ray, t_min, t_cap) is None,
        }),
{
    let oc = sub_spec(ray.orig, s.center);
    let a = lsq_spec(ray.dir);
    let half_b = dot_spec(oc, ray.dir);
    let c = lsq_spec(oc) - fx_mul_spec(s.radius as int, s.radius as int);
    let disc = fx_mul_spec(half_b, half_b) - fx_mul_spec(a, c);
    if a >= 1 && disc >= 0 {
        let sqrtd = fx_sqrt_spec(disc);
        crate::fixed::lemma_isqrt_props(disc * (SCALE as int));
        let root1 = fx_div_spec(-half_b - sqrtd, a);
        let root2 = fx_div_spec(-half_b + sqrtd, a);
        crate::fixed::lemma_tdiv_mono(
            (-half_b - sqrtd) * (SCALE as int),
            (-half_b + sqrtd) * (SCALE as int),
            a,
        );
        assert((-half_b - sqrtd) * (SCALE as int) <= (-half_b + sqrtd) * (SCALE as int))
            by (nonlinear_arith)
            requires
                0 <= sqrtd,
                SCALE == 65536;
        assert(root1 <= root2);
    }
}

impl Hittable for Sphere {
    /// Centre in the scene volume, radius positive and bounded.
    open spec fn wf(&self) -> bool {
        &&& self.center.abs_le(COORD_BOUND as int)
        &&& 1 <= self.radius <= RADIUS_MAX
    }

    /// The quadratic formula with the classic root policy: the nearer root
    /// if it lies in `(t_min, t_max]`, else the farther root, else a miss.
    /// A direction of squared length zero at this resolution cannot be
    /// intersected and counts as a miss.
    open spec fn hit_model(&self, ray: Ray, t_min: int, t_max: int) -> Option<HitRecord> {
        let oc = sub_spec(ray.orig, self.center);
        let a = lsq_spec(ray.dir);
        let half_b = dot_spec(oc, ray.dir);
        let c = lsq_spec(oc) - fx_mul_spec(self.radius as int, self.radius as int);
        let disc = fx_mul_spec(half_b, half_b) - fx_mul_spec(a, c);
        if a < 1 || disc < 0 {
            None
        } else {
            let sqrtd = fx_sqrt_spec(disc);
            let root1 = fx_div_spec(-half_b - sqrtd, a);
            let root2 = fx_div_spec(-half_b + sqrtd, a);
            if t_min < root1 <= t_max {
                self.record_model(ray, root1)
            } else if t_min < root2 <= t_max {
                self.record_model(ray, root2)
            } else {
                None
            }
        }
    }

    proof fn lemma_hit_model_window(&self, ray: Ray, t_min: int, t_max: int) {
    }

    fn hit(&self, ray: &Ray, t_min: i64, t_max: i64) -> (res: Option<HitRecord>) {
        let oc = ray.origin().sub(&self.center);
        proof {
            lemma_lsq_bound(ray.dir, COORD_BOUND as int);
            lemma_lsq_bound(oc, 2 * COORD_BOUND as int);
            lemma_dot_bound(oc, ray.dir, 2 * COORD_BOUND as int, COORD_BOUND as int);
            lemma_mul_abs_le(self.radius as int, RADIUS_MAX as int, self.radius as int, RADIUS_MAX as int);
            lemma_tdiv_abs_le(
                (self.radius as int) * (self.radius as int),
                RADIUS_MAX as int * RADIUS_MAX as int,
                SCALE as int,
            );
        }
        let a = ray.direction().length_squared();
        let half_b = oc.dot(&ray.direction());
        let c = oc.length_squared() - fx_mul(self.radius, self.radius);
        proof {
            lemma_mul_abs_le(half_b as int, 0x40_0000_0000int, half_b as int, 0x40_0000_0000int);
            lemma_tdiv_abs_le(
                (half_b as int) * (half_b as int),
                0x40_0000_0000int * 0x40_0000_0000int,
                SCALE as int,
            );
            lemma_mul_abs_le(a as int, 0x20_0000_0000int, c as int, 0x100_0000_0000int);
            lemma_tdiv_abs_le(
                (a as int) * (c as int),
                0x20_0000_0000int * 0x100_0000_0000int,
                SCALE as int,
            );
        }
        let disc = fx_mul(half_b, half_b) - fx_mul(a, c);
        if a < 1 || disc < 0 {
            return None;
        }
        let sqrtd = fx_sqrt(disc);
        proof {
            assert(sqrtd <= 0x80_0000_0000) by (nonlinear_arith)
                requires
                    0 <= sqrtd,
                    (sqrtd as int) * (sqrtd as int) <= (disc as int) * (SCALE as int),
                    0 <= disc <= 0x4000_0000_0000_0000,
            ;
        }
        let mut root = fx_div(0 - half_b - sqrtd, a);
        if !(t_min < root && root <= t_max) {
            root = fx_div(0 - half_b + sqrtd, a);
            if !(t_min < root && root <= t_max) {
                return None;
            }
        }
        let p = ray.at(root);
        if !p.within(COORD_BOUND) {
            return None;
        }
        proof {
            lemma_div_s_bound(
                sub_spec(p, self.center),
                self.radius as int,
                2 * COORD_BOUND as int,
            );
        }
        let outward = p.sub(&self.center).div_s(self.radius);
        if !outward.within(NORMAL_BOUND) {
            return None;
        }
        let mut record = HitRecord::new(p, outward, root, false);
        record.set_face_normal(ray, &outward);
        Some(record)
    }
}

} // verus!
