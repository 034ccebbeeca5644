//! Rays: an origin, a direction, and parametrized point evaluation.

use vstd::prelude::*;
use crate::vec3::{Vec3, add_spec, mul_s_spec, lemma_mul_s_bound, COORD_BOUND};
use crate::hittable::T_FAR;

verus! {

/// A half-line from `orig` along `dir`. The direction need not be unit
/// length.
#[derive(Clone, Copy, Debug, PartialEq, Eq, Structural)]
pub struct Ray {
    pub orig: Vec3,
    pub dir: Vec3,
}

impl Ray {
    /// Origin and direction within the scene coordinate volume.
    pub open spec fn wf(&self) -> bool {
        &&& self.orig.abs_le(COORD_BOUND as int)
        &&& self.dir.abs_le(COORD_BOUND as int)
    }

    /// The point at parameter `t`: `orig + dir * t`.
    pub open spec fn at_spec(self, t: int) -> Vec3 {
        add_spec(self.orig, mul_s_spec(self.dir, t))
    }

    pub fn new(orig: Vec3, dir: Vec3) -> (r: Ray)
        ensures
            r == (Ray { orig, dir }),
    {
        Ray { orig, dir }
    }

    pub fn origin(&self) -> (v: Vec3)
        ensures
            v == self.orig,
    {
        self.orig
    }

    pub fn direction(&self) -> (v: Vec3)
        ensures
            v == self.dir,
    {
        self.dir
    }

    pub fn at(&self, t: i64) -> (p: Vec3)
        requires
            self.wf(),
            -T_FAR <= t <= T_FAR,
        ensures
            p == self.at_spec(t as int),
    {
        proof {
            lemma_mul_s_bound(self.dir, t as int, COORD_BOUND as int, T_FAR as int);
        }
        self.orig.add(&self.dir.mul_s(t))
    }
}

} // verus!
