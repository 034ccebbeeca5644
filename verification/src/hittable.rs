//! The intersection protocol: the record a successful test produces, the
//! capability every primitive and aggregate offers, and the scene aggregate
//! that finds the globally nearest hit.

use vstd::prelude::*;
use crate::vec3::{Vec3, dot_spec, neg_spec, COORD_BOUND, VEC_OP_BOUND};
use crate::ray::Ray;
use crate::sphere::Sphere;

verus! {

/// Farthest accepted hit parameter: the far clip of the fixed-point world.
pub const T_FAR: i64 = 0x2000_0000;

/// Largest accepted component of an outward normal (a unit vector with
/// rounding slack).
pub const NORMAL_BOUND: i64 = 0x4_0000;

/// Largest accepted sphere radius.
pub const RADIUS_MAX: i64 = 0x100_0000;

/// The result of a successful intersection test. `normal` always opposes
/// the incoming ray: `front_face` records whether the geometric outward
/// normal already did.
#[derive(Clone, Copy, Debug, PartialEq, Eq, Structural)]
pub struct HitRecord {
    pub p: Vec3,
    pub normal: Vec3,
    pub t: i64,
    pub front_face: bool,
}

impl HitRecord {
    pub fn new(p: Vec3, normal: Vec3, t: i64, front_face: bool) -> (rec: HitRecord)
        ensures
            rec == (HitRecord { p, normal, t, front_face }),
    {
        HitRecord { p, normal, t, front_face }
    }

    /// Orient the stored normal against the ray: keep the outward normal
    /// when it opposes the ray's direction, else flip it.
    pub fn set_face_normal(&mut self, r: &Ray, outward_normal: &Vec3)
        requires
            r.dir.abs_le(VEC_OP_BOUND as int),
            outward_normal.abs_le(VEC_OP_BOUND as int),
        ensures
            final(self).front_face == (dot_spec(r.dir, *outward_normal) < 0),
            final(self).normal == if dot_spec(r.dir, *outward_normal) < 0 {
                *outward_normal
            } else {
                neg_spec(*outward_normal)
            },
            final(self).p == old(self).p,
            final(self).t == old(self).t,
    {
        self.front_face = r.direction().dot(outward_normal) < 0;
        self.normal = if self.front_face {
            *outward_normal
        } else {
            outward_normal.neg()
        };
    }
}

/// The capability of being intersected by a ray: `hit` returns exactly what
/// the type's intersection model says, and the model only ever yields
/// records inside the query window and the coordinate volume.
pub trait Hittable {
    /// The type's values the intersection contract is stated for.
    spec fn wf(&self) -> bool;

    /// What `hit` returns: `None` for a miss, or the record of the accepted
    /// intersection.
    spec fn hit_model(&self, ray: Ray, t_min: int, t_max: int) -> Option<HitRecord>;

    /// Any record of the model has its parameter in `(t_min, t_max]` and
    /// bounded point and normal.
    proof fn lemma_hit_model_window(&self, ray: Ray, t_min: int, t_max: int)
        requires
            self.wf(),
            ray.wf(),
            0 <= t_min,
            t_max <= T_FAR as int,
        ensures
            (match self.hit_model(ray, t_min, t_max) {
                Some(rec) => {
                    &&& t_min < rec.t <= t_max
                    &&& rec.p.abs_le(COORD_BOUND as int)
                    &&& rec.normal.abs_le(NORMAL_BOUND as int)
                },
                None => true,
            });

    fn hit(&self, ray: &Ray, t_min: i64, t_max: i64) -> (res: Option<HitRecord>)
        requires
            self.wf(),
            ray.wf(),
            0 <= t_min,
            t_max <= T_FAR,
        ensures
            res == self.hit_model(*ray, t_min as int, t_max as int);
}

/// An ordered collection of primitives, itself intersectable: its hit is
/// the nearest hit over all its members.
pub struct HittableList {
    pub objects: Vec<Sphere>,
}

impl HittableList {
    pub fn new() -> (l: HittableList)
        ensures
            l.objects@.len() == 0,
    {
        HittableList { objects: Vec::new() }
    }

    pub fn clear(&mut self)
        ensures
            final(self).objects@.len() == 0,
    {
        self.objects.clear();
    }

    pub fn add(&mut self, obj: Sphere)
        ensures
            final(self).objects@ == old(self).objects@.push(obj),
    {
        self.objects.push(obj);
    }
}

/// The state of the shrinking-bound scan after the first `n` objects: the
/// best record so far, queried with the window's upper bound shrunk to each
/// accepted hit's parameter in turn.
pub open spec fn list_hit_from(
    objects: Seq<Sphere>,
    ray: Ray,
    t_min: int,
    t_max: int,
    n: int,
) -> Option<HitRecord>
    decreases n,
{
    if n <= 0 {
        None
    } else {
        let prev = list_hit_from(objects, ray, t_min, t_max, n - 1);
        let bound = match prev {
            Some(rec) => rec.t as int,
            None => t_max,
        };
        match objects[n - 1].hit_model(ray, t_min, bound) {
            Some(h) => Some(h),
            None => prev,
        }
    }
}

/// The scan's best-so-far stays inside the original window and the
/// coordinate volume.
pub proof fn lemma_list_hit_from_window(
    objects: Seq<Sphere>,
    ray: Ray,
    t_min: int,
    t_max: int,
    n: int,
)
    requires
        forall|i: int| 0 <= i < objects.len() ==> objects[i].wf(),
        ray.wf(),
        0 <= t_min,
        t_max <= T_FAR as int,
        n <= objects.len(),
    ensures
        (match list_hit_from(objects, ray, t_min, t_max, n) {
            Some(rec) => {
                &&& t_min < rec.t <= t_max
                &&& rec.p.abs_le(COORD_BOUND as int)
                &&& rec.normal.abs_le(NORMAL_BOUND as int)
            },
            None => true,
        }),
    decreases n,
{
    if n > 0 {
        lemma_list_hit_from_window(objects, ray, t_min, t_max, n - 1);
        let prev = list_hit_from(objects, ray, t_min, t_max, n - 1);
        let bound = match prev {
            Some(rec) => rec.t as int,
            None => t_max,
        };
        objects[n - 1].lemma_hit_model_window(ray, t_min, bound);
    }
}

/// The scan returns the globally nearest hit: it misses only when every
/// member misses the full window, any member's full-window hit has a
/// parameter no smaller than the scan's, and the scan's result is itself
/// some member's full-window hit — so its parameter is exactly the
/// minimum over the members, whatever their order.
pub proof fn lemma_list_hit_nearest(
    objects: Seq<Sphere>,
    ray: Ray,
    t_min: int,
    t_max: int,
    n: int,
)
    requires
        forall|i: int| 0 <= i < objects.len() ==> objects[i].wf(),
        ray.wf(),
        0 <= t_min,
        t_max <= T_FAR as int,
        n <= objects.len(),
    ensures
        forall|i: int|
            0 <= i < n && #[trigger] objects[i].hit_model(ray, t_min, t_max) is Some
                ==> list_hit_from(objects, ray, t_min, t_max, n) is Some,
        forall|i: int|
            0 <= i < n && #[trigger] objects[i].hit_model(ray, t_min, t_max) is Some
                ==> list_hit_from(objects, ray, t_min, t_max, n)->0.t <= objects[i].hit_model(
                ray,
                t_min,
                t_max,
            )->0.t,
        list_hit_from(objects, ray, t_min, t_max, n) is Some ==> exists|i: int|
            0 <= i < n && #[trigger] objects[i].hit_model(ray, t_min, t_max) == list_hit_from(
                objects,
                ray,
                t_min,
                t_max,
                n,
            ),
    decreases n,
{
    if n > 0 {
        lemma_list_hit_nearest(objects, ray, t_min, t_max, n - 1);
        lemma_list_hit_from_window(objects, ray, t_min, t_max, n - 1);
        lemma_list_hit_from_window(objects, ray, t_min, t_max, n);
        let prev = list_hit_from(objects, ray, t_min, t_max, n - 1);
        let bound = match prev {
            Some(rec) => rec.t as int,
            None => t_max,
        };
        crate::sphere::lemma_sphere_window_shrink(objects[n - 1], ray, t_min, t_max, bound);
        objects[n - 1].lemma_hit_model_window(ray, t_min, bound);
    }
}

/// Which of two overlapping spheres a two-member scene reports does not
/// depend on insertion order: when both hit the window, either order
/// returns a hit at the smaller of the two parameters.
pub proof fn lemma_two_spheres_nearest_wins(
    a: Sphere,
    b: Sphere,
    ray: Ray,
    t_min: int,
    t_max: int,
)
    requires
        a.wf(),
        b.wf(),
        ray.wf(),
        0 <= t_min,
        t_max <= T_FAR as int,
        a.hit_model(ray, t_min, t_max) is Some,
        b.hit_model(ray, t_min, t_max) is Some,
    ensures
        ({
            let ta = a.hit_model(ray, t_min, t_max)->0.t;
            let tb = b.hit_model(ray, t_min, t_max)->0.t;
            let tmin = if ta <= tb {
                ta
            } else {
                tb
            };
            &&& list_hit_from(seq![a, b], ray, t_min, t_max, 2) is Some
            &&& list_hit_from(seq![b, a], ray, t_min, t_max, 2) is Some
            &&& list_hit_from(seq![a, b], ray, t_min, t_max, 2)->0.t == tmin
            &&& list_hit_from(seq![b, a], ray, t_min, t_max, 2)->0.t == tmin
        }),
{
    reveal_with_fuel(list_hit_from, 3);
    let sab = seq![a, b];
    let sba = seq![b, a];
    assert(forall|i: int| 0 <= i < sab.len() ==> sab[i].wf());
    assert(forall|i: int| 0 <= i < sba.len() ==> sba[i].wf());
    assert(sab[0] == a && sab[1] == b && sba[0] == b && sba[1] == a);
    lemma_list_hit_nearest(sab, ray, t_min, t_max, 2);
    lemma_list_hit_nearest(sba, ray, t_min, t_max, 2);
    lemma_list_hit_from_window(sab, ray, t_min, t_max, 1);
    lemma_list_hit_from_window(sba, ray, t_min, t_max, 1);
    let ra = a.hit_model(ray, t_min, t_max)->0;
    let rb = b.hit_model(ray, t_min, t_max)->0;
    a.lemma_hit_model_window(ray, t_min, t_max);
    b.lemma_hit_model_window(ray, t_min, t_max);
    crate::sphere::lemma_sphere_window_shrink(b, ray, t_min, t_max, ra.t as int);
    crate::sphere::lemma_sphere_window_shrink(a, ray, t_min, t_max, rb.t as int);
    assert(list_hit_from(sab, ray, t_min, t_max, 1) == Some(ra));
    assert(list_hit_from(sba, ray, t_min, t_max, 1) == Some(rb));
    if rb.t <= ra.t {
        assert(b.hit_model(ray, t_min, ra.t as int) == Some(rb));
        assert(list_hit_from(sab, ray, t_min, t_max, 2) == Some(rb));
    } else {
        assert(b.hit_model(ray, t_min, ra.t as int) is None);
        assert(list_hit_from(sab, ray, t_min, t_max, 2) == Some(ra));
    }
    if ra.t <= rb.t {
        assert(a.hit_model(ray, t_min, rb.t as int) == Some(ra));
        assert(list_hit_from(sba, ray, t_min, t_max, 2) == Some(ra));
    } else {
        assert(a.hit_model(ray, t_min, rb.t as int) is None);
        assert(list_hit_from(sba, ray, t_min, t_max, 2) == Some(rb));
    }
}

/// An empty scene never reports a hit.
pub proof fn lemma_empty_scene_misses(list: HittableList, ray: Ray, t_min: int, t_max: int)
    requires
        list.objects@.len() == 0,
    ensures
        list.hit_model(ray, t_min, t_max) is None,
{
}

impl Hittable for HittableList {
    /// Every owned primitive is well-formed.
    open spec fn wf(&self) -> bool {
        forall|i: int| 0 <= i < self.objects@.len() ==> self.objects@[i].wf()
    }

    open spec fn hit_model(&self, ray: Ray, t_min: int, t_max: int) -> Option<HitRecord> {
        list_hit_from(self.objects@, ray, t_min, t_max, self.objects@.len() as int)
    }

    proof fn lemma_hit_model_window(&self, ray: Ray, t_min: int, t_max: int) {
        lemma_list_hit_from_window(
            self.objects@,
            ray,
            t_min,
            t_max,
            self.objects@.len() as int,
        );
    }

    /// The shrinking-bound scan: each primitive is queried with the window
    /// capped at the best parameter so far, so only a nearer (or equal,
    /// at the closed upper end) hit can replace it.
    fn hit(&self, ray: &Ray, t_min: i64, t_max: i64) -> (res: Option<HitRecord>) {
        let mut best: Option<HitRecord> = None;
        let mut closest: i64 = t_max;
        let mut i: usize = 0;
        while i < self.objects.len()
            invariant
                self.wf(),
                ray.wf(),
                0 <= t_min,
                t_max <= T_FAR,
                i <= self.objects@.len(),
                best == list_hit_from(self.objects@, *ray, t_min as int, t_max as int, i as int),
                closest == (match best {
                    Some(rec) => rec.t,
                    None => t_max,
                }),
                closest <= t_max,
            decreases self.objects@.len() - i,
        {
            proof {
                lemma_list_hit_from_window(
                    self.objects@,
                    *ray,
                    t_min as int,
                    t_max as int,
                    i as int,
                );
            }
            match self.objects[i].hit(ray, t_min, closest) {
                Some(h) => {
                    proof {
                        self.objects@[i as int].lemma_hit_model_window(
                            *ray,
                            t_min as int,
                            closest as int,
                        );
                    }
                    closest = h.t;
                    best = Some(h);
                },
                None => {},
            }
            i = i + 1;
        }
        best
    }
}

} // verus!
