//! The pinhole camera: fixed viewport constants, and the map from
//! normalized viewport coordinates to world-space rays.

use vstd::prelude::*;
use crate::vec3::{Vec3, add_spec, sub_spec, mul_s_spec, lemma_mul_s_bound, COORD_BOUND};
use crate::ray::Ray;
use crate::fixed::{SCALE, fx_div, fx_mul};

verus! {

/// Component magnitude of the camera's derived vectors.
pub const CAMERA_BOUND: i64 = 0x10_0000;

/// A pinhole camera at the origin, looking along `-z`, for a 16:9 aspect
/// ratio, a viewport 2 world units high and a focal length of 1.
#[derive(Clone, Copy, Debug, PartialEq, Eq, Structural)]
pub struct Camera {
    pub origin: Vec3,
    pub horizontal: Vec3,
    pub vertical: Vec3,
    pub lower_left_corner: Vec3,
}

/// The direction of the ray through viewport coordinates `(u, v)`:
/// `lower_left_corner + u * horizontal + v * vertical - origin`.
pub open spec fn ray_dir_spec(cam: Camera, u: int, v: int) -> Vec3 {
    sub_spec(
        add_spec(
            add_spec(cam.lower_left_corner, mul_s_spec(cam.horizontal, u)),
            mul_s_spec(cam.vertical, v),
        ),
        cam.origin,
    )
}

impl Camera {
    /// All derived vectors within the camera volume.
    pub open spec fn wf(&self) -> bool {
        &&& self.origin.abs_le(CAMERA_BOUND as int)
        &&& self.horizontal.abs_le(CAMERA_BOUND as int)
        &&& self.vertical.abs_le(CAMERA_BOUND as int)
        &&& self.lower_left_corner.abs_le(CAMERA_BOUND as int)
    }

    /// Derive the viewport from the fixed constants. The resulting
    /// vectors are pinned exactly: the viewport is `2` high, `32/9` wide,
    /// and the lower-left corner sits one focal length along `-z`.
    pub fn new() -> (c: Camera)
        ensures
            c.origin == (Vec3 { x: 0, y: 0, z: 0 }),
            c.horizontal == (Vec3 { x: 233016, y: 0, z: 0 }),
            c.vertical == (Vec3 { x: 0, y: 131072, z: 0 }),
            c.lower_left_corner == (Vec3 { x: -116508i64, y: -65536i64, z: -65536i64 }),
            c.wf(),
    {
        let aspect_ratio = fx_div(16 * SCALE, 9 * SCALE);
        let viewport_height = 2 * SCALE;
        let viewport_width = fx_mul(viewport_height, aspect_ratio);
        let focal_length = SCALE;
        let origin = Vec3::new(0, 0, 0);
        let horizontal = Vec3::new(viewport_width, 0, 0);
        let vertical = Vec3::new(0, viewport_height, 0);
        let half_h = fx_div(viewport_width, 2 * SCALE);
        let half_v = fx_div(viewport_height, 2 * SCALE);
        let lower_left_corner = Vec3::new(-half_h, -half_v, -focal_length);
        Camera { origin, horizontal, vertical, lower_left_corner }
    }

    /// The ray from the camera origin through viewport coordinates
    /// `(u, v)`, each normalized to about `[0, 1]` (jitter may nudge them
    /// slightly past 1).
    pub fn get_ray(&self, u: i64, v: i64) -> (r: Ray)
        requires
            self.wf(),
            0 <= u <= 2 * SCALE,
            0 <= v <= 2 * SCALE,
        ensures
            r.orig == self.origin,
            r.dir == ray_dir_spec(*self, u as int, v as int),
            r.wf(),
    {
        proof {
            lemma_mul_s_bound(self.horizontal, u as int, CAMERA_BOUND as int, 2 * SCALE as int);
            lemma_mul_s_bound(self.vertical, v as int, CAMERA_BOUND as int, 2 * SCALE as int);
        }
        let dir = self.lower_left_corner.add(&self.horizontal.mul_s(u)).add(
            &self.vertical.mul_s(v),
        ).sub(&self.origin);
        Ray::new(self.origin, dir)
    }
}

} // verus!
