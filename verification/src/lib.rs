//! A small Monte-Carlo ray tracer over Q47.16 fixed-point coordinates.
//!
//! Geometry (vectors, rays, spheres), nearest-hit search over a scene,
//! pinhole camera ray generation, recursive diffuse shading and 8-bit
//! colour encoding, all with exact fixed-point contracts.

use vstd::prelude::*;

pub mod camera;
pub mod color;
pub mod fixed;
pub mod hittable;
pub mod randomizer;
pub mod ray;
pub mod sphere;
pub mod vec3;

use crate::camera::Camera;
use crate::color::Color;
use crate::fixed::{SCALE, FX_DIV_BOUND, tdiv, fx_mul_spec, div_i64, lemma_mul_abs_le,
    lemma_tdiv_abs_le};
use crate::hittable::{Hittable, HittableList, T_FAR};
use crate::ray::Ray;
use crate::vec3::{Vec3, add_spec, mul_s_spec, unit_spec, lsq_spec, lemma_div_s_bound,
    lemma_length_ge_one, COORD_BOUND};

verus! {

/// The failures this library reports instead of letting degenerate
/// numerics propagate.
#[derive(Clone, Copy, Debug, PartialEq, Eq, Structural)]
pub enum RenderError {
    /// A vector too short to normalize.
    DegenerateVector,
    /// A sphere whose radius is not in the accepted positive range.
    InvalidGeometry,
    /// A render was requested with an unusable image size, sample count
    /// or recursion depth.
    InvalidConfig,
}

/// Nearest accepted hit parameter of a shading query: about `0.001`, the
/// tolerance that keeps a bounce ray from re-hitting its own surface.
pub const T_TOL: i64 = 66;

/// A radiance value every channel of which lies in `[0, 1]`.
pub open spec fn is_color(c: Vec3) -> bool {
    &&& 0 <= c.x <= SCALE
    &&& 0 <= c.y <= SCALE
    &&& 0 <= c.z <= SCALE
}

/// Full white.
pub open spec fn white_spec() -> Vec3 {
    Vec3 { x: SCALE, y: SCALE, z: SCALE }
}

/// The sky's blue: `(0.5, 0.7, 1.0)` in raw units.
pub open spec fn sky_blue_spec() -> Vec3 {
    Vec3 { x: 32768, y: 45875, z: SCALE }
}

/// The background gradient for a missed ray: white blended toward blue by
/// `0.5 * (unit_direction.y + 1)`, clamped into `[0, 1]` against
/// quantization overshoot.
pub open spec fn sky_spec(ray: Ray) -> Vec3 {
    let u = unit_spec(ray.dir);
    let t0 = tdiv(u.y + SCALE, 2);
    let t = if t0 < 0 {
        0
    } else if t0 > SCALE {
        SCALE as int
    } else {
        t0
    };
    add_spec(mul_s_spec(white_spec(), SCALE - t), mul_s_spec(sky_blue_spec(), t))
}

/// The sky gradient of a ray, or black for a direction too short to
/// normalize at this resolution.
fn sky_color(r: &Ray) -> (c: Color)
    requires
        r.wf(),
    ensures
        is_color(c),
        lsq_spec(r.dir) > 0 ==> c == sky_spec(*r),
        lsq_spec(r.dir) == 0 ==> c == (Vec3 { x: 0, y: 0, z: 0 }),
{
    proof {
        crate::vec3::lemma_lsq_bound(r.dir, COORD_BOUND as int);
    }
    match r.direction().unit_vec() {
        Err(_) => Color::new_black(),
        Ok(u) => {
            proof {
                lemma_length_ge_one(r.dir);
                lemma_div_s_bound(
                    r.dir,
                    crate::vec3::length_spec(r.dir),
                    COORD_BOUND as int,
                );
            }
            let t0 = div_i64(u.y + SCALE, 2);
            let t = if t0 < 0 {
                0
            } else if t0 > SCALE {
                SCALE
            } else {
                t0
            };
            let white = Vec3::new(SCALE, SCALE, SCALE);
            let blue = Vec3::new(32768, 45875, SCALE);
            proof {
                lemma_lerp_color_bounds(t as int);
            }
            white.mul_s(SCALE - t).add(&blue.mul_s(t))
        },
    }
}

/// The blend of white and the sky blue at weight `t` stays a colour, and
/// the white part is exact.
proof fn lemma_lerp_color_bounds(t: int)
    requires
        0 <= t <= SCALE,
    ensures
        fx_mul_spec(SCALE as int, (SCALE as int) - t) == (SCALE as int) - t,
        fx_mul_spec(SCALE as int, t) == t,
        0 <= fx_mul_spec(32768, t) <= t,
        0 <= fx_mul_spec(45875, t) <= t,
{
    vstd::arithmetic::div_mod::lemma_div_multiples_vanish((SCALE as int) - t, SCALE as int);
    vstd::arithmetic::div_mod::lemma_div_multiples_vanish(t, SCALE as int);
    lemma_mul_abs_le(32768, 32768, t, t);
    lemma_mul_abs_le(45875, 45875, t, t);
    lemma_tdiv_abs_le(32768 * t, 32768 * t, SCALE as int);
    lemma_tdiv_abs_le(45875 * t, 45875 * t, SCALE as int);
    assert(32768 * t <= (SCALE as int) * t) by (nonlinear_arith)
        requires
            0 <= t;
    assert(45875 * t <= (SCALE as int) * t) by (nonlinear_arith)
        requires
            0 <= t;
    lemma_tdiv_abs_le(32768 * t, (SCALE as int) * t, SCALE as int);
    lemma_tdiv_abs_le(45875 * t, (SCALE as int) * t, SCALE as int);
    vstd::arithmetic::mul::lemma_mul_nonnegative(32768, t);
    vstd::arithmetic::mul::lemma_mul_nonnegative(45875, t);
    vstd::arithmetic::div_mod::lemma_div_pos_is_pos(32768 * t, SCALE as int);
    vstd::arithmetic::div_mod::lemma_div_pos_is_pos(45875 * t, SCALE as int);
}

/// Halving a colour keeps every channel within half the scale.
proof fn lemma_half_color(c: Vec3)
    requires
        is_color(c),
    ensures
        0 <= fx_mul_spec(c.x as int, 32768) <= 32768,
        0 <= fx_mul_spec(c.y as int, 32768) <= 32768,
        0 <= fx_mul_spec(c.z as int, 32768) <= 32768,
{
    lemma_mul_abs_le(c.x as int, SCALE as int, 32768, 32768);
    lemma_mul_abs_le(c.y as int, SCALE as int, 32768, 32768);
    lemma_mul_abs_le(c.z as int, SCALE as int, 32768, 32768);
    lemma_tdiv_abs_le((c.x as int) * 32768, (SCALE as int) * 32768, SCALE as int);
    lemma_tdiv_abs_le((c.y as int) * 32768, (SCALE as int) * 32768, SCALE as int);
    lemma_tdiv_abs_le((c.z as int) * 32768, (SCALE as int) * 32768, SCALE as int);
    vstd::arithmetic::mul::lemma_mul_nonnegative(c.x as int, 32768);
    vstd::arithmetic::mul::lemma_mul_nonnegative(c.y as int, 32768);
    vstd::arithmetic::mul::lemma_mul_nonnegative(c.z as int, 32768);
    vstd::arithmetic::div_mod::lemma_div_pos_is_pos((c.x as int) * 32768, SCALE as int);
    vstd::arithmetic::div_mod::lemma_div_pos_is_pos((c.y as int) * 32768, SCALE as int);
    vstd::arithmetic::div_mod::lemma_div_pos_is_pos((c.z as int) * 32768, SCALE as int);
}

/// The recursive shading function. At depth `0` or below all energy is
/// absorbed: black. On a miss, the sky gradient. On a hit, a diffuse
/// bounce toward `p + normal + random-in-unit-ball`, shaded one level
/// deeper and attenuated by half.
pub fn ray_color<H: Hittable>(r: &Ray, object: &H, recursion_depth: i8) -> (c: Color)
    requires
        object.wf(),
        r.wf(),
    ensures
        is_color(c),
        recursion_depth <= 0 ==> c == (Vec3 { x: 0, y: 0, z: 0 }),
        recursion_depth > 0 && object.hit_model(*r, T_TOL as int, T_FAR as int) is None
            && lsq_spec(r.dir) > 0 ==> c == sky_spec(*r),
        recursion_depth > 0 && object.hit_model(*r, T_TOL as int, T_FAR as int) is None
            && lsq_spec(r.dir) == 0 ==> c == (Vec3 { x: 0, y: 0, z: 0 }),
        recursion_depth > 0 && object.hit_model(*r, T_TOL as int, T_FAR as int) is Some ==> c.x
            <= 32768 && c.y <= 32768 && c.z <= 32768,
    decreases recursion_depth,
{
    if recursion_depth <= 0 {
        return Color::new_black();
    }
    match object.hit(r, T_TOL, T_FAR) {
        Some(hit) => {
            proof {
                object.lemma_hit_model_window(*r, T_TOL as int, T_FAR as int);
            }
            let rnd = Vec3::random_in_unit_sphere();
            let target = hit.p.add(&hit.normal).add(&rnd);
            let bounce = Ray::new(hit.p, target.sub(&hit.p));
            let rec = ray_color(&bounce, object, recursion_depth - 1);
            proof {
                lemma_half_color(rec);
            }
            rec.mul_s(32768)
        },
        None => sky_color(r),
    }
}

/// One jittered normalized viewport coordinate: `(index + rand) / (extent - 1)`
/// in raw units.
fn jitter_coord(index: usize, extent: usize) -> (u: i64)
    requires
        2 <= extent <= 4096,
        index < extent,
    ensures
        0 <= u <= 2 * SCALE,
{
    let numer: i64 = (index as i64) * SCALE + crate::randomizer::rand_fx();
    let denom: i64 = (extent as i64) - 1;
    proof {
        vstd::arithmetic::div_mod::lemma_div_pos_is_pos(numer as int, denom as int);
        assert((numer as int) < (denom as int) * (2 * SCALE as int)) by (nonlinear_arith)
            requires
                1 <= denom as int,
                numer as int <= (denom as int) * (SCALE as int) + (SCALE as int) - 1,
                SCALE == 65536;
        vstd::arithmetic::div_mod::lemma_multiply_divide_lt(
            numer as int,
            denom as int,
            2 * SCALE as int,
        );
    }
    div_i64(numer, denom)
}

/// Render the scene: for every pixel, top scanline first and left to right
/// within a scanline, accumulate `samples_per_pixel` jittered shading
/// samples and encode them to an 8-bit RGB triplet. An unusable
/// configuration is rejected up front, exactly when the result is an error.
pub fn render(
    world: &HittableList,
    cam: &Camera,
    image_width: usize,
    image_height: usize,
    samples_per_pixel: u32,
    max_depth: i8,
) -> (out: Result<Vec<(u8, u8, u8)>, RenderError>)
    requires
        world.wf(),
        cam.wf(),
    ensures
        (out is Ok) <==> (2 <= image_width <= 4096 && 2 <= image_height <= 4096 && 1
            <= samples_per_pixel <= 0x10_0000 && 1 <= max_depth),
        out matches Ok(pixels) ==> pixels@.len() == image_width * image_height,
{
    if !(2 <= image_width && image_width <= 4096 && 2 <= image_height && image_height <= 4096 && 1
        <= samples_per_pixel && samples_per_pixel <= 0x10_0000 && 1 <= max_depth) {
        return Err(RenderError::InvalidConfig);
    }
    let mut pixels: Vec<(u8, u8, u8)> = Vec::new();
    let mut row = image_height;
    while row > 0
        invariant
            world.wf(),
            cam.wf(),
            2 <= image_width <= 4096,
            2 <= image_height <= 4096,
            1 <= samples_per_pixel <= 0x10_0000,
            1 <= max_depth,
            row <= image_height,
            pixels@.len() == ((image_height - row) as int) * (image_width as int),
        decreases row,
    {
        row = row - 1;
        let mut col: usize = 0;
        while col < image_width
            invariant
                world.wf(),
                cam.wf(),
                2 <= image_width <= 4096,
                2 <= image_height <= 4096,
                1 <= samples_per_pixel <= 0x10_0000,
                1 <= max_depth,
                row < image_height,
                col <= image_width,
                pixels@.len() == ((image_height - row - 1) as int) * (image_width as int)
                    + col as int,
            decreases image_width - col,
        {
            let mut sum_r: i64 = 0;
            let mut sum_g: i64 = 0;
            let mut sum_b: i64 = 0;
            let mut s: u32 = 0;
            while s < samples_per_pixel
                invariant
                    world.wf(),
                    cam.wf(),
                    2 <= image_width <= 4096,
                    2 <= image_height <= 4096,
                    1 <= samples_per_pixel <= 0x10_0000,
                    1 <= max_depth,
                    row < image_height,
                    col < image_width,
                    s <= samples_per_pixel,
                    0 <= sum_r <= (s as int) * (SCALE as int),
                    0 <= sum_g <= (s as int) * (SCALE as int),
                    0 <= sum_b <= (s as int) * (SCALE as int),
                decreases samples_per_pixel - s,
            {
                let u = jitter_coord(col, image_width);
                let v = jitter_coord(row, image_height);
                let sample_ray = cam.get_ray(u, v);
                let c = ray_color(&sample_ray, world, max_depth);
                sum_r = sum_r + c.x;
                sum_g = sum_g + c.y;
                sum_b = sum_b + c.z;
                s = s + 1;
            }
            let pixel_color = Vec3::new(sum_r, sum_g, sum_b);
            proof {
                assert((samples_per_pixel as int) * (SCALE as int) <= FX_DIV_BOUND)
                    by (nonlinear_arith)
                    requires
                        samples_per_pixel as int <= 0x10_0000,
                        SCALE == 65536,
                        FX_DIV_BOUND == 0x4000_0000_0000;
            }
            pixels.push(pixel_color.encode(samples_per_pixel));
            col = col + 1;
        }
        proof {
            assert(((image_height - row - 1) as int) * (image_width as int) + (image_width as int)
                == ((image_height - row) as int) * (image_width as int)) by (nonlinear_arith);
        }
    }
    proof {
        vstd::arithmetic::mul::lemma_mul_is_commutative(image_width as int, image_height as int);
    }
    Ok(pixels)
}

} // verus!
