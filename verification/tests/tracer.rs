use raytrace::vec3::Vec3;
use raytrace::ray::Ray;
use raytrace::sphere::Sphere;
use raytrace::hittable::Hittable;
use raytrace::hittable::HittableList;
use raytrace::hittable::HitRecord;
use raytrace::camera::Camera;
use raytrace::color::Color;
use raytrace::ray_color;
use raytrace::render;
use raytrace::RenderError;

const S: i64 = 65536;
const T_FAR: i64 = 0x2000_0000;
const T_TOL: i64 = 66;

fn unit_sphere_scene() -> HittableList {
    let mut world = HittableList::new();
    world.add(Sphere::new(Vec3::new(0, 0, -S), 32768).unwrap());
    world
}

#[test]
fn sphere_hit_head_on() {
    // Sphere at (0, 0, -1), radius 0.5; ray from the origin along -z:
    // hit at t = 0.5, front face, normal (0, 0, 1).
    let s = Sphere::new(Vec3::new(0, 0, -S), 32768).unwrap();
    let r = Ray::new(Vec3::new(0, 0, 0), Vec3::new(0, 0, -S));
    let rec = s.hit(&r, T_TOL, T_FAR).unwrap();
    assert_eq!(rec.t, 32768);
    assert!(rec.front_face);
    assert_eq!((rec.normal.x(), rec.normal.y(), rec.normal.z()), (0, 0, S));
    assert_eq!((rec.p.x(), rec.p.y(), rec.p.z()), (0, 0, -32768));
}

#[test]
fn sphere_miss_parallel() {
    let s = Sphere::new(Vec3::new(0, 0, -S), 32768).unwrap();
    let r = Ray::new(Vec3::new(0, 0, 0), Vec3::new(0, S, 0));
    assert!(s.hit(&r, T_TOL, T_FAR).is_none());
}

#[test]
fn nearest_of_two_overlapping_spheres() {
    // Two spheres overlapping along the ray's path: alone, the nearer one
    // hits at t = 0.5 and the farther at t = 0.75. Either insertion order
    // reports the nearer surface.
    let near = Sphere::new(Vec3::new(0, 0, -S), 32768).unwrap();
    let far = Sphere::new(Vec3::new(0, 0, -81920), 32768).unwrap();
    let r = Ray::new(Vec3::new(0, 0, 0), Vec3::new(0, 0, -S));
    assert_eq!(near.hit(&r, T_TOL, T_FAR).unwrap().t, 32768);
    assert_eq!(far.hit(&r, T_TOL, T_FAR).unwrap().t, 49152);

    let mut world_a = HittableList::new();
    world_a.add(near);
    world_a.add(far);
    let mut world_b = HittableList::new();
    world_b.add(far);
    world_b.add(near);
    assert_eq!(world_a.hit(&r, T_TOL, T_FAR).unwrap().t, 32768);
    assert_eq!(world_b.hit(&r, T_TOL, T_FAR).unwrap().t, 32768);
}

#[test]
fn set_face_normal_orients_against_ray() {
    let r = Ray::new(Vec3::new(0, 0, 0), Vec3::new(0, 0, -S));
    let outward = Vec3::new(0, 0, S);
    let mut rec = HitRecord::new(Vec3::new(0, 0, -32768), outward, 32768, false);
    rec.set_face_normal(&r, &outward);
    assert!(rec.front_face);
    assert_eq!((rec.normal.x(), rec.normal.y(), rec.normal.z()), (0, 0, S));

    let inward_ray = Ray::new(Vec3::new(0, 0, -S), Vec3::new(0, 0, S));
    rec.set_face_normal(&inward_ray, &outward);
    assert!(!rec.front_face);
    assert_eq!((rec.normal.x(), rec.normal.y(), rec.normal.z()), (0, 0, -S));
}

#[test]
fn shade_depth_zero_black() {
    // Exhausted recursion absorbs all energy, whatever the scene or ray.
    let world = unit_sphere_scene();
    let r = Ray::new(Vec3::new(0, 0, 0), Vec3::new(0, 0, -S));
    let c = ray_color(&r, &world, 0);
    assert_eq!((c.x(), c.y(), c.z()), (0, 0, 0));
    let empty = HittableList::new();
    let c2 = ray_color(&Ray::new(Vec3::new(0, 0, 0), Vec3::new(0, S, 0)), &empty, 0);
    assert_eq!((c2.x(), c2.y(), c2.z()), (0, 0, 0));
}

#[test]
fn encode_full_white() {
    let c = Vec3::new(S, S, S);
    assert_eq!(c.encode(1), (255, 255, 255));
}

#[test]
fn encode_black_any_samples() {
    let c = Color::new_black();
    assert_eq!(c.encode(1), (0, 0, 0));
    assert_eq!(c.encode(7), (0, 0, 0));
    // Negative radiance clamps to zero as well.
    let neg = Vec3::new(-S, -S, -S);
    assert_eq!(neg.encode(1), (0, 0, 0));
}

#[test]
fn encode_clamps_overrange() {
    // (2, 2, 2) at one sample clamps to full white, not an overflow.
    let c = Vec3::new(2 * S, 2 * S, 2 * S);
    assert_eq!(c.encode(1), (255, 255, 255));
}

#[test]
fn encode_gamma_half() {
    // 0.5 averages to itself, gamma-corrects to sqrt(0.5) = 0.7071...,
    // and quantizes to 181.
    let c = Vec3::new(32768, 32768, 32768);
    assert_eq!(c.encode(1), (181, 181, 181));
}

#[test]
fn encode_averages_over_samples() {
    // Two samples of full white average back to full white.
    let c = Vec3::new(2 * S, 2 * S, 2 * S);
    assert_eq!(c.encode(2), (255, 255, 255));
}

#[test]
fn camera_center_ray() {
    // The ray through the viewport centre looks straight along -z.
    let cam = Camera::new();
    let r = cam.get_ray(32768, 32768);
    assert_eq!((r.origin().x(), r.origin().y(), r.origin().z()), (0, 0, 0));
    assert_eq!((r.direction().x(), r.direction().y(), r.direction().z()), (0, 0, -S));
    let u = r.direction().unit_vec().unwrap();
    assert_eq!((u.x(), u.y(), u.z()), (0, 0, -S));
}

#[test]
fn camera_viewport_constants() {
    // 16:9 aspect ratio, viewport 2 high and 32/9 wide, focal length 1.
    let cam = Camera::new();
    assert_eq!((cam.horizontal.x(), cam.horizontal.y(), cam.horizontal.z()), (233016, 0, 0));
    assert_eq!((cam.vertical.x(), cam.vertical.y(), cam.vertical.z()), (0, 131072, 0));
    assert_eq!(
        (cam.lower_left_corner.x(), cam.lower_left_corner.y(), cam.lower_left_corner.z()),
        (-116508, -65536, -65536)
    );
}

#[test]
fn empty_scene_sky_gradient() {
    // With no primitives, shading is exactly the sky gradient of the
    // ray's normalized direction.
    let empty = HittableList::new();
    let down_z = Ray::new(Vec3::new(0, 0, 0), Vec3::new(0, 0, -S));
    let c = ray_color(&down_z, &empty, 50);
    assert_eq!((c.x(), c.y(), c.z()), (49152, 55705, 65536));

    let up = Ray::new(Vec3::new(0, 0, 0), Vec3::new(0, S, 0));
    let c_up = ray_color(&up, &empty, 50);
    assert_eq!((c_up.x(), c_up.y(), c_up.z()), (32768, 45875, 65536));

    let down = Ray::new(Vec3::new(0, 0, 0), Vec3::new(0, -S, 0));
    let c_down = ray_color(&down, &empty, 50);
    assert_eq!((c_down.x(), c_down.y(), c_down.z()), (S, S, S));

    // Through the camera centre the same holds end to end.
    let cam = Camera::new();
    let c_mid = ray_color(&cam.get_ray(32768, 32768), &empty, 50);
    assert_eq!((c_mid.x(), c_mid.y(), c_mid.z()), (49152, 55705, 65536));
}

#[test]
fn render_empty_scene() {
    // Every pixel of an empty scene is a sky colour; the sky's blue
    // channel is always exactly 1, which encodes to 255 whatever the
    // sub-pixel jitter chose.
    let empty = HittableList::new();
    let cam = Camera::new();
    let pixels = render(&empty, &cam, 4, 3, 2, 5).unwrap();
    assert_eq!(pixels.len(), 12);
    for (_r, _g, b) in pixels {
        assert_eq!(b, 255);
    }
}

#[test]
fn render_small_scene() {
    let world = unit_sphere_scene();
    let cam = Camera::new();
    let pixels = render(&world, &cam, 4, 3, 2, 8).unwrap();
    assert_eq!(pixels.len(), 12);
}

#[test]
fn sphere_rejects_bad_radius() {
    assert_eq!(
        Sphere::new(Vec3::new(0, 0, 0), 0),
        Err(RenderError::InvalidGeometry)
    );
    assert_eq!(
        Sphere::new(Vec3::new(0, 0, 0), -S),
        Err(RenderError::InvalidGeometry)
    );
}

#[test]
fn render_rejects_bad_config() {
    let world = HittableList::new();
    let cam = Camera::new();
    assert_eq!(render(&world, &cam, 1, 4, 1, 1), Err(RenderError::InvalidConfig));
    assert_eq!(render(&world, &cam, 4, 1, 1, 1), Err(RenderError::InvalidConfig));
    assert_eq!(render(&world, &cam, 4, 4, 0, 1), Err(RenderError::InvalidConfig));
    assert_eq!(render(&world, &cam, 4, 4, 1, 0), Err(RenderError::InvalidConfig));
}

#[test]
fn ray_at_midpoint() {
    let r = Ray::new(Vec3::new(S, 0, 0), Vec3::new(0, 131072, 0));
    let p = r.at(32768);
    assert_eq!((p.x(), p.y(), p.z()), (S, S, 0));
}

#[test]
fn shaded_hit_stays_in_range() {
    // A diffuse bounce attenuates by half: radiance stays in [0, 1].
    let world = unit_sphere_scene();
    let r = Ray::new(Vec3::new(0, 0, 0), Vec3::new(0, 0, -S));
    for _ in 0..20 {
        let c = ray_color(&r, &world, 10);
        assert!(0 <= c.x() && c.x() <= S);
        assert!(0 <= c.y() && c.y() <= S);
        assert!(0 <= c.z() && c.z() <= S);
        // One bounce halves the energy at least once before reaching sky.
        assert!(c.x() <= 32768);
    }
}

#[test]
fn clear_empties_the_scene() {
    let mut world = unit_sphere_scene();
    let r = Ray::new(Vec3::new(0, 0, 0), Vec3::new(0, 0, -S));
    assert!(world.hit(&r, T_TOL, T_FAR).is_some());
    world.clear();
    assert!(world.hit(&r, T_TOL, T_FAR).is_none());
}
