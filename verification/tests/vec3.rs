use raytrace::vec3::Vec3;

#[test]
fn x_y_z() {
    let v = Vec3::new(0, 65536, 131072);
    assert_eq!((0, 65536, 131072), (v.x(), v.y(), v.z()));
}

#[test]
fn length_test() {
    // (2, 2, 2) has squared length 12; the fixed-point root of 12 is
    // 227023 raw units (sqrt(12) = 3.4641...).
    let v = Vec3::new(131072, 131072, 131072);
    assert_eq!(v.length_squared(), 786432);
    assert_eq!(v.length(), 227023);
}

#[test]
fn dot_test_self() {
    // (1, 2, 3) . (1, 2, 3) = 14
    let v = Vec3::new(65536, 131072, 196608);
    assert_eq!(v.dot(&v.clone()), 14 * 65536);
}

#[test]
fn dot_test_other() {
    // (1, 2, 3) . (2, 3, 4) = 20
    let v1 = Vec3::new(65536, 131072, 196608);
    let v2 = Vec3::new(131072, 196608, 262144);
    assert_eq!(v1.dot(&v2), 20 * 65536);
}

#[test]
fn cross_test() {
    // (1, 2, 3) x (2, 3, 4) = (-1, 2, -1)
    let v1 = Vec3::new(65536, 131072, 196608);
    let v2 = Vec3::new(131072, 196608, 262144);
    let c = v1.cross(&v2);
    assert_eq!((c.x(), c.y(), c.z()), (-65536, 131072, -65536));
}

#[test]
fn unit_vec_exact() {
    let v = Vec3::new(0, 0, -131072);
    let u = v.unit_vec().unwrap();
    assert_eq!((u.x(), u.y(), u.z()), (0, 0, -65536));
}

#[test]
fn unit_vec_degenerate() {
    let v = Vec3::new(0, 0, 0);
    assert_eq!(v.unit_vec(), Err(raytrace::RenderError::DegenerateVector));
}

#[test]
fn random_in_unit_interval() {
    for _ in 0..200 {
        let r = raytrace::randomizer::rand_fx();
        assert!(0 <= r && r < 65536);
    }
}

#[test]
fn random_range_stays_in_range() {
    for _ in 0..200 {
        let r = raytrace::randomizer::rand_fx_range(-65536, 65536);
        assert!(-65536 <= r && r < 65536);
    }
}

#[test]
fn random_in_unit_sphere_is_inside() {
    for _ in 0..50 {
        let p = Vec3::random_in_unit_sphere();
        assert!(p.length_squared() < 65536);
    }
}

#[test]
fn random_in_hemisphere_faces_normal() {
    let n = Vec3::new(0, 0, 65536);
    for _ in 0..50 {
        let p = Vec3::random_in_hemisphere(&n);
        assert!(p.dot(&n) >= 0);
        assert!(p.length_squared() < 65536);
    }
}

#[test]
fn random_unit_vector_has_unit_length() {
    for _ in 0..50 {
        let u = Vec3::random_unit_vector();
        // A normalized fixed-point vector's length is 1 up to rounding.
        let len = u.length();
        assert!(60000 <= len && len <= 140000, "length {}", len);
    }
}
