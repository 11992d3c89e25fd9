use raytracer::vec3::Vec3;

/// One real unit in the library's fixed-point representation.
const S: i64 = 1_000_000;

fn fx(x: f64) -> i64 {
    (x * 1_000_000.0).round() as i64
}

#[test]
fn test_default() {
    let v = Vec3::default();
    assert_eq!((v.e0, v.e1, v.e2), (0, 0, 0));
}

#[test]
fn test_new() {
    let v = Vec3::new(fx(1.0), fx(2.0), fx(3.0));
    assert_eq!((v.e0, v.e1, v.e2), (fx(1.0), fx(2.0), fx(3.0)));
}

#[test]
fn test_x() {
    let v = Vec3::new(fx(1.0), fx(2.0), fx(3.0));
    assert_eq!(v.x(), fx(1.0));
}

#[test]
fn test_y() {
    let v = Vec3::new(fx(1.0), fx(2.0), fx(3.0));
    assert_eq!(v.y(), fx(2.0));
}

#[test]
fn test_z() {
    let v = Vec3::new(fx(1.0), fx(2.0), fx(3.0));
    assert_eq!(v.z(), fx(3.0));
}

#[test]
fn test_length() {
    let v = Vec3::new(fx(3.0), fx(4.0), fx(0.0));
    assert_eq!(v.length(), fx(5.0));

    let u = Vec3::new(fx(1.0), fx(2.0), fx(2.0));
    assert!((u.length() - fx(3.0)).abs() <= 1);
}

#[test]
fn test_length_squared() {
    let v = Vec3::new(fx(3.0), fx(4.0), fx(0.0));
    assert_eq!(v.length_squared(), fx(25.0));

    let u = Vec3::new(fx(1.0), fx(2.0), fx(2.0));
    assert!((u.length_squared() - fx(9.0)).abs() <= 1);
}

#[test]
fn test_dot() {
    // Orthogonal vectors
    let v = Vec3::new(fx(1.0), fx(0.0), fx(0.0));
    let u = Vec3::new(fx(0.0), fx(1.0), fx(0.0));
    assert_eq!(Vec3::dot(&v, &u), 0, "Dot product of orthogonal vectors is not zero");

    // Parallel vectors
    let v = Vec3::new(fx(1.0), fx(2.0), fx(3.0));
    let u = Vec3::new(fx(2.0), fx(4.0), fx(6.0));
    assert_eq!(Vec3::dot(&v, &u), fx(28.0), "Dot product of parallel vectors is incorrect");

    // Anti-parallel vectors
    let v = Vec3::new(fx(1.0), fx(2.0), fx(3.0));
    let u = Vec3::new(fx(-1.0), fx(-2.0), fx(-3.0));
    assert_eq!(Vec3::dot(&v, &u), fx(-14.0), "Dot product of anti-parallel vectors is incorrect");

    // Vectors with zero components
    let v = Vec3::new(fx(1.0), fx(0.0), fx(0.0));
    let u = Vec3::new(fx(0.0), fx(2.0), fx(0.0));
    assert_eq!(Vec3::dot(&v, &u), 0, "Dot product with zero components is incorrect");

    // Dot is symmetric
    let v = Vec3::new(fx(1.5), fx(-2.25), fx(3.0));
    let u = Vec3::new(fx(4.0), fx(0.5), fx(-6.75));
    assert_eq!(Vec3::dot(&v, &u), Vec3::dot(&u, &v));
}

#[test]
fn test_cross() {
    // Orthogonal vectors
    let v = Vec3::new(fx(1.0), fx(0.0), fx(0.0));
    let u = Vec3::new(fx(0.0), fx(1.0), fx(0.0));
    let cross_product = Vec3::cross(&v, &u);
    assert_eq!(
        (cross_product.e0, cross_product.e1, cross_product.e2),
        (0, 0, fx(1.0)),
        "Cross product of orthogonal vectors is incorrect"
    );

    // Parallel vectors
    let v = Vec3::new(fx(1.0), fx(2.0), fx(3.0));
    let u = Vec3::new(fx(2.0), fx(4.0), fx(6.0));
    let cross_product = Vec3::cross(&v, &u);
    assert_eq!(
        (cross_product.e0, cross_product.e1, cross_product.e2),
        (0, 0, 0),
        "Cross product of parallel vectors is not zero vector"
    );

    // Anti-parallel vectors
    let v = Vec3::new(fx(1.0), fx(2.0), fx(3.0));
    let u = Vec3::new(fx(-1.0), fx(-2.0), fx(-3.0));
    let cross_product = Vec3::cross(&v, &u);
    assert_eq!(
        (cross_product.e0, cross_product.e1, cross_product.e2),
        (0, 0, 0),
        "Cross product of anti-parallel vectors is not zero vector"
    );

    // Vectors with zero components
    let v = Vec3::new(fx(1.0), fx(0.0), fx(0.0));
    let u = Vec3::new(fx(0.0), fx(0.0), fx(1.0));
    let cross_product = Vec3::cross(&v, &u);
    assert_eq!(
        (cross_product.e0, cross_product.e1, cross_product.e2),
        (0, fx(-1.0), 0),
        "Cross product with zero components is incorrect"
    );

    // Swapping the operands negates the cross product
    let v = Vec3::new(fx(1.25), fx(-2.0), fx(0.5));
    let u = Vec3::new(fx(3.0), fx(4.5), fx(-1.0));
    let vu = Vec3::cross(&v, &u);
    let uv = Vec3::cross(&u, &v);
    assert_eq!((vu.e0, vu.e1, vu.e2), (-uv.e0, -uv.e1, -uv.e2));

    // Cross of a vector with itself vanishes
    let w = Vec3::cross(&v, &v);
    assert_eq!((w.e0, w.e1, w.e2), (0, 0, 0));
}

#[test]
fn test_unit_vector() {
    let v = Vec3::new(fx(3.0), fx(4.0), fx(0.0));
    let unit_v = Vec3::unit_vector(v);
    assert!((unit_v.length() - S).abs() <= 2, "Length of unit vector is not 1");
    assert!((unit_v.x() - fx(0.6)).abs() <= 2, "Unit vector x component incorrect");
    assert!((unit_v.y() - fx(0.8)).abs() <= 2, "Unit vector y component incorrect");
    assert!((unit_v.z() - fx(0.0)).abs() <= 2, "Unit vector z component incorrect");

    // Length is close to one even for skew directions
    let u = Vec3::new(fx(1.0), fx(2.0), fx(2.0));
    let unit_u = Vec3::unit_vector(u);
    assert!(
        (unit_u.length_squared() - S).abs() <= 1_000,
        "Length of unit vector is not 1 for skew vector"
    );
}

#[test]
fn test_index() {
    let v = Vec3::new(fx(1.0), fx(2.0), fx(3.0));
    assert_eq!(v.index(0), fx(1.0));
    assert_eq!(v.index(1), fx(2.0));
    assert_eq!(v.index(2), fx(3.0));
}

#[test]
fn test_index_mut() {
    let mut v = Vec3::new(fx(1.0), fx(2.0), fx(3.0));
    v.set(0, fx(4.0));
    v.set(1, fx(5.0));
    v.set(2, fx(6.0));
    assert_eq!(v.index(0), fx(4.0));
    assert_eq!(v.index(1), fx(5.0));
    assert_eq!(v.index(2), fx(6.0));
}

#[test]
fn test_index_range() {
    let v = Vec3::new(fx(1.0), fx(2.0), fx(3.0));
    let fields = [v.e0, v.e1, v.e2];
    for i in 0..3 {
        assert_eq!(v.index(i), fields[i]);
    }
}

#[test]
fn test_index_mut_range() {
    let mut v = Vec3::new(fx(1.0), fx(2.0), fx(3.0));
    for i in 0..3 {
        let c = v.index(i);
        v.set(i, c + fx(1.0));
    }
    assert_eq!(v.index(0), fx(2.0));
    assert_eq!(v.index(1), fx(3.0));
    assert_eq!(v.index(2), fx(4.0));
}

#[test]
fn test_mul_f64_vec3() {
    let v = Vec3::new(fx(1.0), fx(2.0), fx(3.0));
    let scaled_v = v.scale(fx(2.0));
    assert_eq!((scaled_v.e0, scaled_v.e1, scaled_v.e2), (fx(2.0), fx(4.0), fx(6.0)));
}

#[test]
fn test_mul_vec3_f64() {
    let v = Vec3::new(fx(1.0), fx(2.0), fx(3.0));
    let scaled_v = v.scale(fx(2.0));
    assert_eq!((scaled_v.e0, scaled_v.e1, scaled_v.e2), (fx(2.0), fx(4.0), fx(6.0)));
}

#[test]
fn test_mul_zero() {
    let v = Vec3::new(fx(1.0), fx(2.0), fx(3.0));
    let scaled_v1 = v.scale(0);
    let scaled_v2 = v.scale(0);
    assert_eq!((scaled_v1.e0, scaled_v1.e1, scaled_v1.e2), (0, 0, 0));
    assert_eq!((scaled_v2.e0, scaled_v2.e1, scaled_v2.e2), (0, 0, 0));
}

#[test]
fn test_mul_negative() {
    let v = Vec3::new(fx(1.0), fx(2.0), fx(3.0));
    let scaled_v1 = v.scale(fx(-1.0));
    let scaled_v2 = v.scale(fx(-1.0));
    assert_eq!((scaled_v1.e0, scaled_v1.e1, scaled_v1.e2), (fx(-1.0), fx(-2.0), fx(-3.0)));
    assert_eq!((scaled_v2.e0, scaled_v2.e1, scaled_v2.e2), (fx(-1.0), fx(-2.0), fx(-3.0)));
}

#[test]
fn test_mul_fraction() {
    let v = Vec3::new(fx(1.0), fx(2.0), fx(3.0));
    let scaled_v1 = v.scale(fx(0.5));
    let scaled_v2 = v.scale(fx(0.5));
    assert_eq!((scaled_v1.e0, scaled_v1.e1, scaled_v1.e2), (fx(0.5), fx(1.0), fx(1.5)));
    assert_eq!((scaled_v2.e0, scaled_v2.e1, scaled_v2.e2), (fx(0.5), fx(1.0), fx(1.5)));
}
