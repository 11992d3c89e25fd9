use raytracer::camera::Camera;
use raytracer::hittable::{HitRecord, Hittable};
use raytracer::hittable_list::HittableList;
use raytracer::interval::Interval;
use raytracer::ray::{Ray, T_LIMIT};
use raytracer::sampler::Sampler;
use raytracer::sphere::Sphere;
use raytracer::vec3::Vec3;

/// One real unit in the library's fixed-point representation.
const S: i64 = 1_000_000;

fn two_sphere_scene() -> HittableList {
    let mut world = HittableList::new();
    world.add(Sphere::new(Vec3::new(0, 0, -S), S / 2));
    world.add(Sphere::new(Vec3::new(0, -100 * S - S / 2, -S), 100 * S));
    world
}

#[test]
fn test_interval_endpoints() {
    let iv = Interval::new(-2 * S, 3 * S);
    assert!(iv.contains(-2 * S));
    assert!(iv.contains(3 * S));
    assert!(iv.contains(0));
    assert!(!iv.surrounds(-2 * S));
    assert!(!iv.surrounds(3 * S));
    assert!(iv.surrounds(0));
    assert_eq!(iv.size(), 5 * S);
}

#[test]
fn test_interval_clamp() {
    let iv = Interval::new(0, 999_000);
    assert_eq!(iv.clamp(-5), 0);
    assert_eq!(iv.clamp(1_500_000), 999_000);
    assert_eq!(iv.clamp(123_456), 123_456);
    assert!(iv.contains(iv.clamp(i64::MIN)));
    assert!(iv.contains(iv.clamp(i64::MAX)));
}

#[test]
fn test_interval_default_empty() {
    let iv = Interval::default();
    assert!(!iv.contains(0));
    assert!(!iv.contains(S));
    assert!(!iv.surrounds(0));
}

#[test]
fn test_ray_at() {
    let r = Ray::new(Vec3::new(S, 0, 0), Vec3::new(0, 0, -S));
    let p = r.at(S / 2);
    assert_eq!((p.e0, p.e1, p.e2), (S, 0, -S / 2));
}

#[test]
fn test_vec_get_out_of_range() {
    let v = Vec3::new(1, 2, 3);
    assert_eq!(v.get(0), Some(1));
    assert_eq!(v.get(1), Some(2));
    assert_eq!(v.get(2), Some(3));
    assert_eq!(v.get(3), None);
    assert_eq!(v.get(100), None);
}

#[test]
fn test_vec_arithmetic() {
    let a = Vec3::new(S, 2 * S, 3 * S);
    let b = Vec3::new(S / 2, -S, S);
    let sum = a.add(b);
    assert_eq!((sum.e0, sum.e1, sum.e2), (3 * S / 2, S, 4 * S));
    let diff = a.sub(b);
    assert_eq!((diff.e0, diff.e1, diff.e2), (S / 2, 3 * S, 2 * S));
    let prod = a.mul(b);
    assert_eq!((prod.e0, prod.e1, prod.e2), (S / 2, -2 * S, 3 * S));
    let quot = a.div(2 * S);
    assert_eq!((quot.e0, quot.e1, quot.e2), (S / 2, S, 3 * S / 2));
    let neg = b.neg();
    assert_eq!((neg.e0, neg.e1, neg.e2), (-S / 2, S, -S));
}

#[test]
fn test_sampler_fixed_replays() {
    let s = Sampler::Fixed(123);
    assert_eq!(s.next_unit(), 123);
    assert_eq!(s.next_unit(), 123);
    let big = Sampler::Fixed(3_123_456);
    assert_eq!(big.next_unit(), 123_456);
}

#[test]
fn test_sampler_pseudo_in_unit_range() {
    let s = Sampler::Pseudo;
    let mut all_equal = true;
    let first = s.next_unit();
    for _ in 0..200 {
        let u = s.next_unit();
        assert!(0 <= u && u < S);
        if u != first {
            all_equal = false;
        }
    }
    assert!(!all_equal, "the pseudo-random source never varied over 200 draws");
}

#[test]
fn test_random_unit_vector_has_unit_length() {
    let s = Sampler::Pseudo;
    for _ in 0..50 {
        let v = Vec3::random_unit_vector(&s);
        assert!((v.length_squared() - S).abs() <= 15);
    }
}

#[test]
fn test_random_in_unit_sphere_strictly_inside() {
    let s = Sampler::Pseudo;
    for _ in 0..50 {
        let p = Vec3::random_in_unit_sphere(&s);
        let ls = p.length_squared();
        assert!(250_000 <= ls && ls < S);
    }
    // A fixed draw the sampler must reject falls back strictly inside too.
    let rejected = Vec3::random_in_unit_sphere(&Sampler::Fixed(0));
    let ls = rejected.length_squared();
    assert!(250_000 <= ls && ls < S);
}

#[test]
fn test_random_on_hemisphere_faces_normal() {
    let s = Sampler::Pseudo;
    let normal = Vec3::new(0, 0, S);
    for _ in 0..50 {
        let v = Vec3::random_on_hemisphere(&normal, &s);
        assert!(Vec3::dot(&v, &normal) >= 0);
    }
}

#[test]
fn test_sphere_hit_head_on() {
    let sphere = Sphere::new(Vec3::new(0, 0, -S), S / 2);
    let ray = Ray::new(Vec3::new(0, 0, 0), Vec3::new(0, 0, -S));
    let window = Interval::new(0, T_LIMIT);
    let mut rec = HitRecord::default();
    assert!(sphere.hit(&ray, &window, &mut rec));
    assert_eq!(rec.t, S / 2);
    assert_eq!((rec.p.e0, rec.p.e1, rec.p.e2), (0, 0, -S / 2));
    assert_eq!((rec.normal.e0, rec.normal.e1, rec.normal.e2), (0, 0, S));
    assert!(rec.front_face);
}

#[test]
fn test_sphere_miss_leaves_record() {
    let sphere = Sphere::new(Vec3::new(0, 0, -S), S / 2);
    let ray = Ray::new(Vec3::new(0, 0, 0), Vec3::new(0, S, 0));
    let window = Interval::new(0, T_LIMIT);
    let mut rec = HitRecord::new(Vec3::new(7, 7, 7), Vec3::new(7, 7, 7), 7, true);
    assert!(!sphere.hit(&ray, &window, &mut rec));
    assert_eq!(rec.t, 7);
    assert_eq!((rec.p.e0, rec.p.e1, rec.p.e2), (7, 7, 7));
}

#[test]
fn test_scene_reports_closest_hit() {
    // Two spheres overlapping in screen space at different depths: the
    // nearer one must win whichever order the scene holds them.
    let near = Sphere::new(Vec3::new(0, 0, -S), S / 4);
    let far = Sphere::new(Vec3::new(0, 0, -2 * S), S / 2);
    let ray = Ray::new(Vec3::new(0, 0, 0), Vec3::new(0, 0, -S));
    let window = Interval::new(0, T_LIMIT);

    let mut scene_a = HittableList::new();
    scene_a.add(near);
    scene_a.add(far);
    let mut rec_a = HitRecord::default();
    assert!(scene_a.hit(&ray, &window, &mut rec_a));
    assert_eq!(rec_a.t, 750_000);

    let mut scene_b = HittableList::new();
    scene_b.add(far);
    scene_b.add(near);
    let mut rec_b = HitRecord::default();
    assert!(scene_b.hit(&ray, &window, &mut rec_b));
    assert_eq!(rec_b.t, 750_000);
}

#[test]
fn test_miss_gives_exact_sky_gradient() {
    // A ray that misses every sphere is colored by the sky gradient alone:
    // straight up, the gradient is exactly the zenith blue.
    let world = two_sphere_scene();
    let ray = Ray::new(Vec3::new(0, 0, 0), Vec3::new(0, S, 0));
    let c = Camera::ray_color(&ray, &world, 50, &Sampler::Pseudo);
    assert_eq!((c.e0, c.e1, c.e2), (500_000, 700_000, S));
}

#[test]
fn test_camera_dimensions() {
    let aspect = raytracer::fixed::fx_div(16 * S, 9 * S);
    let cam = Camera::try_new(aspect, 16, 1).unwrap();
    assert_eq!(cam.image_width, 16);
    assert_eq!(cam.image_height, 9);

    let cam_big = Camera::try_new(aspect, 512, 100).unwrap();
    assert_eq!(cam_big.image_width, 512);
    assert_eq!(cam_big.image_height, 288);

    assert!(Camera::try_new(aspect, 0, 1).is_none());
    assert!(Camera::try_new(aspect, 16, 0).is_none());
    assert!(Camera::try_new(0, 16, 1).is_none());
}

#[test]
fn test_render_deterministic() {
    // With a fixed sampler every draw is pinned, so the raster is a function
    // of the camera and scene alone: two renders agree byte for byte.
    let world = two_sphere_scene();
    let aspect = raytracer::fixed::fx_div(16 * S, 9 * S);
    let cam = Camera::try_new(aspect, 16, 1).unwrap();
    let sampler = Sampler::Fixed(0);
    let img1 = cam.render(&world, &sampler);
    let img2 = cam.render(&world, &sampler);
    assert_eq!(img1.len(), 16 * 9);
    assert_eq!(img1, img2);
    for px in &img1 {
        assert!(px.r <= 65_469 && px.g <= 65_469 && px.b <= 65_469);
    }
}

#[test]
fn test_render_row_matches_render() {
    let world = two_sphere_scene();
    let aspect = raytracer::fixed::fx_div(16 * S, 9 * S);
    let cam = Camera::try_new(aspect, 16, 1).unwrap();
    let sampler = Sampler::Fixed(41);
    let img = cam.render(&world, &sampler);
    for j in 0..9u32 {
        let row = cam.render_row(&world, j, &sampler);
        assert_eq!(row.len(), 16);
        for i in 0..16usize {
            assert_eq!(row[i], img[j as usize * 16 + i]);
        }
    }
}
