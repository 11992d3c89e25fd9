//! Spheres: the concrete intersectable primitive, hit by closed-form
//! quadratic root-finding with the half-b substitution.

use vstd::prelude::*;
use crate::fixed::{SCALE, fmul, fdiv, fsqrt, iabs};
use crate::fixed::{
    lemma_tdiv_bound, lemma_abs_mul, lemma_scale_down_bound, tdiv_i128, isqrt_u128,
};
use crate::vec3::{Vec3, V3, v3_bounded, v3_sub, v3_div, v3_dot_wide, v3_dot, v3_ls, lemma_wide_bound};
use crate::ray::{Ray, RayV, ray_at, DIR_LIMIT, ORIGIN_LIMIT, T_LIMIT};
use crate::hittable::{Hittable, HitRecord, HitV, ray_admissible, oriented};
use crate::interval::Interval;

verus! {

/// Largest coordinate magnitude and radius a scene object may have.
pub const CENTER_LIMIT: i64 = 250_000_000;

/// An intersectable sphere.
#[derive(Clone, Copy, Debug, PartialEq, Eq, Structural)]
pub struct Sphere {
    pub center: Vec3,
    pub radius: i64,
}

/// Vector from the ray origin to the sphere center.
pub open spec fn sphere_oc(center: V3, r: RayV) -> V3 {
    v3_sub(center, r.orig)
}

/// The `a` coefficient of the half-b quadratic: the direction's squared length.
pub open spec fn sphere_qa(r: RayV) -> int {
    v3_ls(r.dir)
}

/// The `h` coefficient: direction dotted with the origin-to-center vector.
pub open spec fn sphere_qh(center: V3, r: RayV) -> int {
    v3_dot(r.dir, sphere_oc(center, r))
}

/// The `c` coefficient: squared center distance less the squared radius.
pub open spec fn sphere_qc(center: V3, radius: int, r: RayV) -> int {
    v3_ls(sphere_oc(center, r)) - fmul(radius, radius)
}

/// The discriminant `h*h - a*c` of the half-b quadratic.
pub open spec fn sphere_disc(center: V3, radius: int, r: RayV) -> int {
    fmul(sphere_qh(center, r), sphere_qh(center, r)) - fmul(sphere_qa(r), sphere_qc(center, radius, r))
}

/// The parameter at which the ray strikes the sphere inside the open window:
/// the smaller quadratic root when the window holds it, else the larger,
/// else nothing.
pub open spec fn sphere_hit_t(center: V3, radius: int, r: RayV, t_min: int, t_max: int) -> Option<
    int,
> {
    let disc = sphere_disc(center, radius, r);
    if disc < 0 {
        None
    } else {
        let sq = fsqrt(disc);
        let a = sphere_qa(r);
        let h = sphere_qh(center, r);
        let root1 = fdiv(h - sq, a);
        if t_min < root1 < t_max {
            Some(root1)
        } else {
            let root2 = fdiv(h + sq, a);
            if t_min < root2 < t_max {
                Some(root2)
            } else {
                None
            }
        }
    }
}

/// The record a sphere reports for a hit at parameter `t`: the hit point, and
/// the outward normal `(p - center) / radius` oriented against the ray.
pub open spec fn sphere_hit_record(center: V3, radius: int, r: RayV, t: int) -> HitV {
    let p = ray_at(r, t);
    let outward = v3_div(v3_sub(p, center), radius);
    let ori = oriented(r.dir, outward);
    HitV { p, normal: ori.0, t, front_face: ori.1 }
}

impl Sphere {
    /// A sphere within the world bounds, of positive radius.
    pub fn new(center: Vec3, radius: i64) -> (s: Self)
        requires
            v3_bounded(center@, CENTER_LIMIT as int),
            1 <= radius <= CENTER_LIMIT,
        ensures
            s.center@ == center@,
            s.radius == radius,
            s.wf(),
    {
        Sphere { center, radius }
    }
}

/// Bounds on every intermediate of the intersection arithmetic, for an
/// admissible ray against a well-formed sphere.
proof fn lemma_quad_bounds(center: V3, radius: int, r: RayV, t_min: int, t_max: int)
    requires
        v3_bounded(center, CENTER_LIMIT as int),
        1 <= radius <= CENTER_LIMIT,
        ray_admissible(r, t_min, t_max),
    ensures
        v3_bounded(sphere_oc(center, r), 7_000_000_000_000),
        iabs(v3_dot_wide(r.dir, r.dir)) <= 200_000_000_000_000_000,
        iabs(v3_dot_wide(r.dir, sphere_oc(center, r))) <= 6_000_000_000_000_000_000_000,
        iabs(v3_dot_wide(sphere_oc(center, r), sphere_oc(center, r)))
            <= 150_000_000_000_000_000_000_000_000,
        iabs(radius * radius) <= 100_000_000_000_000_000,
        0 <= sphere_qa(r) <= 200_000_000_000,
        iabs(sphere_qh(center, r)) <= 6_000_000_000_000_000,
        iabs(sphere_qc(center, radius, r)) <= 150_000_000_000_000_000_000,
        iabs(sphere_qh(center, r) * sphere_qh(center, r))
            <= 36_000_000_000_000_000_000_000_000_000_000,
        iabs(sphere_qa(r) * sphere_qc(center, radius, r))
            <= 30_000_000_000_000_000_000_000_000_000_000,
        iabs(sphere_disc(center, radius, r)) <= 66_000_000_000_000_000_000_000_000,
{
    let oc = sphere_oc(center, r);
    assert(v3_bounded(oc, 7_000_000_000_000));
    lemma_wide_bound(r.dir, r.dir, DIR_LIMIT as int, DIR_LIMIT as int);
    assert(3 * ((DIR_LIMIT as int) * (DIR_LIMIT as int)) == 187_500_000_000_000_000int)
        by (nonlinear_arith)
        requires
            DIR_LIMIT == 250_000_000i64,
    ;
    lemma_wide_bound(r.dir, oc, DIR_LIMIT as int, 7_000_000_000_000int);
    assert(3 * ((DIR_LIMIT as int) * 7_000_000_000_000int) == 5_250_000_000_000_000_000_000int)
        by (nonlinear_arith)
        requires
            DIR_LIMIT == 250_000_000i64,
    ;
    lemma_wide_bound(oc, oc, 7_000_000_000_000int, 7_000_000_000_000int);
    assert(3 * (7_000_000_000_000int * 7_000_000_000_000int)
        == 147_000_000_000_000_000_000_000_000int) by (nonlinear_arith);
    lemma_abs_mul(radius, radius, CENTER_LIMIT as int, CENTER_LIMIT as int);
    assert((CENTER_LIMIT as int) * (CENTER_LIMIT as int) == 62_500_000_000_000_000int)
        by (nonlinear_arith)
        requires
            CENTER_LIMIT == 250_000_000i64,
    ;
    lemma_scale_down_bound(v3_dot_wide(r.dir, r.dir), 200_000_000_000int);
    assert(200_000_000_000int * (SCALE as int) == 200_000_000_000_000_000int) by (nonlinear_arith)
        requires
            SCALE == 1_000_000i64,
    ;
    lemma_tdiv_bound(v3_dot_wide(r.dir, r.dir), SCALE as int);
    lemma_scale_down_bound(v3_dot_wide(r.dir, oc), 6_000_000_000_000_000int);
    assert(6_000_000_000_000_000int * (SCALE as int) == 6_000_000_000_000_000_000_000int)
        by (nonlinear_arith)
        requires
            SCALE == 1_000_000i64,
    ;
    lemma_scale_down_bound(v3_dot_wide(oc, oc), 147_000_000_000_000_000_000int);
    assert(147_000_000_000_000_000_000int * (SCALE as int)
        == 147_000_000_000_000_000_000_000_000int) by (nonlinear_arith)
        requires
            SCALE == 1_000_000i64,
    ;
    lemma_scale_down_bound(radius * radius, 100_000_000_000int);
    assert(100_000_000_000int * (SCALE as int) == 100_000_000_000_000_000int) by (nonlinear_arith)
        requires
            SCALE == 1_000_000i64,
    ;
    lemma_abs_mul(sphere_qh(center, r), sphere_qh(center, r), 6_000_000_000_000_000int,
        6_000_000_000_000_000int);
    assert(6_000_000_000_000_000int * 6_000_000_000_000_000int
        == 36_000_000_000_000_000_000_000_000_000_000int) by (nonlinear_arith);
    lemma_abs_mul(sphere_qa(r), sphere_qc(center, radius, r), 200_000_000_000int,
        150_000_000_000_000_000_000int);
    assert(200_000_000_000int * 150_000_000_000_000_000_000int
        == 30_000_000_000_000_000_000_000_000_000_000int) by (nonlinear_arith);
    lemma_scale_down_bound(sphere_qh(center, r) * sphere_qh(center, r),
        36_000_000_000_000_000_000_000_000int);
    assert(36_000_000_000_000_000_000_000_000int * (SCALE as int)
        == 36_000_000_000_000_000_000_000_000_000_000int) by (nonlinear_arith)
        requires
            SCALE == 1_000_000i64,
    ;
    lemma_scale_down_bound(sphere_qa(r) * sphere_qc(center, radius, r),
        30_000_000_000_000_000_000_000_000int);
    assert(30_000_000_000_000_000_000_000_000int * (SCALE as int)
        == 30_000_000_000_000_000_000_000_000_000_000int) by (nonlinear_arith)
        requires
            SCALE == 1_000_000i64,
    ;
}

impl Hittable for Sphere {
    /// The sphere's geometry fits the world bounds and its radius is positive.
    open spec fn wf(&self) -> bool {
        v3_bounded(self.center@, CENTER_LIMIT as int) && 1 <= self.radius <= CENTER_LIMIT
    }

    open spec fn hit_spec(&self, r: RayV, t_min: int, t_max: int) -> Option<HitV> {
        match sphere_hit_t(self.center@, self.radius as int, r, t_min, t_max) {
            Some(t) => Some(sphere_hit_record(self.center@, self.radius as int, r, t)),
            None => None,
        }
    }

    proof fn hit_spec_properties(&self, r: RayV, t_min: int, t_max: int) {
    }

    fn hit(&self, r: &Ray, ray_t: &Interval, rec: &mut HitRecord) -> (b: bool) {
        proof {
            lemma_quad_bounds(self.center@, self.radius as int, r@, ray_t.min as int,
                ray_t.max as int);
        }
        let oc: Vec3 = self.center.sub(r.origin);
        proof {
            lemma_wide_bound(r@.dir, r@.dir, DIR_LIMIT as int, DIR_LIMIT as int);
            lemma_wide_bound(r@.dir, oc@, DIR_LIMIT as int, 7_000_000_000_000int);
            lemma_wide_bound(oc@, oc@, 7_000_000_000_000int, 7_000_000_000_000int);
            assert((DIR_LIMIT as int) * (DIR_LIMIT as int) == 62_500_000_000_000_000int)
                by (nonlinear_arith)
                requires
                    DIR_LIMIT == 250_000_000i64,
            ;
            assert((DIR_LIMIT as int) * 7_000_000_000_000int == 1_750_000_000_000_000_000_000int)
                by (nonlinear_arith)
                requires
                    DIR_LIMIT == 250_000_000i64,
            ;
            assert(7_000_000_000_000int * 7_000_000_000_000int
                == 49_000_000_000_000_000_000_000_000int) by (nonlinear_arith);
        }
        let wa: i128 = Vec3::dot_wide(&r.direction, &r.direction);
        let qa: i128 = tdiv_i128(wa, SCALE as i128);
        let wh: i128 = Vec3::dot_wide(&r.direction, &oc);
        let qh: i128 = tdiv_i128(wh, SCALE as i128);
        let woc: i128 = Vec3::dot_wide(&oc, &oc);
        let rr: i128 = (self.radius as i128) * (self.radius as i128);
        let qc: i128 = tdiv_i128(woc, SCALE as i128) - tdiv_i128(rr, SCALE as i128);
        proof {
            assert(qc == sphere_qc(self.center@, self.radius as int, r@));
            lemma_abs_mul(qh as int, qh as int, 6_000_000_000_000_000int, 6_000_000_000_000_000int);
            lemma_abs_mul(qa as int, qc as int, 200_000_000_000int, 150_000_000_000_000_000_000int);
        }
        let disc: i128 = tdiv_i128(qh * qh, SCALE as i128) - tdiv_i128(qa * qc, SCALE as i128);
        if disc < 0 {
            return false;
        }
        proof {
            lemma_abs_mul(disc as int, SCALE as int, 66_000_000_000_000_000_000_000_000int,
                SCALE as int);
            assert(66_000_000_000_000_000_000_000_000int * (SCALE as int)
                == 66_000_000_000_000_000_000_000_000_000_000int) by (nonlinear_arith)
                requires
                    SCALE == 1_000_000i64,
            ;
        }
        let nsq: u128 = (disc as u128) * (SCALE as u128);
        let sq_w: u128 = isqrt_u128(nsq);
        proof {
            assert(sq_w as int <= 9_000_000_000_000_000int) by (nonlinear_arith)
                requires
                    (sq_w as int) * (sq_w as int) <= nsq as int,
                    nsq as int <= 66_000_000_000_000_000_000_000_000_000_000int,
            ;
            assert(sq_w as int == fsqrt(disc as int));
        }
        let sq: i128 = sq_w as i128;
        proof {
            lemma_abs_mul((qh - sq) as int, SCALE as int, 16_000_000_000_000_000int, SCALE as int);
            lemma_abs_mul((qh + sq) as int, SCALE as int, 16_000_000_000_000_000int, SCALE as int);
            assert(16_000_000_000_000_000int * (SCALE as int) == 16_000_000_000_000_000_000_000int)
                by (nonlinear_arith)
                requires
                    SCALE == 1_000_000i64,
            ;
        }
        let mut root: i128 = tdiv_i128((qh - sq) * (SCALE as i128), qa);
        if !((ray_t.min as i128) < root && root < (ray_t.max as i128)) {
            root = tdiv_i128((qh + sq) * (SCALE as i128), qa);
            if !((ray_t.min as i128) < root && root < (ray_t.max as i128)) {
                return false;
            }
        }
        let t: i64 = root as i64;
        proof {
            lemma_at_bounds(r@, t as int);
        }
        rec.t = t;
        rec.p = r.at(t);
        proof {
            lemma_outward_bounds(rec@.p, self.center@, self.radius as int);
        }
        let outward: Vec3 = rec.p.sub(self.center).div(self.radius);
        rec.set_face_normal(r, &outward);
        true
    }
}

/// Narrowing the parameter window never hides a closer hit: when the sphere
/// misses the narrowed window, any hit it reports in the full window lies at
/// or beyond the narrowed bound; when both windows hit, the parameters agree.
pub proof fn lemma_sphere_hit_narrow(center: V3, radius: int, r: RayV, t_min: int, m2: int, t_max: int)
    requires
        m2 <= t_max,
        sphere_qa(r) >= 1,
    ensures
        sphere_hit_t(center, radius, r, t_min, m2) is None ==> (match sphere_hit_t(center, radius,
            r, t_min, t_max) {
            Some(t) => t >= m2,
            None => true,
        }),
        sphere_hit_t(center, radius, r, t_min, m2) is Some ==> sphere_hit_t(center, radius, r,
            t_min, t_max) == sphere_hit_t(center, radius, r, t_min, m2),
{
    let disc = sphere_disc(center, radius, r);
    if disc >= 0 {
        let sq = fsqrt(disc);
        let a = sphere_qa(r);
        let h = sphere_qh(center, r);
        assert(sq >= 0);
        assert((h - sq) * (SCALE as int) <= (h + sq) * (SCALE as int)) by (nonlinear_arith)
            requires
                sq >= 0,
                SCALE == 1_000_000i64,
        ;
        crate::fixed::lemma_tdiv_mono_signed((h - sq) * (SCALE as int), (h + sq) * (SCALE as int),
            a);
        let root1 = fdiv(h - sq, a);
        let root2 = fdiv(h + sq, a);
        assert(root1 <= root2);
    }
}

/// Evaluating an admissible ray at a window parameter stays within machine
/// bounds and lands near the world.
proof fn lemma_at_bounds(r: RayV, t: int)
    requires
        v3_bounded(r.orig, ORIGIN_LIMIT as int),
        v3_bounded(r.dir, DIR_LIMIT as int),
        iabs(t) <= T_LIMIT as int,
    ensures
        iabs(fmul(r.dir.x, t)) <= 2_500_000_000_000,
        iabs(fmul(r.dir.y, t)) <= 2_500_000_000_000,
        iabs(fmul(r.dir.z, t)) <= 2_500_000_000_000,
        v3_bounded(ray_at(r, t), 8_500_000_000_000),
{
    lemma_abs_mul(r.dir.x, t, DIR_LIMIT as int, T_LIMIT as int);
    lemma_abs_mul(r.dir.y, t, DIR_LIMIT as int, T_LIMIT as int);
    lemma_abs_mul(r.dir.z, t, DIR_LIMIT as int, T_LIMIT as int);
    assert((DIR_LIMIT as int) * (T_LIMIT as int) == 2_500_000_000_000int * (SCALE as int))
        by (nonlinear_arith)
        requires
            DIR_LIMIT == 250_000_000i64,
            T_LIMIT == 10_000_000_000i64,
            SCALE == 1_000_000i64,
    ;
    lemma_scale_down_bound(r.dir.x * t, 2_500_000_000_000int);
    lemma_scale_down_bound(r.dir.y * t, 2_500_000_000_000int);
    lemma_scale_down_bound(r.dir.z * t, 2_500_000_000_000int);
}

/// The outward normal of a near-world hit point fits the machine word.
proof fn lemma_outward_bounds(p: V3, center: V3, radius: int)
    requires
        v3_bounded(p, 8_500_000_000_000),
        v3_bounded(center, CENTER_LIMIT as int),
        1 <= radius,
    ensures
        iabs(fdiv(p.x - center.x, radius)) <= 8_750_000_000_000_000_000,
        iabs(fdiv(p.y - center.y, radius)) <= 8_750_000_000_000_000_000,
        iabs(fdiv(p.z - center.z, radius)) <= 8_750_000_000_000_000_000,
{
    lemma_abs_mul(p.x - center.x, SCALE as int, 8_750_000_000_000int, SCALE as int);
    lemma_abs_mul(p.y - center.y, SCALE as int, 8_750_000_000_000int, SCALE as int);
    lemma_abs_mul(p.z - center.z, SCALE as int, 8_750_000_000_000int, SCALE as int);
    assert(8_750_000_000_000int * (SCALE as int) == 8_750_000_000_000_000_000int)
        by (nonlinear_arith)
        requires
            SCALE == 1_000_000i64,
    ;
    lemma_tdiv_bound((p.x - center.x) * (SCALE as int), radius);
    lemma_tdiv_bound((p.y - center.y) * (SCALE as int), radius);
    lemma_tdiv_bound((p.z - center.z) * (SCALE as int), radius);
}

} // verus!
