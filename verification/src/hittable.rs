//! The intersection protocol: hit records and the capability every
//! intersectable scene object satisfies.

use vstd::prelude::*;
use crate::fixed::iabs;
use crate::vec3::{Vec3, V3, v3_bounded, v3_dot_wide, v3_neg, v3_ls, lemma_wide_bound};
use crate::ray::{Ray, RayV, ray_at, DIR_LIMIT, ORIGIN_LIMIT, T_LIMIT};
use crate::interval::Interval;

verus! {

/// Mathematical model of a hit record.
pub ghost struct HitV {
    pub p: V3,
    pub normal: V3,
    pub t: int,
    pub front_face: bool,
}

/// The closest intersection found so far: the hit point, the surface normal
/// oriented against the incoming ray, the ray parameter, and which side of
/// the surface was struck.
#[derive(Clone, Copy, Debug, PartialEq, Eq, Structural)]
pub struct HitRecord {
    pub p: Vec3,
    pub normal: Vec3,
    pub t: i64,
    pub front_face: bool,
}

impl View for HitRecord {
    type V = HitV;

    open spec fn view(&self) -> HitV {
        HitV { p: self.p@, normal: self.normal@, t: self.t as int, front_face: self.front_face }
    }
}

/// How a hit record orients a candidate outward normal: against the incoming
/// ray, by the sign of the exact (unscaled) dot product.
pub open spec fn oriented(dir: V3, outward: V3) -> (V3, bool) {
    let ff = v3_dot_wide(dir, outward) < 0;
    (if ff {
        outward
    } else {
        v3_neg(outward)
    }, ff)
}

impl HitRecord {
    pub fn new(p: Vec3, normal: Vec3, t: i64, front_face: bool) -> (r: Self)
        ensures
            r@ == (HitV { p: p@, normal: normal@, t: t as int, front_face }),
    {
        Self { p, normal, t, front_face }
    }

    pub fn default() -> (r: Self)
        ensures
            r@ == (HitV {
                p: V3 { x: 0, y: 0, z: 0 },
                normal: V3 { x: 0, y: 0, z: 0 },
                t: 0,
                front_face: false,
            }),
    {
        Self { p: Vec3::new(0, 0, 0), normal: Vec3::new(0, 0, 0), t: 0, front_face: false }
    }

    /// Store `outward_normal` oriented against the incoming ray: the record's
    /// normal always opposes the ray direction, whichever side was struck.
    pub fn set_face_normal(&mut self, r: &Ray, outward_normal: &Vec3)
        requires
            v3_bounded(r@.dir, DIR_LIMIT as int),
            outward_normal@.x > i64::MIN,
            outward_normal@.y > i64::MIN,
            outward_normal@.z > i64::MIN,
        ensures
            final(self)@.p == old(self)@.p,
            final(self)@.t == old(self)@.t,
            final(self)@.front_face == (v3_dot_wide(r@.dir, outward_normal@) < 0),
            final(self)@.normal == oriented(r@.dir, outward_normal@).0,
    {
        proof {
            lemma_wide_bound(r@.dir, outward_normal@, DIR_LIMIT as int, 0x8000_0000_0000_0000);
        }
        let w: i128 = (r.direction.e0 as i128) * (outward_normal.e0 as i128) + (r.direction.e1
            as i128) * (outward_normal.e1 as i128) + (r.direction.e2 as i128) * (outward_normal.e2
            as i128);
        self.front_face = w < 0;
        if self.front_face {
            self.normal = *outward_normal;
        } else {
            self.normal = outward_normal.neg();
        }
    }
}

/// A ray and parameter window the intersection protocol admits: the ray fits
/// the world bounds, its direction is long enough to carry a direction at
/// this resolution, and the window lies within the considered span.
pub open spec fn ray_admissible(r: RayV, t_min: int, t_max: int) -> bool {
    &&& v3_bounded(r.orig, ORIGIN_LIMIT as int)
    &&& v3_bounded(r.dir, DIR_LIMIT as int)
    &&& v3_ls(r.dir) >= 1
    &&& -(T_LIMIT as int) <= t_min
    &&& t_max <= T_LIMIT as int
}

/// The capability of anything a ray can intersect.
pub trait Hittable: Sized {
    /// The object's geometry fits the world bounds.
    spec fn wf(&self) -> bool;

    /// The intersection the object reports for `r` within the open parameter
    /// window `(t_min, t_max)`, if any.
    spec fn hit_spec(&self, r: RayV, t_min: int, t_max: int) -> Option<HitV>;

    /// A reported hit lies strictly inside the supplied window, and its point
    /// is the ray evaluated at the reported parameter.
    proof fn hit_spec_properties(&self, r: RayV, t_min: int, t_max: int)
        requires
            self.wf(),
            ray_admissible(r, t_min, t_max),
        ensures
            self.hit_spec(r, t_min, t_max) is Some ==> {
                let h = self.hit_spec(r, t_min, t_max)->Some_0;
                &&& t_min < h.t < t_max
                &&& h.p == ray_at(r, h.t)
            },
    ;

    /// Report the closest intersection inside the open window `(ray_t.min,
    /// ray_t.max)`, filling `rec` exactly on a hit and leaving it untouched
    /// on a miss.
    fn hit(&self, r: &Ray, ray_t: &Interval, rec: &mut HitRecord) -> (b: bool)
        requires
            self.wf(),
            ray_admissible(r@, ray_t.min as int, ray_t.max as int),
        ensures
            b == (self.hit_spec(r@, ray_t.min as int, ray_t.max as int) is Some),
            b ==> final(rec)@ == self.hit_spec(r@, ray_t.min as int, ray_t.max as int)->Some_0,
            !b ==> final(rec)@ == old(rec)@,
    ;
}

} // verus!
