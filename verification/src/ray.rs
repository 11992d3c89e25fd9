//! Rays: origin plus direction, evaluated by parameter.

use vstd::prelude::*;
use crate::fixed::fmul;
use crate::vec3::{Vec3, V3, v3_add, v3_scale};

verus! {

/// Largest component magnitude a ray direction may have.
pub const DIR_LIMIT: i64 = 250_000_000;

/// Largest component magnitude a ray origin may have.
pub const ORIGIN_LIMIT: i64 = 6_000_000_000_000;

/// Largest ray parameter the intersection protocol considers.
pub const T_LIMIT: i64 = 10_000_000_000;

/// Mathematical model of a ray.
pub ghost struct RayV {
    pub orig: V3,
    pub dir: V3,
}

/// The point at parameter `t` along the ray.
pub open spec fn ray_at(r: RayV, t: int) -> V3 {
    v3_add(r.orig, v3_scale(r.dir, t))
}

/// A ray: all points `origin + t * direction`.
#[derive(Clone, Copy, Debug, PartialEq, Eq, Structural)]
pub struct Ray {
    pub origin: Vec3,
    pub direction: Vec3,
}

impl View for Ray {
    type V = RayV;

    open spec fn view(&self) -> RayV {
        RayV { orig: self.origin@, dir: self.direction@ }
    }
}

impl Ray {
    pub fn new(origin: Vec3, direction: Vec3) -> (r: Ray)
        ensures
            r@.orig == origin@,
            r@.dir == direction@,
    {
        Ray { origin, direction }
    }

    /// Evaluate the ray at parameter `t`.
    pub fn at(&self, t: i64) -> (p: Vec3)
        requires
            i64::MIN <= fmul(self@.dir.x, t as int) <= i64::MAX,
            i64::MIN <= fmul(self@.dir.y, t as int) <= i64::MAX,
            i64::MIN <= fmul(self@.dir.z, t as int) <= i64::MAX,
            i64::MIN <= self@.orig.x + fmul(self@.dir.x, t as int) <= i64::MAX,
            i64::MIN <= self@.orig.y + fmul(self@.dir.y, t as int) <= i64::MAX,
            i64::MIN <= self@.orig.z + fmul(self@.dir.z, t as int) <= i64::MAX,
        ensures
            p@ == ray_at(self@, t as int),
    {
        self.origin.add(self.direction.scale(t))
    }
}

} // verus!
