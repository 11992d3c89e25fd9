//! Three-component fixed-point vectors, used for points, directions and colors.

use vstd::prelude::*;
use crate::fixed::{SCALE, fmul, fdiv, fsqrt, tdiv, iabs, fx_mul, fx_div, fx_sqrt};
use crate::fixed::{lemma_tdiv_bound, lemma_tdiv_mono, lemma_fmul_bound, lemma_sqrt_floor_bounds};
use crate::fixed::{lemma_sqrt_floor_mono, sqrt_floor};
use crate::sampler::{Sampler, fixed_unit};

verus! {

/// Largest component magnitude the general-purpose vector operations admit;
/// keeps every intermediate product inside the machine word.
pub const VEC_LIMIT: i64 = 1_000_000_000_000;

/// Largest component magnitude of a normalized scatter direction.
pub const UNIT_LIMIT: i64 = 2_000_000;

/// Mathematical model of a vector: three unbounded fixed-point components.
pub ghost struct V3 {
    pub x: int,
    pub y: int,
    pub z: int,
}

/// All three components of `a` are at most `m` in magnitude.
pub open spec fn v3_bounded(a: V3, m: int) -> bool {
    iabs(a.x) <= m && iabs(a.y) <= m && iabs(a.z) <= m
}

pub open spec fn v3_add(a: V3, b: V3) -> V3 {
    V3 { x: a.x + b.x, y: a.y + b.y, z: a.z + b.z }
}

pub open spec fn v3_sub(a: V3, b: V3) -> V3 {
    V3 { x: a.x - b.x, y: a.y - b.y, z: a.z - b.z }
}

pub open spec fn v3_neg(a: V3) -> V3 {
    V3 { x: -a.x, y: -a.y, z: -a.z }
}

/// Componentwise fixed-point product.
pub open spec fn v3_mul(a: V3, b: V3) -> V3 {
    V3 { x: fmul(a.x, b.x), y: fmul(a.y, b.y), z: fmul(a.z, b.z) }
}

/// Fixed-point scaling by a scalar.
pub open spec fn v3_scale(a: V3, k: int) -> V3 {
    V3 { x: fmul(a.x, k), y: fmul(a.y, k), z: fmul(a.z, k) }
}

/// Componentwise fixed-point division by a scalar.
pub open spec fn v3_div(a: V3, k: int) -> V3
    recommends
        k != 0,
{
    V3 { x: fdiv(a.x, k), y: fdiv(a.y, k), z: fdiv(a.z, k) }
}

/// Unscaled sum of the componentwise products: `SCALE` times the fixed-point dot product.
pub open spec fn v3_dot_wide(a: V3, b: V3) -> int {
    a.x * b.x + a.y * b.y + a.z * b.z
}

/// Fixed-point dot product.
pub open spec fn v3_dot(a: V3, b: V3) -> int {
    tdiv(v3_dot_wide(a, b), SCALE as int)
}

/// Fixed-point cross product.
pub open spec fn v3_cross(a: V3, b: V3) -> V3 {
    V3 {
        x: fmul(a.y, b.z) - fmul(a.z, b.y),
        y: fmul(a.z, b.x) - fmul(a.x, b.z),
        z: fmul(a.x, b.y) - fmul(a.y, b.x),
    }
}

/// Fixed-point squared length.
pub open spec fn v3_ls(a: V3) -> int {
    v3_dot(a, a)
}

/// Fixed-point length.
pub open spec fn v3_len(a: V3) -> int {
    fsqrt(v3_ls(a))
}

/// Fixed-point normalization: each component divided by the length.
pub open spec fn v3_unit(a: V3) -> V3
    recommends
        v3_len(a) > 0,
{
    v3_div(a, v3_len(a))
}

/// What one component of `random_range` is when every draw is the fixed value.
pub open spec fn range_fixed(min: int, max: int, c: u32) -> int {
    min + fmul(max - min, fixed_unit(c))
}

/// What the rejection sampler yields when every draw is the fixed value: the
/// one candidate it can produce if that candidate is acceptable, else the
/// fallback direction strictly inside the unit ball.
pub open spec fn unit_sphere_fixed(c: u32) -> V3 {
    let t = range_fixed(-(SCALE as int), SCALE as int, c);
    let p = V3 { x: t, y: t, z: t };
    if 250_000 <= v3_ls(p) < 1_000_000 {
        p
    } else {
        V3 { x: 0, y: 0, z: 999_000 }
    }
}

/// What `random_unit_vector` yields when every draw is the fixed value.
pub open spec fn unit_vector_fixed(c: u32) -> V3 {
    v3_unit(unit_sphere_fixed(c))
}

/// What `random_on_hemisphere` yields when every draw is the fixed value.
pub open spec fn hemisphere_fixed(c: u32, n: V3) -> V3 {
    let u = unit_vector_fixed(c);
    if v3_dot_wide(u, n) > 0 {
        u
    } else {
        v3_neg(u)
    }
}

/// A vector of three fixed-point components.
#[derive(Clone, Copy, Debug, PartialEq, Eq, Structural)]
pub struct Vec3 {
    pub e0: i64,
    pub e1: i64,
    pub e2: i64,
}

impl View for Vec3 {
    type V = V3;

    open spec fn view(&self) -> V3 {
        V3 { x: self.e0 as int, y: self.e1 as int, z: self.e2 as int }
    }
}

impl Vec3 {
    /// The zero vector.
    pub fn default() -> (r: Self)
        ensures
            r@ == (V3 { x: 0, y: 0, z: 0 }),
    {
        Self { e0: 0, e1: 0, e2: 0 }
    }

    pub fn new(e0: i64, e1: i64, e2: i64) -> (r: Self)
        ensures
            r@ == (V3 { x: e0 as int, y: e1 as int, z: e2 as int }),
    {
        Self { e0, e1, e2 }
    }

    pub fn x(&self) -> (r: i64)
        ensures
            r == self@.x,
    {
        self.e0
    }

    pub fn y(&self) -> (r: i64)
        ensures
            r == self@.y,
    {
        self.e1
    }

    pub fn z(&self) -> (r: i64)
        ensures
            r == self@.z,
    {
        self.e2
    }

    /// Component lookup; callers must stay inside the three components.
    pub fn index(&self, i: usize) -> (r: i64)
        requires
            i < 3,
        ensures
            i == 0 ==> r == self@.x,
            i == 1 ==> r == self@.y,
            i == 2 ==> r == self@.z,
    {
        if i == 0 {
            self.e0
        } else if i == 1 {
            self.e1
        } else {
            self.e2
        }
    }

    /// Checked component lookup: an index past the third component is
    /// answered with the out-of-range condition, never with a value.
    pub fn get(&self, i: usize) -> (r: Option<i64>)
        ensures
            i == 0 ==> r == Some(self@.x as i64),
            i == 1 ==> r == Some(self@.y as i64),
            i == 2 ==> r == Some(self@.z as i64),
            i >= 3 ==> r is None,
    {
        if i == 0 {
            Some(self.e0)
        } else if i == 1 {
            Some(self.e1)
        } else if i == 2 {
            Some(self.e2)
        } else {
            None
        }
    }

    /// Replace one component.
    pub fn set(&mut self, i: usize, v: i64)
        requires
            i < 3,
        ensures
            i == 0 ==> final(self)@ == (V3 { x: v as int, ..old(self)@ }),
            i == 1 ==> final(self)@ == (V3 { y: v as int, ..old(self)@ }),
            i == 2 ==> final(self)@ == (V3 { z: v as int, ..old(self)@ }),
    {
        if i == 0 {
            self.e0 = v;
        } else if i == 1 {
            self.e1 = v;
        } else {
            self.e2 = v;
        }
    }

    pub fn add(self, rhs: Vec3) -> (r: Vec3)
        requires
            i64::MIN <= self@.x + rhs@.x <= i64::MAX,
            i64::MIN <= self@.y + rhs@.y <= i64::MAX,
            i64::MIN <= self@.z + rhs@.z <= i64::MAX,
        ensures
            r@ == v3_add(self@, rhs@),
    {
        Vec3 { e0: self.e0 + rhs.e0, e1: self.e1 + rhs.e1, e2: self.e2 + rhs.e2 }
    }

    pub fn add_assign(&mut self, rhs: Vec3)
        requires
            i64::MIN <= old(self)@.x + rhs@.x <= i64::MAX,
            i64::MIN <= old(self)@.y + rhs@.y <= i64::MAX,
            i64::MIN <= old(self)@.z + rhs@.z <= i64::MAX,
        ensures
            final(self)@ == v3_add(old(self)@, rhs@),
    {
        self.e0 = self.e0 + rhs.e0;
        self.e1 = self.e1 + rhs.e1;
        self.e2 = self.e2 + rhs.e2;
    }

    pub fn sub(self, rhs: Vec3) -> (r: Vec3)
        requires
            i64::MIN <= self@.x - rhs@.x <= i64::MAX,
            i64::MIN <= self@.y - rhs@.y <= i64::MAX,
            i64::MIN <= self@.z - rhs@.z <= i64::MAX,
        ensures
            r@ == v3_sub(self@, rhs@),
    {
        Vec3 { e0: self.e0 - rhs.e0, e1: self.e1 - rhs.e1, e2: self.e2 - rhs.e2 }
    }

    pub fn sub_assign(&mut self, rhs: Vec3)
        requires
            i64::MIN <= old(self)@.x - rhs@.x <= i64::MAX,
            i64::MIN <= old(self)@.y - rhs@.y <= i64::MAX,
            i64::MIN <= old(self)@.z - rhs@.z <= i64::MAX,
        ensures
            final(self)@ == v3_sub(old(self)@, rhs@),
    {
        self.e0 = self.e0 - rhs.e0;
        self.e1 = self.e1 - rhs.e1;
        self.e2 = self.e2 - rhs.e2;
    }

    pub fn neg(self) -> (r: Vec3)
        requires
            self@.x > i64::MIN,
            self@.y > i64::MIN,
            self@.z > i64::MIN,
        ensures
            r@ == v3_neg(self@),
    {
        Vec3 { e0: -self.e0, e1: -self.e1, e2: -self.e2 }
    }

    /// Componentwise fixed-point product.
    pub fn mul(self, rhs: Vec3) -> (r: Vec3)
        requires
            i64::MIN <= fmul(self@.x, rhs@.x) <= i64::MAX,
            i64::MIN <= fmul(self@.y, rhs@.y) <= i64::MAX,
            i64::MIN <= fmul(self@.z, rhs@.z) <= i64::MAX,
        ensures
            r@ == v3_mul(self@, rhs@),
    {
        Vec3 {
            e0: fx_mul(self.e0, rhs.e0),
            e1: fx_mul(self.e1, rhs.e1),
            e2: fx_mul(self.e2, rhs.e2),
        }
    }

    pub fn mul_assign(&mut self, rhs: Vec3)
        requires
            i64::MIN <= fmul(old(self)@.x, rhs@.x) <= i64::MAX,
            i64::MIN <= fmul(old(self)@.y, rhs@.y) <= i64::MAX,
            i64::MIN <= fmul(old(self)@.z, rhs@.z) <= i64::MAX,
        ensures
            final(self)@ == v3_mul(old(self)@, rhs@),
    {
        self.e0 = fx_mul(self.e0, rhs.e0);
        self.e1 = fx_mul(self.e1, rhs.e1);
        self.e2 = fx_mul(self.e2, rhs.e2);
    }

    /// Fixed-point scaling by a scalar.
    pub fn scale(self, k: i64) -> (r: Vec3)
        requires
            i64::MIN <= fmul(self@.x, k as int) <= i64::MAX,
            i64::MIN <= fmul(self@.y, k as int) <= i64::MAX,
            i64::MIN <= fmul(self@.z, k as int) <= i64::MAX,
        ensures
            r@ == v3_scale(self@, k as int),
    {
        Vec3 { e0: fx_mul(self.e0, k), e1: fx_mul(self.e1, k), e2: fx_mul(self.e2, k) }
    }

    /// Componentwise fixed-point division by a scalar.
    pub fn div(self, k: i64) -> (r: Vec3)
        requires
            k != 0,
            i64::MIN <= fdiv(self@.x, k as int) <= i64::MAX,
            i64::MIN <= fdiv(self@.y, k as int) <= i64::MAX,
            i64::MIN <= fdiv(self@.z, k as int) <= i64::MAX,
        ensures
            r@ == v3_div(self@, k as int),
    {
        Vec3 { e0: fx_div(self.e0, k), e1: fx_div(self.e1, k), e2: fx_div(self.e2, k) }
    }

    pub fn length_squared(&self) -> (r: i64)
        requires
            v3_bounded(self@, VEC_LIMIT as int),
        ensures
            r == v3_ls(self@),
            0 <= r <= 3_000_000_000_000_000_000,
    {
        proof {
            lemma_wide_self_bound(self@, VEC_LIMIT as int);
            lemma_vec_limit_square();
        }
        let w: i128 = (self.e0 as i128) * (self.e0 as i128) + (self.e1 as i128) * (self.e1 as i128)
            + (self.e2 as i128) * (self.e2 as i128);
        let r: i128 = crate::fixed::tdiv_i128(w, SCALE as i128);
        proof {
            lemma_tdiv_mono(v3_dot_wide(self@, self@), 3_000_000_000_000_000_000_000_000int,
                SCALE as int);
            lemma_tdiv_bound(v3_dot_wide(self@, self@), SCALE as int);
        }
        r as i64
    }

    pub fn length(&self) -> (r: i64)
        requires
            v3_bounded(self@, VEC_LIMIT as int),
        ensures
            r == v3_len(self@),
            r >= 0,
    {
        let ls = self.length_squared();
        fx_sqrt(ls)
    }

    /// Fixed-point dot product of two bounded vectors.
    pub fn dot(lhs: &Vec3, rhs: &Vec3) -> (r: i64)
        requires
            v3_bounded(lhs@, VEC_LIMIT as int),
            v3_bounded(rhs@, VEC_LIMIT as int),
        ensures
            r == v3_dot(lhs@, rhs@),
    {
        proof {
            lemma_wide_bound(lhs@, rhs@, VEC_LIMIT as int, VEC_LIMIT as int);
            lemma_vec_limit_square();
        }
        let w: i128 = (lhs.e0 as i128) * (rhs.e0 as i128) + (lhs.e1 as i128) * (rhs.e1 as i128)
            + (lhs.e2 as i128) * (rhs.e2 as i128);
        let r: i128 = crate::fixed::tdiv_i128(w, SCALE as i128);
        proof {
            lemma_tdiv_bound(v3_dot_wide(lhs@, rhs@), SCALE as int);
        }
        r as i64
    }

    /// The unscaled dot product, on the wide machine word. Serves the
    /// intersection arithmetic, whose intermediates outgrow the narrow word.
    pub fn dot_wide(lhs: &Vec3, rhs: &Vec3) -> (r: i128)
        requires
            iabs(lhs@.x * rhs@.x) + iabs(lhs@.y * rhs@.y) + iabs(lhs@.z * rhs@.z) <= i128::MAX
                as int,
        ensures
            r == v3_dot_wide(lhs@, rhs@),
    {
        (lhs.e0 as i128) * (rhs.e0 as i128) + (lhs.e1 as i128) * (rhs.e1 as i128) + (lhs.e2
            as i128) * (rhs.e2 as i128)
    }

    /// Fixed-point cross product of two bounded vectors.
    pub fn cross(lhs: &Vec3, rhs: &Vec3) -> (r: Vec3)
        requires
            v3_bounded(lhs@, VEC_LIMIT as int),
            v3_bounded(rhs@, VEC_LIMIT as int),
        ensures
            r@ == v3_cross(lhs@, rhs@),
    {
        proof {
            lemma_fmul_bound(lhs@.y, rhs@.z, VEC_LIMIT as int, VEC_LIMIT as int);
            lemma_fmul_bound(lhs@.z, rhs@.y, VEC_LIMIT as int, VEC_LIMIT as int);
            lemma_fmul_bound(lhs@.z, rhs@.x, VEC_LIMIT as int, VEC_LIMIT as int);
            lemma_fmul_bound(lhs@.x, rhs@.z, VEC_LIMIT as int, VEC_LIMIT as int);
            lemma_fmul_bound(lhs@.x, rhs@.y, VEC_LIMIT as int, VEC_LIMIT as int);
            lemma_fmul_bound(lhs@.y, rhs@.x, VEC_LIMIT as int, VEC_LIMIT as int);
        }
        Vec3 {
            e0: fx_mul(lhs.e1, rhs.e2) - fx_mul(lhs.e2, rhs.e1),
            e1: fx_mul(lhs.e2, rhs.e0) - fx_mul(lhs.e0, rhs.e2),
            e2: fx_mul(lhs.e0, rhs.e1) - fx_mul(lhs.e1, rhs.e0),
        }
    }

    /// Normalize a vector. Vectors too short to carry a direction at this
    /// resolution are rejected up front rather than silently degenerating.
    pub fn unit_vector(v: Vec3) -> (r: Vec3)
        requires
            v3_bounded(v@, VEC_LIMIT as int),
            v3_ls(v@) >= 1,
        ensures
            r@ == v3_unit(v@),
            v3_len(v@) >= 1000,
    {
        let ls = v.length_squared();
        let len = fx_sqrt(ls);
        proof {
            lemma_len_lower(v3_ls(v@));
            lemma_tdiv_bound(v@.x * (SCALE as int), v3_len(v@));
            lemma_tdiv_bound(v@.y * (SCALE as int), v3_len(v@));
            lemma_tdiv_bound(v@.z * (SCALE as int), v3_len(v@));
            lemma_wide_abs(v@.x, SCALE as int, VEC_LIMIT as int, SCALE as int);
            lemma_wide_abs(v@.y, SCALE as int, VEC_LIMIT as int, SCALE as int);
            lemma_wide_abs(v@.z, SCALE as int, VEC_LIMIT as int, SCALE as int);
        }
        v.div(len)
    }

    /// Each component drawn uniformly from `[0, 1)`.
    pub fn random(sampler: &Sampler) -> (r: Vec3)
        ensures
            0 <= r@.x < SCALE && 0 <= r@.y < SCALE && 0 <= r@.z < SCALE,
            sampler.is_fixed() ==> r@ == (V3 {
                x: fixed_unit(sampler.fixed_seed()),
                y: fixed_unit(sampler.fixed_seed()),
                z: fixed_unit(sampler.fixed_seed()),
            }),
    {
        Vec3 { e0: sampler.next_unit(), e1: sampler.next_unit(), e2: sampler.next_unit() }
    }

    /// Each component drawn uniformly from `[min, max]`.
    pub fn random_range(min: i64, max: i64, sampler: &Sampler) -> (r: Vec3)
        requires
            -VEC_LIMIT <= min <= max <= VEC_LIMIT,
        ensures
            min <= r@.x <= max && min <= r@.y <= max && min <= r@.z <= max,
            v3_bounded(r@, VEC_LIMIT as int),
            sampler.is_fixed() ==> r@ == (V3 {
                x: range_fixed(min as int, max as int, sampler.fixed_seed()),
                y: range_fixed(min as int, max as int, sampler.fixed_seed()),
                z: range_fixed(min as int, max as int, sampler.fixed_seed()),
            }),
    {
        let d: i64 = max - min;
        let u0 = sampler.next_unit();
        let u1 = sampler.next_unit();
        let u2 = sampler.next_unit();
        proof {
            lemma_scaled_unit_range(d as int, u0 as int);
            lemma_scaled_unit_range(d as int, u1 as int);
            lemma_scaled_unit_range(d as int, u2 as int);
        }
        Vec3 { e0: min + fx_mul(d, u0), e1: min + fx_mul(d, u1), e2: min + fx_mul(d, u2) }
    }

    /// Rejection-sample a direction strictly inside the unit ball. Candidates
    /// too short to normalize cleanly are rejected along with those outside
    /// the ball, and after too many rejections a fixed direction just inside
    /// the ball stands in.
    pub fn random_in_unit_sphere(sampler: &Sampler) -> (r: Vec3)
        ensures
            v3_bounded(r@, SCALE as int),
            250_000 <= v3_ls(r@) < 1_000_000,
            sampler.is_fixed() ==> r@ == unit_sphere_fixed(sampler.fixed_seed()),
    {
        let mut attempts: u32 = 0;
        while attempts < 64
            invariant
                sampler.is_fixed() && attempts > 0 ==> fixed_draw_rejected(sampler.fixed_seed()),
            decreases 64 - attempts,
        {
            let p = Self::random_range(-SCALE, SCALE, sampler);
            let ls = p.length_squared();
            if 250_000 <= ls && ls < 1_000_000 {
                return p;
            }
            attempts = attempts + 1;
        }
        proof {
            lemma_fallback_ls();
        }
        Vec3 { e0: 0, e1: 0, e2: 999_000 }
    }

    /// A direction of unit length up to normalization error, drawn by
    /// normalizing a rejection sample.
    pub fn random_unit_vector(sampler: &Sampler) -> (r: Vec3)
        ensures
            v3_bounded(r@, UNIT_LIMIT as int),
            iabs(v3_ls(r@) - SCALE as int) <= 15,
            sampler.is_fixed() ==> r@ == unit_vector_fixed(sampler.fixed_seed()),
    {
        let p = Self::random_in_unit_sphere(sampler);
        proof {
            lemma_unit_of_sample_bounded(p@);
            lemma_unit_vector_length(p@);
        }
        Self::unit_vector(p)
    }

    /// A unit direction (up to normalization error) in the half-space around
    /// `normal`: the drawn direction, flipped when it points against `normal`.
    pub fn random_on_hemisphere(normal: &Vec3, sampler: &Sampler) -> (r: Vec3)
        ensures
            v3_bounded(r@, UNIT_LIMIT as int),
            iabs(v3_ls(r@) - SCALE as int) <= 15,
            v3_dot_wide(r@, normal@) >= 0,
            sampler.is_fixed() ==> r@ == hemisphere_fixed(sampler.fixed_seed(), normal@),
    {
        let u = Self::random_unit_vector(sampler);
        proof {
            lemma_wide_bound(u@, normal@, UNIT_LIMIT as int, 0x8000_0000_0000_0000);
            lemma_neg_flip(u@, normal@);
        }
        let w: i128 = (u.e0 as i128) * (normal.e0 as i128) + (u.e1 as i128) * (normal.e1 as i128)
            + (u.e2 as i128) * (normal.e2 as i128);
        if w > 0 {
            u
        } else {
            u.neg()
        }
    }
}

/// With a fixed sampler, the one candidate the rejection sampler can draw was
/// found unacceptable.
pub open spec fn fixed_draw_rejected(c: u32) -> bool {
    let t = range_fixed(-(SCALE as int), SCALE as int, c);
    let p = V3 { x: t, y: t, z: t };
    !(250_000 <= v3_ls(p) < 1_000_000)
}

/// The fallback direction lies strictly inside the unit ball.
proof fn lemma_fallback_ls()
    ensures
        v3_ls(V3 { x: 0, y: 0, z: 999_000 }) == 998_001,
{
    assert(999_000int * 999_000int == 998_001_000_000int) by (nonlinear_arith);
    crate::fixed::lemma_tdiv_exact(998_001int, SCALE as int);
    assert(998_001int * (SCALE as int) == 998_001_000_000int) by (nonlinear_arith)
        requires
            SCALE == 1_000_000i64,
    ;
}

/// Scaling a nonnegative span by a unit-interval sample stays within the span.
proof fn lemma_scaled_unit_range(d: int, u: int)
    requires
        0 <= d,
        0 <= u < SCALE,
    ensures
        0 <= fmul(d, u) <= d,
{
    assert(0 <= d * u && d * u <= d * (SCALE as int)) by (nonlinear_arith)
        requires
            0 <= d,
            0 <= u < SCALE,
    ;
    lemma_tdiv_mono(d * u, d * (SCALE as int), SCALE as int);
    vstd::arithmetic::div_mod::lemma_div_multiples_vanish(d, SCALE as int);
    assert(d * (SCALE as int) == (SCALE as int) * d) by (nonlinear_arith);
}

/// Normalizing a rejection sample keeps every component within two units.
proof fn lemma_unit_of_sample_bounded(p: V3)
    requires
        v3_bounded(p, SCALE as int),
        250_000 <= v3_ls(p),
    ensures
        v3_bounded(v3_unit(p), UNIT_LIMIT as int),
        v3_len(p) >= 500_000,
{
    lemma_sqrt_floor_mono(250_000_000_000nat, (v3_ls(p) * (SCALE as int)) as nat);
    assert(v3_ls(p) * (SCALE as int) >= 250_000_000_000) by (nonlinear_arith)
        requires
            v3_ls(p) >= 250_000,
            SCALE == 1_000_000i64,
    ;
    assert(sqrt_floor(250_000_000_000nat) == 500_000) by {
        lemma_sqrt_floor_bounds(250_000_000_000nat);
        crate::fixed::lemma_sqrt_floor_unique(250_000_000_000nat, 500_000nat);
        assert(500_000nat * 500_000nat == 250_000_000_000nat) by (nonlinear_arith);
        assert(500_001nat * 500_001nat > 250_000_000_000nat) by (nonlinear_arith);
    }
    let len = v3_len(p);
    lemma_tdiv_bound(p.x * (SCALE as int), len);
    lemma_tdiv_bound(p.y * (SCALE as int), len);
    lemma_tdiv_bound(p.z * (SCALE as int), len);
    lemma_wide_abs(p.x, SCALE as int, SCALE as int, SCALE as int);
    lemma_wide_abs(p.y, SCALE as int, SCALE as int, SCALE as int);
    lemma_wide_abs(p.z, SCALE as int, SCALE as int, SCALE as int);
    assert((SCALE as int) * (SCALE as int) == 1_000_000_000_000int) by (nonlinear_arith)
        requires
            SCALE == 1_000_000i64,
    ;
    vstd::arithmetic::div_mod::lemma_div_is_ordered_by_denominator(1_000_000_000_000int, 500_000int,
        len);
    vstd::arithmetic::div_mod::lemma_div_is_ordered(iabs(p.x * (SCALE as int)),
        1_000_000_000_000int, len);
    vstd::arithmetic::div_mod::lemma_div_is_ordered(iabs(p.y * (SCALE as int)),
        1_000_000_000_000int, len);
    vstd::arithmetic::div_mod::lemma_div_is_ordered(iabs(p.z * (SCALE as int)),
        1_000_000_000_000int, len);
}

/// Negating one operand negates the wide dot product and keeps squared length.
proof fn lemma_neg_flip(a: V3, b: V3)
    ensures
        v3_dot_wide(v3_neg(a), b) == -v3_dot_wide(a, b),
        v3_ls(v3_neg(a)) == v3_ls(a),
{
    assert((-a.x) * b.x == -(a.x * b.x) && (-a.y) * b.y == -(a.y * b.y) && (-a.z) * b.z == -(a.z
        * b.z)) by (nonlinear_arith);
    assert((-a.x) * (-a.x) == a.x * a.x && (-a.y) * (-a.y) == a.y * a.y && (-a.z) * (-a.z) == a.z
        * a.z) by (nonlinear_arith);
}

/// The square of the general component limit, as a literal the solver can use.
pub proof fn lemma_vec_limit_square()
    ensures
        (VEC_LIMIT as int) * (VEC_LIMIT as int) == 1_000_000_000_000_000_000_000_000int,
{
    assert((VEC_LIMIT as int) * (VEC_LIMIT as int) == 1_000_000_000_000_000_000_000_000int)
        by (nonlinear_arith)
        requires
            VEC_LIMIT == 1_000_000_000_000i64,
    ;
}

/// The wide dot product of vectors bounded by `ma` and `mb` is at most `3 * ma * mb`.
pub proof fn lemma_wide_bound(a: V3, b: V3, ma: int, mb: int)
    requires
        v3_bounded(a, ma),
        v3_bounded(b, mb),
    ensures
        iabs(v3_dot_wide(a, b)) <= 3 * (ma * mb),
        iabs(a.x * b.x) <= ma * mb,
        iabs(a.y * b.y) <= ma * mb,
        iabs(a.z * b.z) <= ma * mb,
{
    assert(iabs(a.x * b.x) <= ma * mb && iabs(a.y * b.y) <= ma * mb && iabs(a.z * b.z) <= ma * mb)
        by (nonlinear_arith)
        requires
            iabs(a.x) <= ma && iabs(a.y) <= ma && iabs(a.z) <= ma,
            iabs(b.x) <= mb && iabs(b.y) <= mb && iabs(b.z) <= mb,
    ;
}

/// The wide dot product of a vector with itself is nonnegative and bounded.
pub proof fn lemma_wide_self_bound(a: V3, m: int)
    requires
        v3_bounded(a, m),
    ensures
        0 <= a.x * a.x <= m * m,
        0 <= a.y * a.y <= m * m,
        0 <= a.z * a.z <= m * m,
        0 <= v3_dot_wide(a, a) <= 3 * (m * m),
        v3_ls(a) >= 0,
{
    lemma_wide_bound(a, a, m, m);
    assert(a.x * a.x >= 0 && a.y * a.y >= 0 && a.z * a.z >= 0) by (nonlinear_arith);
    lemma_tdiv_bound(v3_dot_wide(a, a), SCALE as int);
}

/// Magnitude bound for a product of bounded factors.
proof fn lemma_wide_abs(a: int, b: int, ma: int, mb: int)
    requires
        iabs(a) <= ma,
        iabs(b) <= mb,
    ensures
        iabs(a * b) <= ma * mb,
{
    assert(iabs(a * b) <= ma * mb) by (nonlinear_arith)
        requires
            iabs(a) <= ma,
            iabs(b) <= mb,
    ;
}

/// A positive squared length gives a length of at least one thousandth unit.
pub proof fn lemma_len_lower(ls: int)
    requires
        ls >= 1,
    ensures
        fsqrt(ls) >= 1000,
{
    lemma_sqrt_floor_bounds((ls * (SCALE as int)) as nat);
    let s = crate::fixed::sqrt_floor((ls * (SCALE as int)) as nat);
    assert(ls * (SCALE as int) >= SCALE as int) by (nonlinear_arith)
        requires
            ls >= 1,
    ;
    if s < 1000 {
        assert((s + 1) * (s + 1) <= 1000 * 1000) by (nonlinear_arith)
            requires
                s + 1 <= 1000,
        ;
    }
}

/// One normalized component distorts the squared length by at most the
/// truncation error of its division.
proof fn lemma_comp_err(w: int, len: int)
    requires
        len >= 1,
        iabs(w) <= (len + 1) * (SCALE as int),
    ensures
        iabs((tdiv(w, len) * tdiv(w, len)) * (len * len) - w * w) <= 2 * ((len + 1) * (SCALE
            as int)) * (len - 1) + (len - 1) * (len - 1),
{
    crate::fixed::lemma_trunc_rem(w, len);
    let q = tdiv(w, len);
    let r = w - q * len;
    assert((q * q) * (len * len) == (w - r) * (w - r)) by (nonlinear_arith)
        requires
            r == w - q * len,
    ;
    assert(iabs((w - r) * (w - r) - w * w) <= 2 * ((len + 1) * (SCALE as int)) * (len - 1) + (len
        - 1) * (len - 1)) by (nonlinear_arith)
        requires
            iabs(r) <= len - 1,
            iabs(w) <= (len + 1) * (SCALE as int),
            len >= 1,
    ;
}

/// Normalizing any representable vector whose squared length is at least a
/// quarter yields a vector whose squared length is one, up to a relative
/// error of a few fixed-point units; shorter vectors lose too much precision
/// to the truncated division for any such bound.
pub proof fn lemma_unit_vector_length(v: V3)
    requires
        v3_bounded(v, VEC_LIMIT as int),
        v3_ls(v) >= 250_000,
    ensures
        iabs(v3_ls(v3_unit(v)) - SCALE as int) <= 15,
        iabs(v3_len(v3_unit(v)) - SCALE as int) <= 8,
{
    let s = SCALE as int;
    let rw = v3_dot_wide(v, v);
    lemma_wide_self_bound(v, VEC_LIMIT as int);
    lemma_vec_limit_square();
    let ls = tdiv(rw, s);
    vstd::arithmetic::div_mod::lemma_fundamental_div_mod(rw, s);
    vstd::arithmetic::div_mod::lemma_mod_bound(rw, s);
    assert(ls * s <= rw && rw - ls * s <= s - 1 && rw >= 250_000 * s) by (nonlinear_arith)
        requires
            ls == rw / s,
            s == 1_000_000,
            rw == s * (rw / s) + rw % s,
            0 <= rw % s < s,
            ls >= 250_000,
    ;
    let n = (ls * s) as nat;
    lemma_sqrt_floor_bounds(n);
    let len = sqrt_floor(n) as int;
    assert(v3_len(v) == len);
    assert(len * len <= ls * s && ls * s < (len + 1) * (len + 1));
    lemma_sqrt_floor_mono(250_000_000_000nat, n);
    assert(500_000nat * 500_000nat == 250_000_000_000nat && 500_001nat * 500_001nat
        > 250_000_000_000nat) by (nonlinear_arith);
    crate::fixed::lemma_sqrt_floor_unique(250_000_000_000nat, 500_000nat);
    assert((ls * s) as nat >= 250_000_000_000nat) by (nonlinear_arith)
        requires
            ls >= 250_000,
            s == 1_000_000,
    ;
    assert(len >= 500_000 && 2 * len >= s);
    assert(len <= 2_000_000_000_000) by (nonlinear_arith)
        requires
            len * len <= ls * s,
            ls * s <= rw,
            rw <= 3_000_000_000_000_000_000_000_000,
            len >= 0,
    ;
    assert(rw < len * len + 2 * len + s) by (nonlinear_arith)
        requires
            rw - ls * s <= s - 1,
            ls * s < (len + 1) * (len + 1),
    ;
    assert(v.x * v.x <= rw && v.y * v.y <= rw && v.z * v.z <= rw);
    assert(iabs(v.x) <= len + 1 && iabs(v.y) <= len + 1 && iabs(v.z) <= len + 1)
        by (nonlinear_arith)
        requires
            v.x * v.x <= rw,
            v.y * v.y <= rw,
            v.z * v.z <= rw,
            rw < len * len + 2 * len + s,
            2 * len >= s,
            s == 1_000_000,
    ;
    assert(iabs(v.x * s) <= (len + 1) * s && iabs(v.y * s) <= (len + 1) * s && iabs(v.z * s) <= (len
        + 1) * s) by (nonlinear_arith)
        requires
            iabs(v.x) <= len + 1,
            iabs(v.y) <= len + 1,
            iabs(v.z) <= len + 1,
            s == 1_000_000,
    ;
    lemma_comp_err(v.x * s, len);
    lemma_comp_err(v.y * s, len);
    lemma_comp_err(v.z * s, len);
    let u = v3_unit(v);
    assert(u.x == tdiv(v.x * s, len) && u.y == tdiv(v.y * s, len) && u.z == tdiv(v.z * s, len));
    let uw = v3_dot_wide(u, u);
    assert(iabs(uw * (len * len) - (s * s) * rw) <= 7 * s * (len * len)) by (nonlinear_arith)
        requires
            iabs((u.x * u.x) * (len * len) - (v.x * s) * (v.x * s)) <= 2 * ((len + 1) * s) * (len
                - 1) + (len - 1) * (len - 1),
            iabs((u.y * u.y) * (len * len) - (v.y * s) * (v.y * s)) <= 2 * ((len + 1) * s) * (len
                - 1) + (len - 1) * (len - 1),
            iabs((u.z * u.z) * (len * len) - (v.z * s) * (v.z * s)) <= 2 * ((len + 1) * s) * (len
                - 1) + (len - 1) * (len - 1),
            uw == u.x * u.x + u.y * u.y + u.z * u.z,
            rw == v.x * v.x + v.y * v.y + v.z * v.z,
            len >= 1,
            s == 1_000_000,
    ;
    assert((s * s - 7 * s) * (len * len) <= uw * (len * len) && uw * (len * len) <= (s * s + 15 * s)
        * (len * len)) by (nonlinear_arith)
        requires
            iabs(uw * (len * len) - (s * s) * rw) <= 7 * s * (len * len),
            len * len <= rw,
            rw < len * len + 2 * len + s,
            2 * len >= s,
            s == 1_000_000,
    ;
    assert(s * s - 7 * s <= uw && uw <= s * s + 15 * s) by (nonlinear_arith)
        requires
            (s * s - 7 * s) * (len * len) <= uw * (len * len),
            uw * (len * len) <= (s * s + 15 * s) * (len * len),
            len >= 1,
    ;
    lemma_tdiv_mono(s * s - 7 * s, uw, s);
    lemma_tdiv_mono(uw, s * s + 15 * s, s);
    crate::fixed::lemma_tdiv_exact(s - 7, s);
    crate::fixed::lemma_tdiv_exact(s + 15, s);
    assert((s - 7) * s == s * s - 7 * s && (s + 15) * s == s * s + 15 * s) by (nonlinear_arith);
    let lsu = v3_ls(u);
    assert(s - 7 <= lsu <= s + 15);
    lemma_sqrt_floor_mono(((s - 7) * s) as nat, (lsu * s) as nat);
    lemma_sqrt_floor_mono((lsu * s) as nat, ((s + 15) * s) as nat);
    lemma_sqrt_floor_bounds(((s - 7) * s) as nat);
    lemma_sqrt_floor_bounds(((s + 15) * s) as nat);
    assert((lsu * s) as nat >= ((s - 7) * s) as nat && (lsu * s) as nat <= ((s + 15) * s) as nat)
        by (nonlinear_arith)
        requires
            s - 7 <= lsu <= s + 15,
            s == 1_000_000,
    ;
    let lo = sqrt_floor(((s - 7) * s) as nat) as int;
    let hi = sqrt_floor(((s + 15) * s) as nat) as int;
    assert(lo >= s - 8 && hi <= s + 7) by (nonlinear_arith)
        requires
            lo * lo <= (s - 7) * s,
            (s - 7) * s < (lo + 1) * (lo + 1),
            hi * hi <= (s + 15) * s,
            (s + 15) * s < (hi + 1) * (hi + 1),
            lo >= 0,
            hi >= 0,
            s == 1_000_000,
    ;
    assert(v3_len(u) == sqrt_floor((lsu * s) as nat) as int);
}

/// The dot product does not depend on the order of its operands.
pub proof fn lemma_dot_symmetric(a: V3, b: V3)
    ensures
        v3_dot(a, b) == v3_dot(b, a),
{
    assert(v3_dot_wide(a, b) == v3_dot_wide(b, a)) by (nonlinear_arith);
}

/// Fixed-point multiplication does not depend on the order of its operands.
pub proof fn lemma_fmul_comm(a: int, b: int)
    ensures
        fmul(a, b) == fmul(b, a),
{
    assert(a * b == b * a) by (nonlinear_arith);
}

/// Swapping the operands of the cross product negates it.
pub proof fn lemma_cross_antisymmetric(a: V3, b: V3)
    ensures
        v3_cross(a, b) == v3_neg(v3_cross(b, a)),
{
    lemma_fmul_comm(a.y, b.z);
    lemma_fmul_comm(a.z, b.y);
    lemma_fmul_comm(a.z, b.x);
    lemma_fmul_comm(a.x, b.z);
    lemma_fmul_comm(a.x, b.y);
    lemma_fmul_comm(a.y, b.x);
}

/// The cross product of a vector with itself is the zero vector.
pub proof fn lemma_cross_self(a: V3)
    ensures
        v3_cross(a, a) == (V3 { x: 0, y: 0, z: 0 }),
{
    lemma_fmul_comm(a.y, a.z);
    lemma_fmul_comm(a.z, a.x);
    lemma_fmul_comm(a.x, a.y);
}

} // verus!
