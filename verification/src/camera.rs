//! The camera: viewport geometry, per-pixel jittered rays, recursive shading,
//! and the render loop that averages samples into a raster.

use vstd::prelude::*;
use crate::fixed::{SCALE, fmul, fdiv, tdiv, iabs, fx_mul, fx_div};
use crate::fixed::{
    lemma_tdiv_bound, lemma_tdiv_mono, lemma_abs_mul, lemma_scale_down_bound, lemma_tdiv_exact,
};
use crate::vec3::{
    Vec3, V3, v3_bounded, v3_add, v3_sub, v3_scale, v3_unit, v3_ls, v3_len, v3_dot_wide,
    hemisphere_fixed, lemma_wide_self_bound, UNIT_LIMIT,
};
use crate::ray::{Ray, RayV, ray_at, DIR_LIMIT, ORIGIN_LIMIT, T_LIMIT};
use crate::interval::{Interval, spec_clamp};
use crate::hittable::{Hittable, HitRecord};
use crate::sampler::{Sampler, fixed_unit};

verus! {

/// One half, in fixed point.
pub const HALF: i64 = 500_000;

/// Bounce budget of the recursive shader: past it a ray contributes black.
pub const MAX_DEPTH: u32 = 50;

/// Largest component value a shaded color can have: one real unit plus
/// truncation slack.
pub const COLOR_LIMIT: i64 = 1_000_004;

/// How far one primary-ray segment can carry a hit point.
pub const FIRST_SPAN: i64 = 2_500_000_000_000;

/// How far one diffuse-bounce segment can carry a hit point.
pub const UNIT_SPAN: i64 = 20_000_000_000;

/// Upper clamp of a color channel before tone mapping.
pub const CLAMP_MAX: i64 = 999_000;

/// One output pixel: three 16-bit channels.
#[derive(Clone, Copy, Debug, PartialEq, Eq, Structural)]
pub struct Rgb16 {
    pub r: u16,
    pub g: u16,
    pub b: u16,
}

/// Every channel of the pixel is within the tone map's reach: the largest
/// clamped color spread over the channel width.
pub open spec fn channels_in_range(p: Rgb16) -> bool {
    p.r <= 65_469 && p.g <= 65_469 && p.b <= 65_469
}

/// The span a segment of ray `d` can cover before its window closes.
pub open spec fn dir_span(d: V3) -> int {
    if v3_bounded(d, UNIT_LIMIT as int) {
        UNIT_SPAN as int
    } else {
        FIRST_SPAN as int
    }
}

/// The origin leaves room for this segment and `depth` further bounces to
/// stay inside the world bounds.
pub open spec fn ray_budget(o: V3, d: V3, depth: int) -> bool {
    v3_bounded(o, (ORIGIN_LIMIT as int) - dir_span(d) - depth * (UNIT_SPAN as int))
}

/// The sky gradient: white at the horizon blended toward blue at the zenith
/// by the unit direction's height.
pub open spec fn sky_color(r: RayV) -> V3 {
    let u = v3_unit(r.dir);
    let a = fmul(HALF as int, u.y + SCALE as int);
    v3_add(
        v3_scale(V3 { x: SCALE as int, y: SCALE as int, z: SCALE as int }, SCALE as int - a),
        v3_scale(V3 { x: HALF as int, y: 700_000, z: SCALE as int }, a),
    )
}

/// What the recursive shader returns when every draw is the fixed value: on a
/// hit, half of the color of one diffuse bounce, black once the bounce budget
/// is spent; on a miss, the sky gradient.
pub open spec fn ray_color_fixed<T: Hittable>(world: &T, r: RayV, depth: int, c: u32) -> V3
    decreases depth,
{
    match world.hit_spec(r, 0, T_LIMIT as int) {
        Some(h) => {
            if depth <= 0 {
                V3 { x: 0, y: 0, z: 0 }
            } else {
                let bounce = RayV { orig: h.p, dir: hemisphere_fixed(c, h.normal) };
                v3_scale(ray_color_fixed(world, bounce, depth - 1, c), HALF as int)
            }
        },
        None => sky_color(r),
    }
}

/// One tone-mapped output channel: the color clamped to the displayable range
/// and spread linearly over the 16-bit channel width.
pub open spec fn tone_channel_spec(c: int) -> u16 {
    tdiv(spec_clamp(0, CLAMP_MAX as int, c) * 65_535, SCALE as int) as u16
}

/// The camera: viewport geometry derived once from the aspect ratio, image
/// width and sample count, never mutated afterwards.
#[derive(Clone, Copy, Debug, PartialEq, Eq, Structural)]
pub struct Camera {
    pub aspect_ratio: i64,
    pub image_width: u32,
    pub image_height: u32,
    pub center: Vec3,
    pub pixel_00_loc: Vec3,
    pub pixel_delta_u: Vec3,
    pub pixel_delta_v: Vec3,
    pub samples_per_pixel: u32,
    pub pixel_samples_scale: i64,
}

/// The image height derived from width and aspect ratio: their quotient,
/// rounded, and at least one.
pub open spec fn cam_height(aspect: int, width: int) -> int {
    let hfx = fdiv(width * (SCALE as int), aspect);
    let h = tdiv(hfx + HALF as int, SCALE as int);
    if h < 1 {
        1
    } else {
        h
    }
}

/// The width-over-height ratio of the derived image, in fixed point.
pub open spec fn cam_ratio(aspect: int, width: int) -> int {
    fdiv(width * (SCALE as int), cam_height(aspect, width) * (SCALE as int))
}

/// The viewport width: viewport height two, scaled by the image's ratio.
pub open spec fn cam_viewport_w(aspect: int, width: int) -> int {
    fmul(2 * (SCALE as int), cam_ratio(aspect, width))
}

/// The per-pixel horizontal step: the viewport width split over the columns.
pub open spec fn cam_delta_u(aspect: int, width: int) -> V3 {
    V3 { x: fdiv(cam_viewport_w(aspect, width), width * (SCALE as int)), y: 0, z: 0 }
}

/// The per-pixel vertical step: the viewport height, pointing down, split
/// over the rows.
pub open spec fn cam_delta_v(aspect: int, width: int) -> V3 {
    V3 {
        x: 0,
        y: fdiv(-2 * (SCALE as int), cam_height(aspect, width) * (SCALE as int)),
        z: 0,
    }
}

/// The center of the top-left pixel: the viewport's upper-left corner, one
/// focal length ahead of the camera, offset by half a pixel step.
pub open spec fn cam_pixel_00(aspect: int, width: int) -> V3 {
    let vw = cam_viewport_w(aspect, width);
    let du = cam_delta_u(aspect, width);
    let dv = cam_delta_v(aspect, width);
    let vul = v3_sub(
        v3_sub(
            v3_sub(V3 { x: 0, y: 0, z: 0 }, V3 { x: 0, y: 0, z: SCALE as int }),
            v3_scale(V3 { x: vw, y: 0, z: 0 }, HALF as int),
        ),
        v3_scale(V3 { x: 0, y: -2 * (SCALE as int), z: 0 }, HALF as int),
    );
    v3_add(vul, v3_scale(v3_add(du, dv), HALF as int))
}

/// The averaging weight of one sample.
pub open spec fn cam_sample_scale(samples: int) -> int {
    fdiv(SCALE as int, samples * (SCALE as int))
}

/// The jittered ray through pixel `(i, j)` when every draw is the fixed value.
pub open spec fn get_ray_fixed(cam: Camera, i: int, j: int, c: u32) -> RayV {
    let ox = fixed_unit(c) - HALF as int;
    let px = v3_add(
        v3_add(cam.pixel_00_loc@, v3_scale(cam.pixel_delta_u@, i * (SCALE as int) + ox)),
        v3_scale(cam.pixel_delta_v@, j * (SCALE as int) + ox),
    );
    RayV { orig: cam.center@, dir: v3_sub(px, cam.center@) }
}

/// The finished pixel at `(i, j)` when every draw is the fixed value: the
/// average of the (identical) samples, clamped and tone mapped.
pub open spec fn pixel_fixed<T: Hittable>(cam: Camera, world: &T, i: int, j: int, c: u32) -> Rgb16 {
    let rc = ray_color_fixed(world, get_ray_fixed(cam, i, j, c), MAX_DEPTH as int, c);
    let n = cam.samples_per_pixel as int;
    let avg = v3_scale(V3 { x: n * rc.x, y: n * rc.y, z: n * rc.z }, cam.pixel_samples_scale as int);
    Rgb16 {
        r: tone_channel_spec(avg.x),
        g: tone_channel_spec(avg.y),
        b: tone_channel_spec(avg.z),
    }
}

impl Camera {
    /// The camera's derived state is consistent and within the bounds the
    /// render arithmetic needs.
    pub open spec fn wf(&self) -> bool {
        &&& 1 <= self.image_width <= 10_000
        &&& 1 <= self.image_height <= 100_000
        &&& 1 <= self.samples_per_pixel <= 100_000
        &&& self.center@ == (V3 { x: 0, y: 0, z: 0 })
        &&& v3_bounded(self.pixel_00_loc@, 100_000_000)
        &&& self.pixel_00_loc@.z == -(SCALE as int)
        &&& iabs(self.pixel_delta_u@.x) * ((self.image_width as int) * (SCALE as int)) <= 40_000_000
            * (SCALE as int)
        &&& self.pixel_delta_u@.y == 0 && self.pixel_delta_u@.z == 0
        &&& iabs(self.pixel_delta_v@.y) * ((self.image_height as int) * (SCALE as int))
            <= 40_000_000 * (SCALE as int)
        &&& self.pixel_delta_v@.x == 0 && self.pixel_delta_v@.z == 0
        &&& 0 <= self.pixel_samples_scale <= SCALE
    }
}

/// Division of zero is zero.
proof fn lemma_tdiv_zero(b: int)
    requires
        b >= 1,
    ensures
        tdiv(0, b) == 0,
        fdiv(0, b) == 0,
{
    vstd::arithmetic::div_mod::lemma_basic_div(0int, b);
    assert(0int * (SCALE as int) == 0) by (nonlinear_arith);
}

/// Scaling a pixel index into a viewport step stays within the viewport.
proof fn lemma_pixel_step(d: int, m: int, x: int)
    requires
        1 <= m,
        iabs(d) * (m * (SCALE as int)) <= 40_000_000 * (SCALE as int),
        iabs(x) <= m * (SCALE as int),
    ensures
        iabs(fmul(d, x)) <= 40_000_000,
{
    assert(iabs(d * x) <= (m * (SCALE as int)) * iabs(d)) by (nonlinear_arith)
        requires
            iabs(x) <= m * (SCALE as int),
            0 <= iabs(d),
            0 <= m * (SCALE as int),
    ;
    assert((m * (SCALE as int)) * iabs(d) == iabs(d) * (m * (SCALE as int))) by (nonlinear_arith);
    lemma_scale_down_bound(d * x, 40_000_000int);
}

/// The unit direction of a near-unit-or-longer admissible ray keeps every
/// component within one unit plus truncation slack.
proof fn lemma_unit_comp_near(d: V3)
    requires
        v3_bounded(d, DIR_LIMIT as int),
        v3_ls(d) >= SCALE as int - 15,
    ensures
        v3_bounded(v3_unit(d), SCALE as int + 2),
{
    let s = SCALE as int;
    let rw = v3_dot_wide(d, d);
    lemma_wide_self_bound(d, DIR_LIMIT as int);
    let ls = v3_ls(d);
    vstd::arithmetic::div_mod::lemma_fundamental_div_mod(rw, s);
    vstd::arithmetic::div_mod::lemma_mod_bound(rw, s);
    assert(ls * s <= rw && rw < ls * s + s) by (nonlinear_arith)
        requires
            ls == rw / s,
            s == 1_000_000,
            rw == s * (rw / s) + rw % s,
            0 <= rw % s < s,
    ;
    let n = (ls * s) as nat;
    crate::fixed::lemma_sqrt_floor_bounds(n);
    let len = crate::fixed::sqrt_floor(n) as int;
    assert(v3_len(d) == len);
    assert(len >= s - 8) by (nonlinear_arith)
        requires
            (len + 1) * (len + 1) > ls * s,
            ls >= s - 15,
            len >= 0,
            s == 1_000_000,
    ;
    assert(rw < len * len + 2 * len + s) by (nonlinear_arith)
        requires
            rw < ls * s + s,
            ls * s < (len + 1) * (len + 1),
    ;
    assert(2 * s * len + s * s <= 4 * (len * len)) by (nonlinear_arith)
        requires
            len >= s - 8,
            s == 1_000_000,
    ;
    assert((len * len + 2 * len + s) * (s * s) <= ((s + 2) * len) * ((s + 2) * len))
        by (nonlinear_arith)
        requires
            2 * s * len + s * s <= 4 * (len * len),
            len >= 0,
            s == 1_000_000,
    ;
    assert(d.x * d.x <= rw && d.y * d.y <= rw && d.z * d.z <= rw);
    lemma_unit_comp_near_one(d.x, rw, len);
    lemma_unit_comp_near_one(d.y, rw, len);
    lemma_unit_comp_near_one(d.z, rw, len);
}

/// One component of the near-unit normalization bound.
proof fn lemma_unit_comp_near_one(di: int, rw: int, len: int)
    requires
        di * di <= rw,
        rw < len * len + 2 * len + (SCALE as int),
        (len * len + 2 * len + (SCALE as int)) * ((SCALE as int) * (SCALE as int)) <= (((SCALE
            as int) + 2) * len) * (((SCALE as int) + 2) * len),
        len >= 1,
    ensures
        iabs(tdiv(di * (SCALE as int), len)) <= SCALE as int + 2,
{
    let s = SCALE as int;
    assert((di * s) * (di * s) <= ((s + 2) * len) * ((s + 2) * len)) by (nonlinear_arith)
        requires
            di * di <= rw,
            rw < len * len + 2 * len + s,
            (len * len + 2 * len + s) * (s * s) <= ((s + 2) * len) * ((s + 2) * len),
            s == 1_000_000,
    ;
    assert(iabs(di * s) <= (s + 2) * len) by (nonlinear_arith)
        requires
            (di * s) * (di * s) <= ((s + 2) * len) * ((s + 2) * len),
            (s + 2) * len >= 0,
            s == 1_000_000,
            len >= 0,
    ;
    lemma_tdiv_bound(di * s, len);
    vstd::arithmetic::div_mod::lemma_div_is_ordered(iabs(di * s), (s + 2) * len, len);
    vstd::arithmetic::div_mod::lemma_div_multiples_vanish(s + 2, len);
    assert((s + 2) * len == len * (s + 2)) by (nonlinear_arith);
}

/// The sky blend weight of a near-unit height is near the unit interval.
proof fn lemma_blend_weight(uy: int)
    requires
        iabs(uy) <= SCALE as int + 2,
    ensures
        -1 <= fmul(HALF as int, uy + SCALE as int) <= SCALE as int + 1,
{
    let s = SCALE as int;
    assert(-(1 * s) <= (HALF as int) * (uy + s) <= (s + 1) * s) by (nonlinear_arith)
        requires
            -(s + 2) <= uy <= s + 2,
            HALF == 500_000i64,
            s == 1_000_000,
    ;
    crate::fixed::lemma_tdiv_mono_signed(-(1 * s), (HALF as int) * (uy + s), s);
    crate::fixed::lemma_tdiv_mono_signed((HALF as int) * (uy + s), (s + 1) * s, s);
    lemma_tdiv_exact(s + 1, s);
    vstd::arithmetic::div_mod::lemma_div_multiples_vanish(1int, s);
    assert(s * 1 == s && 1 * s == s) by (nonlinear_arith);
    assert(tdiv(-(1 * s), s) == -1);
}

/// Blending two unit-range channels by a near-unit weight stays within one
/// unit plus truncation slack on either side.
proof fn lemma_blend_bound(w1: int, w2: int, a: int)
    requires
        0 <= w1 <= SCALE as int,
        0 <= w2 <= SCALE as int,
        -1 <= a <= SCALE as int + 1,
    ensures
        -1 <= fmul(w1, SCALE as int - a) <= SCALE as int + 1,
        -1 <= fmul(w2, a) <= SCALE as int + 1,
        -2 <= fmul(w1, SCALE as int - a) + fmul(w2, a) <= SCALE as int + 2,
{
    let s = SCALE as int;
    let b = s - a;
    assert(-(1 * s) <= w1 * b <= (s + 1) * s && -(1 * s) <= w2 * a <= (s + 1) * s)
        by (nonlinear_arith)
        requires
            0 <= w1 <= s,
            0 <= w2 <= s,
            -1 <= a <= s + 1,
            b == s - a,
    ;
    crate::fixed::lemma_tdiv_mono_signed(-(1 * s), w1 * b, s);
    crate::fixed::lemma_tdiv_mono_signed(w1 * b, (s + 1) * s, s);
    crate::fixed::lemma_tdiv_mono_signed(-(1 * s), w2 * a, s);
    crate::fixed::lemma_tdiv_mono_signed(w2 * a, (s + 1) * s, s);
    lemma_tdiv_exact(s + 1, s);
    vstd::arithmetic::div_mod::lemma_div_multiples_vanish(1int, s);
    assert(s * 1 == s && 1 * s == s) by (nonlinear_arith);
    assert(tdiv(-(1 * s), s) == -1);
    if 0 <= a <= s {
        assert(w1 * b >= 0 && w2 * a >= 0 && w1 * b + w2 * a <= s * s) by (nonlinear_arith)
            requires
                0 <= w1 <= s,
                0 <= w2 <= s,
                0 <= a <= s,
                b == s - a,
        ;
        lemma_tdiv_bound(w1 * b, s);
        lemma_tdiv_bound(w2 * a, s);
        crate::fixed::lemma_tdiv_sum_le(w1 * b, w2 * a, s);
        lemma_tdiv_mono(w1 * b + w2 * a, s * s, s);
        lemma_tdiv_exact(s, s);
    } else if a < 0 {
        assert(w2 * a <= 0 && w1 * b >= 0) by (nonlinear_arith)
            requires
                0 <= w1,
                0 <= w2,
                a < 0,
                b == s - a,
                s == 1_000_000,
        ;
        lemma_tdiv_bound(w2 * a, s);
        lemma_tdiv_bound(w1 * b, s);
    } else {
        assert(w1 * b <= 0 && w2 * a >= 0) by (nonlinear_arith)
            requires
                0 <= w1,
                0 <= w2,
                a > s,
                b == s - a,
                s == 1_000_000,
        ;
        lemma_tdiv_bound(w1 * b, s);
        lemma_tdiv_bound(w2 * a, s);
    }
}

/// Halving a color component keeps it within the color range.
proof fn lemma_half_color(x: int)
    requires
        -4 <= x <= COLOR_LIMIT as int,
    ensures
        -2 <= fmul(x, HALF as int) <= 500_002,
{
    let s = SCALE as int;
    assert(-(2 * s) <= x * (HALF as int) <= 500_002 * s) by (nonlinear_arith)
        requires
            -4 <= x <= 1_000_004,
            HALF == 500_000i64,
            s == 1_000_000,
    ;
    crate::fixed::lemma_tdiv_mono_signed(-(2 * s), x * (HALF as int), s);
    crate::fixed::lemma_tdiv_mono_signed(x * (HALF as int), 500_002 * s, s);
    lemma_tdiv_exact(500_002int, s);
    vstd::arithmetic::div_mod::lemma_div_multiples_vanish(2int, s);
    assert(s * 2 == 2 * s) by (nonlinear_arith);
    assert(tdiv(-(2 * s), s) == -2);
}

/// A hit point within the window moves the origin by at most this segment's
/// span, leaving the budget for one fewer bounce.
proof fn lemma_budget_step(o: V3, d: V3, t: int, d2: V3, depth: int)
    requires
        1 <= depth,
        ray_budget(o, d, depth),
        v3_bounded(d, DIR_LIMIT as int),
        0 <= t <= T_LIMIT as int,
        v3_bounded(d2, UNIT_LIMIT as int),
    ensures
        ray_budget(ray_at(RayV { orig: o, dir: d }, t), d2, depth - 1),
{
    if v3_bounded(d, UNIT_LIMIT as int) {
        lemma_abs_mul(d.x, t, UNIT_LIMIT as int, T_LIMIT as int);
        lemma_abs_mul(d.y, t, UNIT_LIMIT as int, T_LIMIT as int);
        lemma_abs_mul(d.z, t, UNIT_LIMIT as int, T_LIMIT as int);
        assert((UNIT_LIMIT as int) * (T_LIMIT as int) == (UNIT_SPAN as int) * (SCALE as int))
            by (nonlinear_arith)
            requires
                UNIT_LIMIT == 2_000_000i64,
                T_LIMIT == 10_000_000_000i64,
                UNIT_SPAN == 20_000_000_000i64,
                SCALE == 1_000_000i64,
        ;
        lemma_scale_down_bound(d.x * t, UNIT_SPAN as int);
        lemma_scale_down_bound(d.y * t, UNIT_SPAN as int);
        lemma_scale_down_bound(d.z * t, UNIT_SPAN as int);
    } else {
        lemma_abs_mul(d.x, t, DIR_LIMIT as int, T_LIMIT as int);
        lemma_abs_mul(d.y, t, DIR_LIMIT as int, T_LIMIT as int);
        lemma_abs_mul(d.z, t, DIR_LIMIT as int, T_LIMIT as int);
        assert((DIR_LIMIT as int) * (T_LIMIT as int) == (FIRST_SPAN as int) * (SCALE as int))
            by (nonlinear_arith)
            requires
                DIR_LIMIT == 250_000_000i64,
                T_LIMIT == 10_000_000_000i64,
                FIRST_SPAN == 2_500_000_000_000i64,
                SCALE == 1_000_000i64,
        ;
        lemma_scale_down_bound(d.x * t, FIRST_SPAN as int);
        lemma_scale_down_bound(d.y * t, FIRST_SPAN as int);
        lemma_scale_down_bound(d.z * t, FIRST_SPAN as int);
    }
    assert(depth * (UNIT_SPAN as int) == (depth - 1) * (UNIT_SPAN as int) + UNIT_SPAN as int)
        by (nonlinear_arith);
}

impl Camera {
    /// Build a camera from the aspect ratio, image width and samples per
    /// pixel. The numeric preconditions are the ranges the fixed-point render
    /// arithmetic supports.
    pub fn new(aspect_ratio: i64, image_width: u32, samples: u32) -> (cam: Camera)
        requires
            (SCALE as int) / 8 <= aspect_ratio <= 8 * (SCALE as int),
            1 <= image_width <= 10_000,
            1 <= samples <= 100_000,
            cam_ratio(aspect_ratio as int, image_width as int) <= 16_000_000,
        ensures
            cam.wf(),
            cam.aspect_ratio == aspect_ratio,
            cam.image_width == image_width,
            cam.image_height == cam_height(aspect_ratio as int, image_width as int),
            cam.samples_per_pixel == samples,
            cam.center@ == (V3 { x: 0, y: 0, z: 0 }),
            cam.pixel_delta_u@ == cam_delta_u(aspect_ratio as int, image_width as int),
            cam.pixel_delta_v@ == cam_delta_v(aspect_ratio as int, image_width as int),
            cam.pixel_00_loc@ == cam_pixel_00(aspect_ratio as int, image_width as int),
            cam.pixel_samples_scale == cam_sample_scale(samples as int),
    {
        Self::init(aspect_ratio, image_width, samples)
    }

    /// Build a camera after checking the numeric ranges at run time: callers
    /// that cannot establish the ranges ahead of time get `None` exactly when
    /// the inputs are out of range.
    pub fn try_new(aspect_ratio: i64, image_width: u32, samples: u32) -> (r: Option<Camera>)
        ensures
            match r {
                Some(cam) => {
                    &&& cam.wf()
                    &&& cam.aspect_ratio == aspect_ratio
                    &&& cam.image_width == image_width
                    &&& cam.image_height == cam_height(aspect_ratio as int, image_width as int)
                    &&& cam.samples_per_pixel == samples
                    &&& cam.center@ == (V3 { x: 0, y: 0, z: 0 })
                    &&& cam.pixel_delta_u@ == cam_delta_u(aspect_ratio as int, image_width as int)
                    &&& cam.pixel_delta_v@ == cam_delta_v(aspect_ratio as int, image_width as int)
                    &&& cam.pixel_00_loc@ == cam_pixel_00(aspect_ratio as int, image_width as int)
                    &&& cam.pixel_samples_scale == cam_sample_scale(samples as int)
                },
                None => !((SCALE as int) / 8 <= aspect_ratio <= 8 * (SCALE as int) && 1
                    <= image_width <= 10_000 && 1 <= samples <= 100_000 && cam_ratio(
                    aspect_ratio as int, image_width as int) <= 16_000_000),
            },
    {
        if !(SCALE / 8 <= aspect_ratio && aspect_ratio <= 8 * SCALE) {
            return None;
        }
        if image_width < 1 || image_width > 10_000 {
            return None;
        }
        if samples < 1 || samples > 100_000 {
            return None;
        }
        let width_fx: i64 = (image_width as i64) * SCALE;
        proof {
            lemma_abs_mul(width_fx as int, SCALE as int, 10_000_000_000int, SCALE as int);
            lemma_tdiv_bound(width_fx as int * (SCALE as int), aspect_ratio as int);
            vstd::arithmetic::div_mod::lemma_div_is_ordered_by_denominator(iabs(
                width_fx as int * (SCALE as int)), 125_000int, aspect_ratio as int);
            vstd::arithmetic::div_mod::lemma_div_is_ordered(iabs(width_fx as int * (SCALE as int)),
                10_000_000_000_000_000int, 125_000int);
            lemma_tdiv_exact(80_000_000_000int, 125_000int);
            assert(80_000_000_000int * 125_000int == 10_000_000_000_000_000int)
                by (nonlinear_arith);
        }
        let height_fx: i64 = fx_div(width_fx, aspect_ratio);
        proof {
            lemma_tdiv_mono(height_fx as int + HALF as int, 80_001_000_000int, SCALE as int);
            lemma_tdiv_exact(80_001int, SCALE as int);
            assert(80_001int * (SCALE as int) == 80_001_000_000int) by (nonlinear_arith)
                requires
                    SCALE == 1_000_000i64,
            ;
            lemma_tdiv_bound(height_fx as int + HALF as int, SCALE as int);
        }
        let height_rounded: i64 = ((height_fx + HALF) as u64 / (SCALE as u64)) as i64;
        let image_height: u32 = if height_rounded < 1 {
            1u32
        } else {
            height_rounded as u32
        };
        let height_fx2: i64 = (image_height as i64) * SCALE;
        proof {
            lemma_tdiv_bound(width_fx as int * (SCALE as int), height_fx2 as int);
            vstd::arithmetic::div_mod::lemma_div_is_ordered_by_denominator(iabs(
                width_fx as int * (SCALE as int)), SCALE as int, height_fx2 as int);
            vstd::arithmetic::div_mod::lemma_div_is_ordered(iabs(width_fx as int * (SCALE as int)),
                10_000_000_000_000_000int, SCALE as int);
            lemma_tdiv_exact(10_000_000_000int, SCALE as int);
            assert(10_000_000_000int * (SCALE as int) == 10_000_000_000_000_000int)
                by (nonlinear_arith)
                requires
                    SCALE == 1_000_000i64,
            ;
        }
        let ratio: i64 = fx_div(width_fx, height_fx2);
        if ratio > 16_000_000 {
            return None;
        }
        Some(Self::init(aspect_ratio, image_width, samples))
    }

    fn init(aspect_ratio: i64, image_width: u32, samples: u32) -> (cam: Camera)
        requires
            (SCALE as int) / 8 <= aspect_ratio <= 8 * (SCALE as int),
            1 <= image_width <= 10_000,
            1 <= samples <= 100_000,
            cam_ratio(aspect_ratio as int, image_width as int) <= 16_000_000,
        ensures
            cam.wf(),
            cam.aspect_ratio == aspect_ratio,
            cam.image_width == image_width,
            cam.image_height == cam_height(aspect_ratio as int, image_width as int),
            cam.samples_per_pixel == samples,
            cam.center@ == (V3 { x: 0, y: 0, z: 0 }),
            cam.pixel_delta_u@ == cam_delta_u(aspect_ratio as int, image_width as int),
            cam.pixel_delta_v@ == cam_delta_v(aspect_ratio as int, image_width as int),
            cam.pixel_00_loc@ == cam_pixel_00(aspect_ratio as int, image_width as int),
            cam.pixel_samples_scale == cam_sample_scale(samples as int),
    {
        let width_fx: i64 = (image_width as i64) * SCALE;
        proof {
            lemma_abs_mul(width_fx as int, SCALE as int, 10_000_000_000int, SCALE as int);
            lemma_tdiv_bound(width_fx as int * (SCALE as int), aspect_ratio as int);
            vstd::arithmetic::div_mod::lemma_div_is_ordered_by_denominator(iabs(
                width_fx as int * (SCALE as int)), 125_000int, aspect_ratio as int);
            vstd::arithmetic::div_mod::lemma_div_is_ordered(iabs(width_fx as int * (SCALE as int)),
                10_000_000_000_000_000int, 125_000int);
            lemma_tdiv_exact(80_000_000_000int, 125_000int);
            assert(80_000_000_000int * 125_000int == 10_000_000_000_000_000int)
                by (nonlinear_arith);
        }
        let height_fx: i64 = fx_div(width_fx, aspect_ratio);
        proof {
            lemma_tdiv_mono(height_fx as int + HALF as int, 80_001_000_000int, SCALE as int);
            lemma_tdiv_exact(80_001int, SCALE as int);
            assert(80_001int * (SCALE as int) == 80_001_000_000int) by (nonlinear_arith)
                requires
                    SCALE == 1_000_000i64,
            ;
            lemma_tdiv_bound(height_fx as int + HALF as int, SCALE as int);
        }
        let height_rounded: i64 = ((height_fx + HALF) as u64 / (SCALE as u64)) as i64;
        let image_height: u32 = if height_rounded < 1 {
            1u32
        } else {
            height_rounded as u32
        };
        proof {
            assert(image_height as int == cam_height(aspect_ratio as int, image_width as int));
            assert(1 <= image_height <= 100_000);
        }
        let height_fx2: i64 = (image_height as i64) * SCALE;

        let pixel_samples_scale: i64 = fx_div(SCALE, (samples as i64) * SCALE);
        proof {
            lemma_abs_mul(SCALE as int, SCALE as int, SCALE as int, SCALE as int);
            lemma_tdiv_bound((SCALE as int) * (SCALE as int), (samples as int) * (SCALE as int));
            vstd::arithmetic::div_mod::lemma_div_is_ordered_by_denominator(iabs(
                (SCALE as int) * (SCALE as int)), SCALE as int, (samples as int) * (SCALE as int));
            lemma_tdiv_exact(SCALE as int, SCALE as int);
            assert((SCALE as int) * (SCALE as int) == 1_000_000_000_000int) by (nonlinear_arith)
                requires
                    SCALE == 1_000_000i64,
            ;
        }

        let focal_length: i64 = SCALE;
        let viewport_height: i64 = 2 * SCALE;
        proof {
            lemma_tdiv_bound(width_fx as int * (SCALE as int), height_fx2 as int);
            vstd::arithmetic::div_mod::lemma_div_is_ordered_by_denominator(iabs(
                width_fx as int * (SCALE as int)), SCALE as int, height_fx2 as int);
            vstd::arithmetic::div_mod::lemma_div_is_ordered(iabs(width_fx as int * (SCALE as int)),
                10_000_000_000_000_000int, SCALE as int);
            lemma_tdiv_exact(10_000_000_000int, SCALE as int);
            assert(10_000_000_000int * (SCALE as int) == 10_000_000_000_000_000int)
                by (nonlinear_arith)
                requires
                    SCALE == 1_000_000i64,
            ;
        }
        let ratio: i64 = fx_div(width_fx, height_fx2);
        proof {
            assert(ratio as int == cam_ratio(aspect_ratio as int, image_width as int));
            assert(0 <= ratio <= 16_000_000);
            lemma_abs_mul(viewport_height as int, ratio as int, 2_000_000int, 16_000_000int);
            assert(2_000_000int * 16_000_000int == 32_000_000int * (SCALE as int))
                by (nonlinear_arith)
                requires
                    SCALE == 1_000_000i64,
            ;
            lemma_scale_down_bound(viewport_height as int * ratio as int, 32_000_000int);
        }
        let viewport_width: i64 = fx_mul(viewport_height, ratio);
        let camera_center = Vec3::new(0, 0, 0);

        let viewport_u = Vec3::new(viewport_width, 0, 0);
        let viewport_v = Vec3::new(0, -viewport_height, 0);

        proof {
            lemma_div_fits(viewport_width as int, width_fx as int);
            lemma_div_fits(-(viewport_height as int), height_fx2 as int);
            lemma_div_fits(0, width_fx as int);
            lemma_div_fits(0, height_fx2 as int);
            lemma_tdiv_zero(width_fx as int);
            lemma_tdiv_zero(height_fx2 as int);
        }
        let pixel_delta_u = viewport_u.div(width_fx);
        let pixel_delta_v = viewport_v.div(height_fx2);

        proof {
            lemma_half_scale(viewport_width as int, 32_000_000int);
            lemma_half_scale(-(viewport_height as int), 2_000_000int);
            lemma_half_scale(0, 32_000_000int);
            lemma_zero_mul(0, HALF as int);
            lemma_half_scale(pixel_delta_u@.x + pixel_delta_v@.x, 64_000_000int);
            lemma_half_scale(pixel_delta_u@.y + pixel_delta_v@.y, 64_000_000int);
            lemma_half_scale(pixel_delta_u@.z + pixel_delta_v@.z, 64_000_000int);
        }
        let camera_to_viewport_vec = camera_center.sub(Vec3::new(0, 0, focal_length));
        let viewport_upper_left = camera_to_viewport_vec.sub(viewport_u.scale(HALF)).sub(
            viewport_v.scale(HALF),
        );
        let pixel_00_loc = viewport_upper_left.add(pixel_delta_u.add(pixel_delta_v).scale(HALF));

        Camera {
            aspect_ratio,
            image_width,
            image_height,
            center: camera_center,
            pixel_00_loc,
            pixel_delta_u,
            pixel_delta_v,
            samples_per_pixel: samples,
            pixel_samples_scale,
        }
    }

    /// The jittered ray through pixel `(i, j)`: from the camera center toward
    /// a point offset uniformly within the pixel's viewport cell.
    pub fn get_ray(&self, i: u32, j: u32, sampler: &Sampler) -> (r: Ray)
        requires
            self.wf(),
            i < self.image_width,
            j < self.image_height,
        ensures
            r@.orig == (V3 { x: 0, y: 0, z: 0 }),
            v3_bounded(r@.dir, DIR_LIMIT as int),
            v3_ls(r@.dir) >= SCALE as int,
            sampler.is_fixed() ==> r@ == get_ray_fixed(*self, i as int, j as int,
                sampler.fixed_seed()),
    {
        let ox: i64 = sampler.next_unit() - HALF;
        let oy: i64 = sampler.next_unit() - HALF;
        let ix: i64 = (i as i64) * SCALE + ox;
        let jy: i64 = (j as i64) * SCALE + oy;
        proof {
            lemma_pixel_step(self.pixel_delta_u@.x, self.image_width as int, ix as int);
            lemma_pixel_step(self.pixel_delta_v@.y, self.image_height as int, jy as int);
            lemma_zero_mul(self.pixel_delta_u@.y, ix as int);
            lemma_zero_mul(self.pixel_delta_u@.z, ix as int);
            lemma_zero_mul(self.pixel_delta_v@.x, jy as int);
            lemma_zero_mul(self.pixel_delta_v@.z, jy as int);
        }
        let pixel_sample = self.pixel_00_loc.add(self.pixel_delta_u.scale(ix)).add(
            self.pixel_delta_v.scale(jy),
        );
        let ray_origin = self.center;
        let ray_direction = pixel_sample.sub(ray_origin);
        proof {
            let d = ray_direction@;
            assert(d.z == -(SCALE as int));
            lemma_ls_floor(d);
        }
        Ray::new(ray_origin, ray_direction)
    }

    /// The recursive shader: on a hit inside the considered span, half the
    /// color of one diffuse bounce off the surface (black once the bounce
    /// budget is spent); on a miss, the sky gradient. A ray that misses the
    /// whole scene is colored by the sky alone, whatever the sampler; and
    /// whatever the sampler, every channel stays within one unit of color,
    /// up to a few truncation steps on either side.
    pub fn ray_color<T: Hittable>(r: &Ray, world: &T, depth: u32, sampler: &Sampler) -> (c: Vec3)
        requires
            world.wf(),
            depth <= MAX_DEPTH,
            v3_bounded(r@.dir, DIR_LIMIT as int),
            v3_ls(r@.dir) >= SCALE as int - 15,
            ray_budget(r@.orig, r@.dir, depth as int),
        ensures
            -4 <= c@.x <= COLOR_LIMIT as int,
            -4 <= c@.y <= COLOR_LIMIT as int,
            -4 <= c@.z <= COLOR_LIMIT as int,
            v3_bounded(c@, COLOR_LIMIT as int),
            sampler.is_fixed() ==> c@ == ray_color_fixed(world, r@, depth as int,
                sampler.fixed_seed()),
            world.hit_spec(r@, 0, T_LIMIT as int) is None ==> c@ == sky_color(r@),
        decreases depth,
    {
        proof {
            assert((depth as int) * (UNIT_SPAN as int) >= 0) by (nonlinear_arith)
                requires
                    depth >= 0,
                    UNIT_SPAN == 20_000_000_000i64,
            ;
            assert(v3_bounded(r@.orig, ORIGIN_LIMIT as int));
        }
        let mut rec = HitRecord::default();
        let window = Interval::new(0, T_LIMIT);
        if world.hit(r, &window, &mut rec) {
            proof {
                world.hit_spec_properties(r@, 0, T_LIMIT as int);
            }
            if depth == 0 {
                return Vec3::new(0, 0, 0);
            }
            let direction = Vec3::random_on_hemisphere(&rec.normal, sampler);
            proof {
                lemma_budget_step(r@.orig, r@.dir, rec@.t, direction@, depth as int);
                lemma_unit_within_dir(direction@);
            }
            let bounce = Ray::new(rec.p, direction);
            let inner = Self::ray_color(&bounce, world, depth - 1, sampler);
            proof {
                lemma_half_color(inner@.x);
                lemma_half_color(inner@.y);
                lemma_half_color(inner@.z);
            }
            return inner.scale(HALF);
        }
        let unit_direction = Vec3::unit_vector(r.direction);
        proof {
            lemma_unit_comp_near(r@.dir);
            lemma_blend_weight(unit_direction@.y);
            lemma_blend_bound(SCALE as int, HALF as int, fmul(HALF as int, unit_direction@.y
                + SCALE as int));
            lemma_blend_bound(SCALE as int, 700_000int, fmul(HALF as int, unit_direction@.y
                + SCALE as int));
            lemma_blend_bound(SCALE as int, SCALE as int, fmul(HALF as int, unit_direction@.y
                + SCALE as int));
        }
        let a: i64 = fx_mul(HALF, unit_direction.y() + SCALE);
        let white = Vec3::new(SCALE, SCALE, SCALE);
        let blue = Vec3::new(HALF, 700_000, SCALE);
        white.scale(SCALE - a).add(blue.scale(a))
    }

    /// One finished pixel: the average of the jittered samples through
    /// `(i, j)`, clamped and tone mapped.
    pub fn render_pixel<T: Hittable>(&self, world: &T, i: u32, j: u32, sampler: &Sampler) -> (px:
        Rgb16)
        requires
            self.wf(),
            world.wf(),
            i < self.image_width,
            j < self.image_height,
        ensures
            channels_in_range(px),
            sampler.is_fixed() ==> px == pixel_fixed(*self, world, i as int, j as int,
                sampler.fixed_seed()),
    {
        let mut acc = Vec3::new(0, 0, 0);
        let mut s: u32 = 0;
        let n = self.samples_per_pixel;
        while s < n
            invariant
                self.wf(),
                world.wf(),
                i < self.image_width,
                j < self.image_height,
                s <= n,
                n == self.samples_per_pixel,
                v3_bounded(acc@, (s as int) * (COLOR_LIMIT as int)),
                sampler.is_fixed() ==> {
                    let rc = ray_color_fixed(world, get_ray_fixed(*self, i as int, j as int,
                        sampler.fixed_seed()), MAX_DEPTH as int, sampler.fixed_seed());
                    acc@ == (V3 { x: (s as int) * rc.x, y: (s as int) * rc.y, z: (s as int) * rc.z })
                },
            decreases n - s,
        {
            let ray = self.get_ray(i, j, sampler);
            proof {
                lemma_primary_budget(ray@.dir);
            }
            let col = Self::ray_color(&ray, world, MAX_DEPTH, sampler);
            proof {
                lemma_acc_step(acc@, col@, s as int);
            }
            acc.add_assign(col);
            s = s + 1;
        }
        proof {
            lemma_avg_bounds(acc@, n as int, self.pixel_samples_scale as int);
        }
        let avg = acc.scale(self.pixel_samples_scale);
        Rgb16 {
            r: Self::tone_channel(avg.x()),
            g: Self::tone_channel(avg.y()),
            b: Self::tone_channel(avg.z()),
        }
    }

    /// Clamp one averaged channel to the displayable range and spread it
    /// linearly over the 16-bit channel width.
    fn tone_channel(c: i64) -> (r: u16)
        ensures
            r == tone_channel_spec(c as int),
            r <= 65_469,
    {
        let intensity = Interval::new(0, CLAMP_MAX);
        let cl: i64 = intensity.clamp(c);
        proof {
            assert(cl as int * 65_535 < 65_470 * (SCALE as int)) by (nonlinear_arith)
                requires
                    0 <= cl <= 999_000,
                    SCALE == 1_000_000i64,
            ;
            crate::fixed::lemma_tdiv_lt(cl as int * 65_535, SCALE as int, 65_470int);
            lemma_tdiv_mono(cl as int * 65_535, 65_535_000_000int, SCALE as int);
            lemma_tdiv_exact(65_535int, SCALE as int);
            assert(65_535int * (SCALE as int) == 65_535_000_000int) by (nonlinear_arith)
                requires
                    SCALE == 1_000_000i64,
            ;
            assert(cl as int * 65_535 <= 65_535_000_000int) by (nonlinear_arith)
                requires
                    0 <= cl <= 999_000,
            ;
        }
        (((cl as u64) * 65_535) / (SCALE as u64)) as u16
    }

    /// Render one row of the image, left to right.
    pub fn render_row<T: Hittable>(&self, world: &T, j: u32, sampler: &Sampler) -> (row: Vec<Rgb16>)
        requires
            self.wf(),
            world.wf(),
            j < self.image_height,
        ensures
            row.len() == self.image_width,
            forall|i: int| 0 <= i < row.len() ==> channels_in_range(#[trigger] row@[i]),
            sampler.is_fixed() ==> forall|i: int|
                0 <= i < row.len() ==> row@[i] == pixel_fixed(*self, world, i, j as int,
                    sampler.fixed_seed()),
    {
        let mut row: Vec<Rgb16> = Vec::new();
        let mut i: u32 = 0;
        let w = self.image_width;
        while i < w
            invariant
                self.wf(),
                world.wf(),
                j < self.image_height,
                i <= w,
                w == self.image_width,
                row.len() == i,
                forall|k: int| 0 <= k < row.len() ==> channels_in_range(#[trigger] row@[k]),
                sampler.is_fixed() ==> forall|k: int|
                    0 <= k < row.len() ==> row@[k] == pixel_fixed(*self, world, k, j as int,
                        sampler.fixed_seed()),
            decreases w - i,
        {
            let px = self.render_pixel(world, i, j, sampler);
            row.push(px);
            i = i + 1;
        }
        row
    }

    /// Render the whole image, row-major from the top row. With a fixed
    /// sampler the raster is a function of the camera and scene alone, so
    /// repeated renders agree byte for byte.
    pub fn render<T: Hittable>(&self, world: &T, sampler: &Sampler) -> (img: Vec<Rgb16>)
        requires
            self.wf(),
            world.wf(),
        ensures
            img.len() == (self.image_width as int) * (self.image_height as int),
            forall|k: int| 0 <= k < img.len() ==> channels_in_range(#[trigger] img@[k]),
            sampler.is_fixed() ==> forall|jj: int, ii: int|
                0 <= jj < self.image_height && 0 <= ii < self.image_width ==> img@[jj * (
                self.image_width as int) + ii] == pixel_fixed(*self, world, ii, jj,
                    sampler.fixed_seed()),
    {
        let mut img: Vec<Rgb16> = Vec::new();
        let mut j: u32 = 0;
        let w = self.image_width;
        let h = self.image_height;
        while j < h
            invariant
                self.wf(),
                world.wf(),
                j <= h,
                w == self.image_width,
                h == self.image_height,
                img.len() == (j as int) * (w as int),
                forall|k: int| 0 <= k < img.len() ==> channels_in_range(#[trigger] img@[k]),
                sampler.is_fixed() ==> forall|jj: int, ii: int|
                    0 <= jj < j && 0 <= ii < w ==> img@[jj * (w as int) + ii] == pixel_fixed(
                        *self, world, ii, jj, sampler.fixed_seed()),
            decreases h - j,
        {
            let row = self.render_row(world, j, sampler);
            let mut k: u32 = 0;
            while k < w
                invariant
                    j < h,
                    w == self.image_width,
                    h == self.image_height,
                    self.wf(),
                    world.wf(),
                    k <= w,
                    row.len() == w,
                    img.len() == (j as int) * (w as int) + k as int,
                    forall|kk: int| 0 <= kk < img.len() ==> channels_in_range(#[trigger] img@[kk]),
                    forall|ii: int| 0 <= ii < row.len() ==> channels_in_range(#[trigger] row@[ii]),
                    sampler.is_fixed() ==> forall|jj: int, ii: int|
                        0 <= jj < j && 0 <= ii < w ==> img@[jj * (w as int) + ii] == pixel_fixed(
                            *self, world, ii, jj, sampler.fixed_seed()),
                    sampler.is_fixed() ==> forall|ii: int|
                        0 <= ii < row.len() ==> row@[ii] == pixel_fixed(*self, world, ii, j as int,
                            sampler.fixed_seed()),
                    sampler.is_fixed() ==> forall|ii: int|
                        0 <= ii < k ==> img@[(j as int) * (w as int) + ii] == pixel_fixed(*self,
                            world, ii, j as int, sampler.fixed_seed()),
                decreases w - k,
            {
                let px = row[k as usize];
                img.push(px);
                k = k + 1;
                proof {
                    lemma_row_major(j as int, w as int, img@.len() as int);
                    if sampler.is_fixed() {
                        assert forall|jj: int, ii: int| 0 <= jj < j && 0 <= ii < w implies img@[jj
                            * (w as int) + ii] == pixel_fixed(*self, world, ii, jj,
                            sampler.fixed_seed()) by {
                            lemma_index_in_row(jj, ii, j as int, w as int);
                        }
                    }
                }
            }
            j = j + 1;
            proof {
                assert((j as int) * (w as int) == (j as int - 1) * (w as int) + (w as int))
                    by (nonlinear_arith);
                assert forall|jj: int, ii: int|
                    sampler.is_fixed() && 0 <= jj < j && 0 <= ii < w implies img@[jj * (w as int)
                    + ii] == pixel_fixed(*self, world, ii, jj, sampler.fixed_seed()) by {
                    lemma_index_in_row(jj, ii, j as int, w as int);
                }
            }
        }
        proof {
            assert((h as int) * (w as int) == (w as int) * (h as int)) by (nonlinear_arith);
        }
        img
    }
}

/// The index of a pixel in a row lies inside the raster built so far.
proof fn lemma_index_in_row(jj: int, ii: int, rows: int, w: int)
    requires
        0 <= jj < rows,
        0 <= ii < w,
    ensures
        0 <= jj * w + ii < rows * w,
        jj < rows - 1 ==> jj * w + ii < (rows - 1) * w,
{
    assert(0 <= jj * w && (jj + 1) * w <= rows * w && jj * w + w == (jj + 1) * w && (jj < rows - 1
        ==> (jj + 1) * w <= (rows - 1) * w)) by (nonlinear_arith)
        requires
            0 <= jj < rows,
            0 < w,
    ;
}

/// Row-major length bookkeeping stays nonnegative.
proof fn lemma_row_major(j: int, w: int, len: int)
    requires
        0 <= j,
        0 <= w,
    ensures
        j * w >= 0,
{
    assert(j * w >= 0) by (nonlinear_arith)
        requires
            0 <= j,
            0 <= w,
    ;
}

/// A scalar product with a zero factor vanishes.
proof fn lemma_zero_mul(d: int, x: int)
    requires
        d == 0,
    ensures
        fmul(d, x) == 0,
        fmul(x, d) == 0,
{
    assert(x * d == 0 && d * x == 0) by (nonlinear_arith)
        requires
            d == 0,
    ;
    lemma_tdiv_zero(SCALE as int);
}

/// A direction whose last component is a full unit has squared length at
/// least one unit.
proof fn lemma_ls_floor(d: V3)
    requires
        d.z == -(SCALE as int),
    ensures
        v3_ls(d) >= SCALE as int,
{
    assert(d.x * d.x >= 0 && d.y * d.y >= 0 && d.z * d.z == 1_000_000_000_000int)
        by (nonlinear_arith)
        requires
            d.z == -1_000_000int,
    ;
    lemma_tdiv_mono(1_000_000_000_000int, v3_dot_wide(d, d), SCALE as int);
    lemma_tdiv_exact(1_000_000int, SCALE as int);
    assert(1_000_000int * (SCALE as int) == 1_000_000_000_000int) by (nonlinear_arith)
        requires
            SCALE == 1_000_000i64,
    ;
}

/// Halving a bounded value keeps it within the same bound.
proof fn lemma_half_scale(x: int, m: int)
    requires
        iabs(x) <= m,
        0 <= m,
    ensures
        iabs(fmul(x, HALF as int)) <= m,
{
    lemma_abs_mul(x, HALF as int, m, HALF as int);
    assert(m * (HALF as int) <= m * (SCALE as int)) by (nonlinear_arith)
        requires
            0 <= m,
            HALF == 500_000i64,
            SCALE == 1_000_000i64,
    ;
    lemma_scale_down_bound(x * (HALF as int), m);
}

/// A fixed-point division result fits the machine word when its dividend does.
proof fn lemma_div_fits(v: int, m: int)
    requires
        iabs(v) <= 40_000_000,
        m >= SCALE,
    ensures
        iabs(fdiv(v, m)) <= 40_000_000,
        iabs(fdiv(v, m)) * m <= iabs(v) * (SCALE as int),
{
    lemma_abs_mul(v, SCALE as int, 40_000_000int, SCALE as int);
    lemma_tdiv_bound(v * (SCALE as int), m);
    assert(iabs(v * (SCALE as int)) == iabs(v) * (SCALE as int)) by (nonlinear_arith)
        requires
            SCALE == 1_000_000i64,
    ;
    vstd::arithmetic::div_mod::lemma_div_is_ordered_by_denominator(iabs(v) * (SCALE as int),
        SCALE as int, m);
    lemma_tdiv_exact(iabs(v), SCALE as int);
}

/// A freshly scattered direction also fits the general direction bound.
proof fn lemma_unit_within_dir(d: V3)
    requires
        v3_bounded(d, UNIT_LIMIT as int),
    ensures
        v3_bounded(d, DIR_LIMIT as int),
{
}

/// A primary camera ray starts at the origin with the full bounce budget.
proof fn lemma_primary_budget(d: V3)
    ensures
        ray_budget(V3 { x: 0, y: 0, z: 0 }, d, MAX_DEPTH as int),
{
    assert((MAX_DEPTH as int) * (UNIT_SPAN as int) == 1_000_000_000_000int) by (nonlinear_arith)
        requires
            MAX_DEPTH == 50u32,
            UNIT_SPAN == 20_000_000_000i64,
    ;
}

/// Adding one more bounded sample keeps the accumulator bounded and, sample
/// by sample, equal to the sample count times the color.
proof fn lemma_acc_step(acc: V3, col: V3, s: int)
    requires
        0 <= s <= 100_000,
        v3_bounded(acc, s * (COLOR_LIMIT as int)),
        v3_bounded(col, COLOR_LIMIT as int),
    ensures
        iabs(acc.x + col.x) <= (s + 1) * (COLOR_LIMIT as int),
        iabs(acc.y + col.y) <= (s + 1) * (COLOR_LIMIT as int),
        iabs(acc.z + col.z) <= (s + 1) * (COLOR_LIMIT as int),
        (s + 1) * (COLOR_LIMIT as int) <= 100_001_400_004int,
        s * (COLOR_LIMIT as int) <= 100_000_400_000int,
        v3_bounded(v3_add(acc, col), (s + 1) * (COLOR_LIMIT as int)),
        (s + 1) * col.x == s * col.x + col.x,
        (s + 1) * col.y == s * col.y + col.y,
        (s + 1) * col.z == s * col.z + col.z,
{
    assert((s + 1) * (COLOR_LIMIT as int) == s * (COLOR_LIMIT as int) + COLOR_LIMIT as int && s * (
    COLOR_LIMIT as int) <= 100_000_400_000int && (s + 1) * (COLOR_LIMIT as int)
        <= 100_001_400_004int) by (nonlinear_arith)
        requires
            0 <= s <= 100_000,
            COLOR_LIMIT == 1_000_004i64,
    ;
    assert((s + 1) * col.x == s * col.x + col.x && (s + 1) * col.y == s * col.y + col.y && (s + 1)
        * col.z == s * col.z + col.z) by (nonlinear_arith);
}

/// Averaging the accumulated samples stays within the machine word.
proof fn lemma_avg_bounds(acc: V3, n: int, scale_fx: int)
    requires
        0 <= n <= 100_000,
        v3_bounded(acc, n * (COLOR_LIMIT as int)),
        0 <= scale_fx <= SCALE as int,
    ensures
        i64::MIN <= fmul(acc.x, scale_fx) <= i64::MAX,
        i64::MIN <= fmul(acc.y, scale_fx) <= i64::MAX,
        i64::MIN <= fmul(acc.z, scale_fx) <= i64::MAX,
{
    assert(n * (COLOR_LIMIT as int) <= 100_000_400_000int) by (nonlinear_arith)
        requires
            0 <= n <= 100_000,
            COLOR_LIMIT == 1_000_004i64,
    ;
    lemma_abs_mul(acc.x, scale_fx, 100_000_400_000int, SCALE as int);
    lemma_abs_mul(acc.y, scale_fx, 100_000_400_000int, SCALE as int);
    lemma_abs_mul(acc.z, scale_fx, 100_000_400_000int, SCALE as int);
    assert(100_000_400_000int * (SCALE as int) == 100_000_400_000_000_000int) by (nonlinear_arith)
        requires
            SCALE == 1_000_000i64,
    ;
    lemma_scale_down_bound(acc.x * scale_fx, 100_000_400_000int);
    lemma_scale_down_bound(acc.y * scale_fx, 100_000_400_000int);
    lemma_scale_down_bound(acc.z * scale_fx, 100_000_400_000int);
}

} // verus!
