//! Shading of a winning hit: the surface normal at the intersection point is
//! compared with the ray to give a scalar shade, which scales the sphere's
//! color; each channel is then clamped to the unit range.

use vstd::prelude::*;

use crate::math::{
    isqrt_u128, lemma_sqrt_floor_pos, lemma_tdiv_bound, sqrt_floor, tdiv, tdiv_i128, COORD_LIMIT,
    DIST_LIMIT, SCALE, SCALE_SQ,
};
use crate::sphere::Sphere;
use crate::vec3::{bounded, dot3, lemma_dot3_bound, lemma_mag_sq3_nonneg, mag_sq3, sub3, v3, Vec3};

verus! {

/// The vector from the sphere's center to the intersection point
/// `origin + (d / SCALE_SQ) * ray`, at coordinate scale `SCALE`. Each
/// component is rounded toward zero when the distance-ray product is brought
/// back down from scale `SCALE^3`.
pub open spec fn spec_diff(origin: Vec3, ray: Vec3, s: Sphere, d: int) -> (int, int, int) {
    let oc = sub3(v3(origin), v3(s.center));
    (
        oc.0 + tdiv(d * ray.x, SCALE_SQ as int),
        oc.1 + tdiv(d * ray.y, SCALE_SQ as int),
        oc.2 + tdiv(d * ray.z, SCALE_SQ as int),
    )
}

/// The shade of a hit at distance `d`: the magnitude of the dot product of
/// the ray with the center-to-point vector, divided by that vector's length
/// (a fixed-point value at scale `SCALE`; 0 when the vector is degenerate,
/// so the degenerate normal never produces an undefined shade).
pub open spec fn spec_shade(origin: Vec3, ray: Vec3, s: Sphere, d: int) -> int {
    let diff = spec_diff(origin, ray, s, d);
    let msq = mag_sq3(diff);
    if msq == 0 {
        0
    } else {
        let num = dot3(v3(ray), diff);
        let mag = abs(num);
        mag / (sqrt_floor(msq as nat) as int)
    }
}

/// Absolute value.
pub open spec fn abs(a: int) -> int {
    if a >= 0 {
        a
    } else {
        -a
    }
}

/// A value clamped to the fixed-point unit range `[0, SCALE]`.
pub open spec fn spec_clamp_unit(v: int) -> int {
    if v < 0 {
        0
    } else if v > SCALE {
        SCALE as int
    } else {
        v
    }
}

/// One color channel of a shaded hit before clamping: the channel scaled by
/// the shade.
pub open spec fn spec_shade_channel(channel: int, shade: int) -> int {
    (channel * shade) / (SCALE as int)
}

/// The full color a winning hit contributes to its pixel: each channel of
/// the sphere's color scaled by the shade and clamped to the unit range.
pub open spec fn spec_hit_color(origin: Vec3, ray: Vec3, s: Sphere, d: int) -> (int, int, int) {
    let shade = spec_shade(origin, ray, s, d);
    (
        spec_clamp_unit(spec_shade_channel(s.color.x as int, shade)),
        spec_clamp_unit(spec_shade_channel(s.color.y as int, shade)),
        spec_clamp_unit(spec_shade_channel(s.color.z as int, shade)),
    )
}

/// Scales one color channel by the shade and clamps it, exactly as
/// `spec_clamp_unit(spec_shade_channel(..))` states.
fn shade_channel(channel: i64, shade: i128) -> (r: i64)
    requires
        0 <= channel <= SCALE,
        0 <= shade <= 4_000_000_000_000_000_000_000_000,
    ensures
        r as int == spec_clamp_unit(spec_shade_channel(channel as int, shade as int)),
        0 <= r <= SCALE,
{
    proof {
        assert(0 <= (channel as int) * (shade as int)
            <= 4_000_000_000_000_000_000_000_000_000_000int) by (nonlinear_arith)
            requires
                0 <= channel <= 1_000_000,
                0 <= shade <= 4_000_000_000_000_000_000_000_000,
        ;
        vstd::arithmetic::div_mod::lemma_div_pos_is_pos(
            (channel as int) * (shade as int),
            SCALE as int,
        );
    }
    let scaled: i128 = (channel as i128) * shade / (SCALE as i128);
    if scaled > (SCALE as i128) {
        SCALE
    } else {
        scaled as i64
    }
}

/// Computes the color of a hit on `sphere` at distance `d`, exactly as
/// `spec_hit_color` states; every channel of the result lies in
/// `[0, SCALE]`.
pub fn shade_hit(origin: &Vec3, ray: &Vec3, sphere: &Sphere, d: i64) -> (r: Vec3)
    requires
        bounded(v3(*origin), COORD_LIMIT as int),
        bounded(v3(*ray), COORD_LIMIT as int),
        sphere.wf(),
        -DIST_LIMIT <= d <= DIST_LIMIT,
    ensures
        v3(r) == spec_hit_color(*origin, *ray, *sphere, d as int),
        0 <= r.x <= SCALE,
        0 <= r.y <= SCALE,
        0 <= r.z <= SCALE,
{
    let oc = origin.sub(&sphere.center);
    proof {
        assert(-2_000_000_000_000_000_000_000_000_000int <= (d as int) * (ray.x as int)
            <= 2_000_000_000_000_000_000_000_000_000int
            && -2_000_000_000_000_000_000_000_000_000int <= (d as int) * (ray.y as int)
            <= 2_000_000_000_000_000_000_000_000_000int
            && -2_000_000_000_000_000_000_000_000_000int <= (d as int) * (ray.z as int)
            <= 2_000_000_000_000_000_000_000_000_000int) by (nonlinear_arith)
            requires
                -4_000_000_000_000_000_000 <= d <= 4_000_000_000_000_000_000,
                -500_000_000 <= ray.x <= 500_000_000,
                -500_000_000 <= ray.y <= 500_000_000,
                -500_000_000 <= ray.z <= 500_000_000,
        ;
        lemma_tdiv_bound((d as int) * (ray.x as int), SCALE_SQ as int,
            2_000_000_000_000_000_000_000_000_000int);
        lemma_tdiv_bound((d as int) * (ray.y as int), SCALE_SQ as int,
            2_000_000_000_000_000_000_000_000_000int);
        lemma_tdiv_bound((d as int) * (ray.z as int), SCALE_SQ as int,
            2_000_000_000_000_000_000_000_000_000int);
    }
    let tx: i128 = (d as i128) * (ray.x as i128);
    let ty: i128 = (d as i128) * (ray.y as i128);
    let tz: i128 = (d as i128) * (ray.z as i128);
    let qx: i128 = tdiv_i128(tx, SCALE_SQ as i128);
    let qy: i128 = tdiv_i128(ty, SCALE_SQ as i128);
    let qz: i128 = tdiv_i128(tz, SCALE_SQ as i128);
    let diff = Vec3 {
        x: ((oc.x as i128) + qx) as i64,
        y: ((oc.y as i128) + qy) as i64,
        z: ((oc.z as i128) + qz) as i64,
    };
    proof {
        assert(v3(diff) == spec_diff(*origin, *ray, *sphere, d as int));
        assert(bounded(v3(diff), 2_001_000_000_000_000int));
        lemma_dot3_bound(v3(diff), v3(diff), 2_001_000_000_000_000int, 2_001_000_000_000_000int);
        lemma_mag_sq3_nonneg(v3(diff));
        lemma_dot3_bound(v3(*ray), v3(diff), COORD_LIMIT as int, 2_001_000_000_000_000int);
    }
    let msq: i128 = diff.dot(&diff);
    proof {
        assert(0 <= msq <= 12_012_003_000_000_000_000_000_000_000_000int);
    }
    let shade: i128 = if msq == 0 {
        0
    } else {
        let mag: u128 = isqrt_u128(msq as u128);
        proof {
            lemma_sqrt_floor_pos(msq as nat);
            assert(mag <= 4_000_000_000_000_000u128) by (nonlinear_arith)
                requires
                    (mag as int) * (mag as int) <= 12_012_003_000_000_000_000_000_000_000_000int,
                    mag >= 0,
            ;
            vstd::arithmetic::div_mod::lemma_div_pos_is_pos(
                abs(dot3(v3(*ray), v3(diff))),
                mag as int,
            );
            vstd::arithmetic::div_mod::lemma_div_nonincreasing(
                abs(dot3(v3(*ray), v3(diff))),
                mag as int,
            );
        }
        let num: i128 = ray.dot(&diff);
        let num_abs: i128 = if num >= 0 {
            num
        } else {
            -num
        };
        num_abs / (mag as i128)
    };
    Vec3 {
        x: shade_channel(sphere.color.x, shade),
        y: shade_channel(sphere.color.y, shade),
        z: shade_channel(sphere.color.z, shade),
    }
}

} // verus!
