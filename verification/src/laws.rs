//! The library's laws: properties of the pipeline that hold for every scene
//! and ray, proved from the spec functions the executable contracts use.

use vstd::prelude::*;

use crate::intersect::spec_hit_dist;
use crate::math::{sqrt_floor, tdiv, SCALE};
use crate::render::{spec_background, spec_cam_ray, spec_origin, spec_render_pixel};
use crate::scene::{lemma_nearest_prefix_props, spec_nearest};
use crate::shade::spec_hit_color;
use crate::sphere::Sphere;
use crate::vec3::{dot3, mag_sq3, sub3, v3, Vec3};

verus! {

/// Law: a pixel whose ray misses every sphere in the scene resolves to
/// exactly the background color.
pub proof fn lemma_miss_gives_background(s: Seq<Sphere>, x: int, y: int)
    requires
        forall|j: int|
            0 <= j < s.len() ==> #[trigger] spec_hit_dist(spec_origin(x, y), spec_cam_ray(), s[j])
                is None,
    ensures
        spec_render_pixel(s, x, y) == spec_background(),
{
    lemma_nearest_prefix_props(s, spec_origin(x, y), spec_cam_ray(), s.len() as int);
}

/// Law: a ray starting on a sphere's surface and pointed straight at its
/// center hits at near-root distance exactly zero, and the hit is shaded
/// with the sphere's full color: the shade of a head-on hit is 1.
pub proof fn lemma_surface_hit_full_color(sph: Sphere, origin: Vec3)
    requires
        sph.wf(),
        origin.x == sph.center.x,
        origin.y == sph.center.y,
        origin.z == sph.center.z - sph.radius,
    ensures
        spec_hit_dist(origin, spec_cam_ray(), sph) == Some(0int),
        spec_hit_color(origin, spec_cam_ray(), sph, 0) == v3(sph.color),
{
    let ray = spec_cam_ray();
    let oc = sub3(v3(origin), v3(sph.center));
    let r = sph.radius as int;
    let k = 1_000_000 * r;
    assert(oc == (0int, 0int, -r));
    assert(dot3(v3(ray), oc) == -k);
    assert(mag_sq3(oc) == (-r) * (-r));
    assert((-r) * (-r) == r * r && (-k) * (-k) == k * k && 1 <= r * r) by (nonlinear_arith)
        requires
            r >= 1,
            k == 1_000_000 * r,
    ;
    crate::math::lemma_sqrt_floor_square(k as nat);
    assert(crate::intersect::spec_disc(origin, ray, sph) == k * k);
    assert(spec_hit_dist(origin, ray, sph) == Some(k - sqrt_floor((k * k) as nat)));
    assert(spec_hit_dist(origin, ray, sph) == Some(0int));
    vstd::arithmetic::div_mod::lemma_div_basics(1_000_000_000_000);
    assert(tdiv(0, 1_000_000_000_000) == 0);
    assert(crate::shade::spec_diff(origin, ray, sph, 0) == oc);
    crate::math::lemma_sqrt_floor_square(r as nat);
    vstd::arithmetic::div_mod::lemma_div_multiples_vanish(1_000_000, r);
    assert(crate::shade::spec_shade(origin, ray, sph, 0) == k / r);
    assert(k / r == 1_000_000);
    vstd::arithmetic::div_mod::lemma_div_multiples_vanish(sph.color.x as int, 1_000_000);
    vstd::arithmetic::div_mod::lemma_div_multiples_vanish(sph.color.y as int, 1_000_000);
    vstd::arithmetic::div_mod::lemma_div_multiples_vanish(sph.color.z as int, 1_000_000);
}

/// Law: when one sphere's hit is strictly nearer than every other sphere's
/// hit, nearest-hit selection returns exactly that sphere and distance.
pub proof fn lemma_strict_min_selected(s: Seq<Sphere>, origin: Vec3, ray: Vec3, i: int, d: int)
    requires
        0 <= i < s.len(),
        spec_hit_dist(origin, ray, s[i]) == Some(d),
        forall|j: int|
            0 <= j < s.len() && j != i ==> (#[trigger] spec_hit_dist(origin, ray, s[j]) matches
                Some(dj) ==> d < dj),
    ensures
        spec_nearest(s, origin, ray) == Some((i, d)),
{
    lemma_nearest_prefix_props(s, origin, ray, s.len() as int);
    match spec_nearest(s, origin, ray) {
        None => {
            assert(spec_hit_dist(origin, ray, s[i]) is None);
        },
        Some(p) => {
            if p.0 != i {
                assert(spec_hit_dist(origin, ray, s[p.0]) == Some(p.1));
                assert(d < p.1);
                assert(p.1 <= d);
            }
        },
    }
}

/// Law: with a strictly nearest hit, the pixel color does not depend on the
/// scene's insertion order: the reversed scene shades the pixel
/// identically.
pub proof fn lemma_reverse_same_pixel(s: Seq<Sphere>, x: int, y: int, i: int, d: int)
    requires
        0 <= i < s.len(),
        spec_hit_dist(spec_origin(x, y), spec_cam_ray(), s[i]) == Some(d),
        forall|j: int|
            0 <= j < s.len() && j != i ==> (#[trigger] spec_hit_dist(
                spec_origin(x, y),
                spec_cam_ray(),
                s[j],
            ) matches Some(dj) ==> d < dj),
    ensures
        spec_render_pixel(s.reverse(), x, y) == spec_render_pixel(s, x, y),
{
    let o = spec_origin(x, y);
    let ray = spec_cam_ray();
    let rev = s.reverse();
    let ri = s.len() - 1 - i;
    lemma_strict_min_selected(s, o, ray, i, d);
    assert(rev[ri] == s[i]);
    assert forall|j: int| 0 <= j < rev.len() && j != ri implies (#[trigger] spec_hit_dist(
        o,
        ray,
        rev[j],
    ) matches Some(dj) ==> d < dj) by {
        assert(rev[j] == s[s.len() - 1 - j]);
        assert(s.len() - 1 - j != i);
    }
    lemma_strict_min_selected(rev, o, ray, ri, d);
    assert(spec_render_pixel(rev, x, y) == spec_hit_color(o, ray, rev[ri], d));
    assert(spec_render_pixel(s, x, y) == spec_hit_color(o, ray, s[i], d));
}

} // verus!
