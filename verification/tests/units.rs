//! Unit tests of the pipeline's pieces: intersection, shading, quantization
//! and the fixed-point math helpers.

use raycast::intersect::{ray_sphere_intersection, RaySphereIntersection};
use raycast::math::{isqrt_u128, tdiv_i128};
use raycast::render::{channel_factor, quantize};
use raycast::scene::Scene;
use raycast::shade::shade_hit;
use raycast::sphere::Sphere;
use raycast::vec3::Vec3;

const BLUE: Vec3 = Vec3 { x: 0, y: 0, z: 1_000_000 };
const RED: Vec3 = Vec3 { x: 1_000_000, y: 0, z: 0 };

#[test]
fn vector_algebra_is_exact() {
    let a = Vec3 { x: 2_000_000, y: -3_000_000, z: 500_000 };
    let b = Vec3 { x: 1_000_000, y: 1_000_000, z: -500_000 };
    assert_eq!(a.add(&b), Vec3 { x: 3_000_000, y: -2_000_000, z: 0 });
    assert_eq!(a.sub(&b), Vec3 { x: 1_000_000, y: -4_000_000, z: 1_000_000 });
    // Scaling by 1.5 in fixed-point units.
    assert_eq!(
        a.scale(1_500_000),
        Vec3 { x: 3_000_000, y: -4_500_000, z: 750_000 }
    );
    // (2)(1) + (-3)(1) + (0.5)(-0.5) = -1.25 at scale SCALE^2.
    assert_eq!(a.dot(&b), -1_250_000_000_000);
}

#[test]
fn magnitude_of_three_four_triangle() {
    let v = Vec3 { x: 3_000_000, y: 4_000_000, z: 0 };
    assert_eq!(v.mag_sq(), 25_000_000_000_000);
    assert_eq!(v.mag(), 5_000_000);
}

#[test]
fn isqrt_edge_values() {
    assert_eq!(isqrt_u128(0), 0);
    assert_eq!(isqrt_u128(1), 1);
    assert_eq!(isqrt_u128(3), 1);
    assert_eq!(isqrt_u128(4), 2);
    assert_eq!(isqrt_u128(999_999), 999);
    assert_eq!(isqrt_u128(u128::MAX), u64::MAX as u128);
}

#[test]
fn tdiv_rounds_toward_zero() {
    assert_eq!(tdiv_i128(7, 2), 3);
    assert_eq!(tdiv_i128(-7, 2), -3);
    assert_eq!(tdiv_i128(0, 5), 0);
}

#[test]
fn intersection_distance_is_exact() {
    // From (0.2, 0.2, 0) straight forward into the blue sphere at
    // (0.2, 0.2, 3) radius 0.2: the near root is at distance 2.8 (scale
    // SCALE^2).
    let sphere = Sphere::new(Vec3 { x: 200_000, y: 200_000, z: 3_000_000 }, 200_000, BLUE);
    let origin = Vec3 { x: 200_000, y: 200_000, z: 0 };
    let ray = Vec3 { x: 0, y: 0, z: 1_000_000 };
    let hit = ray_sphere_intersection(&origin, &ray, &sphere);
    assert_eq!(hit, RaySphereIntersection::Yes(2_800_000_000_000));
}

#[test]
fn miss_returns_no_hit() {
    let sphere = Sphere::new(Vec3 { x: -200_000, y: 0, z: 4_000_000 }, 300_000, RED);
    let origin = Vec3 { x: 200_000, y: 200_000, z: 0 };
    let ray = Vec3 { x: 0, y: 0, z: 1_000_000 };
    let hit = ray_sphere_intersection(&origin, &ray, &sphere);
    assert_eq!(hit, RaySphereIntersection::No);
}

#[test]
fn surface_origin_toward_center_hits_at_zero_with_full_shade() {
    // Origin on the surface of a sphere centered at (0, 0, 5) radius 0.5,
    // pointed straight at the center: near-root distance is exactly 0 and
    // the shade is exactly 1, so the color is the sphere's own.
    let sphere = Sphere::new(Vec3 { x: 0, y: 0, z: 5_000_000 }, 500_000, BLUE);
    let origin = Vec3 { x: 0, y: 0, z: 4_500_000 };
    let ray = Vec3 { x: 0, y: 0, z: 1_000_000 };
    let hit = ray_sphere_intersection(&origin, &ray, &sphere);
    assert_eq!(hit, RaySphereIntersection::Yes(0));
    let color = shade_hit(&origin, &ray, &sphere, 0);
    assert_eq!(color, BLUE);
}

#[test]
fn behind_origin_hit_is_reported_with_negative_distance() {
    // Deliberate near-root behavior: a sphere wholly behind the ray origin
    // is still reported, with a negative distance (the near root is never
    // culled).
    let sphere = Sphere::new(Vec3 { x: 0, y: 0, z: -3_000_000 }, 200_000, RED);
    let origin = Vec3 { x: 0, y: 0, z: 0 };
    let ray = Vec3 { x: 0, y: 0, z: 1_000_000 };
    let hit = ray_sphere_intersection(&origin, &ray, &sphere);
    assert_eq!(hit, RaySphereIntersection::Yes(-3_200_000_000_000));
}

#[test]
fn behind_origin_hit_can_win_nearest_selection() {
    // The negative distance of a behind-origin hit is numerically smaller
    // than any positive hit, so it wins nearest-hit selection; hits are
    // deliberately not culled at distance zero.
    let behind = Sphere::new(Vec3 { x: 0, y: 0, z: -3_000_000 }, 200_000, RED);
    let ahead = Sphere::new(Vec3 { x: 0, y: 0, z: 3_000_000 }, 200_000, BLUE);
    let mut scene = Scene::new();
    scene.push(ahead);
    scene.push(behind);
    let origin = Vec3 { x: 0, y: 0, z: 0 };
    let ray = Vec3 { x: 0, y: 0, z: 1_000_000 };
    let nearest = scene.nearest_hit(&origin, &ray);
    assert_eq!(nearest, Some((1, -3_200_000_000_000)));
}

#[test]
fn nearest_hit_reports_index_and_distance() {
    let mut scene = Scene::new();
    scene.push(Sphere::new(Vec3 { x: 300_000, y: 0, z: 5_000_000 }, 500_000, RED));
    scene.push(Sphere::new(Vec3 { x: 200_000, y: 200_000, z: 3_000_000 }, 200_000, BLUE));
    let origin = Vec3 { x: 200_000, y: 200_000, z: 0 };
    let ray = Vec3 { x: 0, y: 0, z: 1_000_000 };
    assert_eq!(scene.nearest_hit(&origin, &ray), Some((1, 2_800_000_000_000)));
    assert_eq!(scene.len(), 2);
    assert_eq!(scene.sphere_at(1).color, BLUE);
}

#[test]
fn quantize_round_trip_bounds() {
    // A shade of exactly 1.0 quantizes to 255 and a shade of 0.0 to 0.
    assert_eq!(quantize(1_000_000, 255), 255);
    assert_eq!(quantize(0, 255), 0);
}

#[test]
fn quantize_clamps_out_of_range_without_wrapping() {
    // A pre-clamp value of 1.2 clamps to 1.0 before scaling; a negative
    // value clamps to 0. Neither wraps nor overflows.
    assert_eq!(quantize(1_200_000, 255), 255);
    assert_eq!(quantize(-100_000, 255), 0);
}

#[test]
fn quantize_truncates_midrange_values() {
    // 0.5 * 255 = 127.5 truncates to 127.
    assert_eq!(quantize(500_000, 255), 127);
    // 0.1 * 255 = 25.5 truncates to 25.
    assert_eq!(quantize(100_000, 255), 25);
}

#[test]
fn channel_factor_for_one_byte_channels() {
    assert_eq!(channel_factor(1), 255);
}
