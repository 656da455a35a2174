//! End-to-end tests of the ray-casting pipeline: scenes, pixels and frames.

use raycast::math::SCALE;
use raycast::render::{quantize, render_frame, render_pixel};
use raycast::scene::Scene;
use raycast::sphere::Sphere;
use raycast::vec3::Vec3;

const GREEN: Vec3 = Vec3 { x: 0, y: 1_000_000, z: 0 };
const BLUE: Vec3 = Vec3 { x: 0, y: 0, z: 1_000_000 };
const RED: Vec3 = Vec3 { x: 1_000_000, y: 0, z: 0 };

/// The three-sphere scene: green at (0.3, 0, 5) radius 0.5, blue at
/// (0.2, 0.2, 3) radius 0.2, red at (-0.2, 0, 4) radius 0.3.
fn three_sphere_scene() -> Scene {
    let mut scene = Scene::new();
    scene.push(Sphere::new(
        Vec3 { x: 300_000, y: 0, z: 5_000_000 },
        500_000,
        GREEN,
    ));
    scene.push(Sphere::new(
        Vec3 { x: 200_000, y: 200_000, z: 3_000_000 },
        200_000,
        BLUE,
    ));
    scene.push(Sphere::new(
        Vec3 { x: -200_000, y: 0, z: 4_000_000 },
        300_000,
        RED,
    ));
    scene
}

#[test]
fn background_when_all_spheres_missed() {
    let scene = three_sphere_scene();
    // Device coordinate (-0.9, 0) misses all three spheres.
    let color = render_pixel(&scene, -900_000, 0);
    assert_eq!(color, Vec3 { x: 0, y: 0, z: 100_000 });
}

#[test]
fn background_on_empty_scene() {
    let scene = Scene::new();
    let color = render_pixel(&scene, 0, 0);
    assert_eq!(color, Vec3 { x: 0, y: 0, z: 100_000 });
}

#[test]
fn golden_pixel_resolves_to_blue_sphere() {
    // Device coordinate (0.2, 0.2): the blue sphere at z = 3 is nearest
    // (green hits at about 4.55, red misses), and the hit is head-on, so the
    // shade is exactly 1 and the pixel is full blue.
    let scene = three_sphere_scene();
    let color = render_pixel(&scene, 200_000, 200_000);
    assert_eq!(color, Vec3 { x: 0, y: 0, z: 1_000_000 });
    assert_eq!(quantize(color.x, 255), 0);
    assert_eq!(quantize(color.y, 255), 0);
    assert_eq!(quantize(color.z, 255), 255);
}

#[test]
fn nearest_hit_wins_regardless_of_insertion_order() {
    // Two overlapping spheres along the same ray: blue at z = 3 is strictly
    // nearer than green at z = 5; either insertion order gives blue.
    let near_blue = Sphere::new(Vec3 { x: 200_000, y: 200_000, z: 3_000_000 }, 200_000, BLUE);
    let far_green = Sphere::new(Vec3 { x: 200_000, y: 200_000, z: 5_000_000 }, 500_000, GREEN);

    let mut forward = Scene::new();
    forward.push(near_blue);
    forward.push(far_green);

    let mut reversed = Scene::new();
    reversed.push(far_green);
    reversed.push(near_blue);

    let a = render_pixel(&forward, 200_000, 200_000);
    let b = render_pixel(&reversed, 200_000, 200_000);
    assert_eq!(a, b);
    assert_eq!(a, Vec3 { x: 0, y: 0, z: 1_000_000 });
}

#[test]
fn equal_distance_tie_keeps_first_sphere() {
    // Two spheres at the same center and radius but different colors hit at
    // exactly the same distance; the earlier sphere wins consistently.
    let center = Vec3 { x: 0, y: 0, z: 3_000_000 };
    let mut scene = Scene::new();
    scene.push(Sphere::new(center, 200_000, RED));
    scene.push(Sphere::new(center, 200_000, BLUE));
    let color = render_pixel(&scene, 0, 0);
    assert_eq!(color, Vec3 { x: 1_000_000, y: 0, z: 0 });
}

#[test]
fn frame_buffer_has_exact_byte_size() {
    let scene = three_sphere_scene();
    let frame = render_frame(&scene, 640, 480, 3, 1);
    assert_eq!(frame.len(), 921_600);
}

#[test]
fn frame_bytes_match_pixel_shader() {
    // A small frame: every byte equals the quantized channel of the pixel
    // shader at that pixel's device coordinates.
    let scene = three_sphere_scene();
    let w: u32 = 10;
    let h: u32 = 10;
    let frame = render_frame(&scene, w, h, 3, 1);
    assert_eq!(frame.len(), (w * h * 3) as usize);
    let mut k: usize = 0;
    for y in 0..h {
        for x in 0..w {
            let dx = SCALE * (2 * x as i64 - w as i64) / w as i64;
            let dy = SCALE * (2 * y as i64 - h as i64) / w as i64;
            let color = render_pixel(&scene, dx, dy);
            assert_eq!(frame[k], quantize(color.x, 255));
            assert_eq!(frame[k + 1], quantize(color.y, 255));
            assert_eq!(frame[k + 2], quantize(color.z, 255));
            k += 3;
        }
    }
}

#[test]
fn frame_of_empty_scene_is_all_background() {
    let scene = Scene::new();
    let frame = render_frame(&scene, 4, 4, 3, 1);
    for p in 0..16 {
        assert_eq!(frame[3 * p], 0);
        assert_eq!(frame[3 * p + 1], 0);
        // 0.1 * 255 truncates to 25.
        assert_eq!(frame[3 * p + 2], 25);
    }
}
