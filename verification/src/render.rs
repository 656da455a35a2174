//! The per-pixel shader and the frame renderer: pixel indices map to device
//! coordinates, every pixel casts the same forward ray from its own origin,
//! and the clamped colors are quantized into a flat row-major byte buffer.

use vstd::prelude::*;

use crate::math::{tdiv, tdiv_i128, COORD_LIMIT, SCALE, SCALE_SQ};
use crate::scene::{spec_nearest, Scene};
use crate::shade::{shade_hit, spec_clamp_unit, spec_hit_color};
use crate::sphere::Sphere;
use crate::vec3::{v3, Vec3};

verus! {

/// The blue channel of the background color, 0.1 in fixed-point units: the
/// dark blue every missed ray resolves to.
pub const BACKGROUND_BLUE: i64 = 100_000;

/// The ray origin of the pixel at device coordinates `(x, y)`: the camera
/// plane sits at depth zero.
pub open spec fn spec_origin(x: int, y: int) -> Vec3 {
    Vec3 { x: x as i64, y: y as i64, z: 0 }
}

/// The direction shared by every pixel's ray: one unit straight forward, an
/// orthographic projection with no perspective divergence.
pub open spec fn spec_cam_ray() -> Vec3 {
    Vec3 { x: 0, y: 0, z: SCALE }
}

/// The background color as a channel triple.
pub open spec fn spec_background() -> (int, int, int) {
    (0, 0, BACKGROUND_BLUE as int)
}

/// The color of the pixel at device coordinates `(x, y)`: the shaded color
/// of the nearest hit, or the background when every sphere is missed.
pub open spec fn spec_render_pixel(s: Seq<Sphere>, x: int, y: int) -> (int, int, int) {
    match spec_nearest(s, spec_origin(x, y), spec_cam_ray()) {
        None => spec_background(),
        Some(p) => spec_hit_color(spec_origin(x, y), spec_cam_ray(), s[p.0], p.1),
    }
}

/// Maps a column index to a device x coordinate: `2 * (x / w - 0.5)` in
/// fixed-point units, rounded toward zero.
pub open spec fn spec_device_x(x: int, w: int) -> int {
    tdiv((SCALE as int) * (2 * x - w), w)
}

/// Maps a row index to a device y coordinate: `2 * aspect * (y / h - 0.5)`
/// with `aspect = h / w`, which reduces to `(2 * y - h) / w`; the aspect
/// ratio scales y but not x.
pub open spec fn spec_device_y(y: int, h: int, w: int) -> int {
    tdiv((SCALE as int) * (2 * y - h), w)
}

/// One channel of a color triple.
pub open spec fn tuple_channel(col: (int, int, int), c: int) -> int {
    if c == 0 {
        col.0
    } else if c == 1 {
        col.1
    } else {
        col.2
    }
}

/// A unit-range value quantized to an integer channel value: clamped to
/// `[0, SCALE]`, scaled by `factor` and truncated. Out-of-range inputs are
/// clamped, never wrapped.
pub open spec fn spec_quantize(v: int, factor: int) -> int {
    (spec_clamp_unit(v) * factor) / (SCALE as int)
}

/// The byte at position `k` of the rendered frame: pixels are laid out
/// row-major, top-to-bottom, left-to-right, three interleaved channels per
/// pixel.
pub open spec fn spec_frame_byte(s: Seq<Sphere>, w: int, h: int, k: int) -> int {
    let p = k / 3;
    let c = k % 3;
    let y = p / w;
    let x = p % w;
    spec_quantize(tuple_channel(spec_render_pixel(s, spec_device_x(x, w), spec_device_y(y, h, w)), c), 255)
}

/// Computes the color of one pixel, exactly as `spec_render_pixel` states;
/// every channel of the result is already clamped to `[0, SCALE]`.
pub fn render_pixel(scene: &Scene, x: i64, y: i64) -> (r: Vec3)
    requires
        scene.wf(),
        -COORD_LIMIT <= x <= COORD_LIMIT,
        -COORD_LIMIT <= y <= COORD_LIMIT,
    ensures
        v3(r) == spec_render_pixel(scene.view_seq(), x as int, y as int),
        0 <= r.x <= SCALE,
        0 <= r.y <= SCALE,
        0 <= r.z <= SCALE,
{
    let origin = Vec3 { x, y, z: 0 };
    let ray = Vec3 { x: 0, y: 0, z: SCALE };
    match scene.nearest_hit(&origin, &ray) {
        None => Vec3 { x: 0, y: 0, z: BACKGROUND_BLUE },
        Some(p) => {
            let sphere = scene.sphere_at(p.0);
            shade_hit(&origin, &ray, &sphere, p.1)
        },
    }
}

/// Clamps to the unit range, scales by `factor` and truncates to an integer
/// channel value, exactly as `spec_quantize` states; the result never
/// exceeds `factor`.
pub fn quantize(v: i64, factor: i64) -> (r: u8)
    requires
        0 <= factor <= 255,
    ensures
        r as int == spec_quantize(v as int, factor as int),
        r <= factor,
{
    let c: i64 = if v < 0 {
        0
    } else if v > SCALE {
        SCALE
    } else {
        v
    };
    proof {
        assert(0 <= c * factor && c * factor <= 1_000_000 * factor) by (nonlinear_arith)
            requires
                0 <= c <= 1_000_000,
                0 <= factor,
        ;
        vstd::arithmetic::div_mod::lemma_div_pos_is_pos(c * factor, SCALE as int);
        vstd::arithmetic::div_mod::lemma_div_is_ordered(c * factor, 1_000_000 * factor,
            SCALE as int);
        vstd::arithmetic::div_mod::lemma_div_multiples_vanish(factor as int, 1_000_000);
    }
    let q: i64 = (c * factor) / SCALE;
    q as u8
}

/// The per-channel quantization factor for the pixel format: one byte per
/// channel gives `2^8 - 1`.
pub fn channel_factor(bytes_per_channel: u8) -> (r: i64)
    requires
        bytes_per_channel == 1,
    ensures
        r == 255,
{
    let bits: u32 = 8 * (bytes_per_channel as u32);
    proof {
        assert((1i64 << 8u32) == 256i64) by (bit_vector);
    }
    (1i64 << bits) - 1
}

/// Where the byte for channel `c` of the pixel at column `x`, row `y`
/// stands in the frame buffer, and what `spec_frame_byte` says about it.
proof fn lemma_frame_byte_at(s: Seq<Sphere>, w: int, h: int, x: int, y: int, c: int)
    requires
        0 < w,
        0 <= x < w,
        0 <= y,
        0 <= c < 3,
    ensures
        spec_frame_byte(s, w, h, 3 * (y * w + x) + c) == spec_quantize(
            tuple_channel(spec_render_pixel(s, spec_device_x(x, w), spec_device_y(y, h, w)), c),
            255,
        ),
{
    let p = y * w + x;
    assert(y * w + x >= 0) by (nonlinear_arith)
        requires
            y >= 0,
            w > 0,
            x >= 0,
    ;
    let k = 3 * p + c;
    vstd::arithmetic::mul::lemma_mul_is_commutative(3, p);
    vstd::arithmetic::div_mod::lemma_fundamental_div_mod_converse(k, 3, p, c);
    vstd::arithmetic::mul::lemma_mul_is_commutative(y, w);
    vstd::arithmetic::div_mod::lemma_fundamental_div_mod_converse(p, w, y, x);
}

/// Renders a full frame: for every pixel of a `width` by `height` image,
/// top-to-bottom and left-to-right, the pixel's device coordinates are
/// shaded and its three channels quantized into consecutive bytes.
///
/// Only the 3-channel, one-byte-per-channel format is coherent with the
/// three-channel shader output, so the format arguments are pinned by the
/// precondition; the height bound keeps device coordinates within the range
/// the fixed-point intersection math is exact for.
pub fn render_frame(scene: &Scene, width: u32, height: u32, channels: u8, bytes_per_channel: u8)
    -> (r: Vec<u8>)
    requires
        scene.wf(),
        0 < width,
        0 < height,
        channels == 3,
        bytes_per_channel == 1,
        height as int <= 500 * (width as int),
    ensures
        r@.len() == (width as int) * (height as int) * (channels as int) * (
        bytes_per_channel as int),
        forall|k: int|
            0 <= k < r@.len() ==> r@[k] == spec_frame_byte(
                scene.view_seq(),
                width as int,
                height as int,
                k,
            ),
{
    let factor: i64 = channel_factor(bytes_per_channel);
    let mut buf: Vec<u8> = Vec::new();
    let mut y: u32 = 0;
    while y < height
        invariant
            scene.wf(),
            0 < width,
            0 < height,
            height as int <= 500 * (width as int),
            factor == 255,
            0 <= y <= height,
            buf@.len() == 3 * ((y as int) * (width as int)),
            forall|k: int|
                0 <= k < buf@.len() ==> buf@[k] == spec_frame_byte(
                    scene.view_seq(),
                    width as int,
                    height as int,
                    k,
                ),
        decreases height - y,
    {
        let mut x: u32 = 0;
        while x < width
            invariant
                scene.wf(),
                0 < width,
                0 < height,
                height as int <= 500 * (width as int),
                factor == 255,
                0 <= y < height,
                0 <= x <= width,
                buf@.len() == 3 * ((y as int) * (width as int) + (x as int)),
                forall|k: int|
                    0 <= k < buf@.len() ==> buf@[k] == spec_frame_byte(
                        scene.view_seq(),
                        width as int,
                        height as int,
                        k,
                    ),
            decreases width - x,
        {
            let num_x: i64 = SCALE * (2 * (x as i64) - (width as i64));
            let num_y: i64 = SCALE * (2 * (y as i64) - (height as i64));
            proof {
                assert(num_x as int == 1_000_000 * (2 * (x as int) - (width as int)));
                assert(num_y as int == 1_000_000 * (2 * (y as int) - (height as int)));
                assert(-1_000_000 * (width as int) <= num_x as int <= 1_000_000 * (width as int));
                assert(-500_000_000 * (width as int) <= num_y as int <= 500_000_000 * (
                width as int));
                crate::math::lemma_tdiv_bound(num_x as int, width as int,
                    1_000_000 * (width as int));
                crate::math::lemma_tdiv_bound(num_y as int, width as int,
                    500_000_000 * (width as int));
                vstd::arithmetic::div_mod::lemma_div_multiples_vanish(1_000_000, width as int);
                vstd::arithmetic::div_mod::lemma_div_multiples_vanish(500_000_000, width as int);
            }
            let dx: i64 = tdiv_i128(num_x as i128, width as i128) as i64;
            let dy: i64 = tdiv_i128(num_y as i128, width as i128) as i64;
            let col = render_pixel(scene, dx, dy);
            proof {
                lemma_frame_byte_at(scene.view_seq(), width as int, height as int, x as int,
                    y as int, 0);
                lemma_frame_byte_at(scene.view_seq(), width as int, height as int, x as int,
                    y as int, 1);
                lemma_frame_byte_at(scene.view_seq(), width as int, height as int, x as int,
                    y as int, 2);
            }
            buf.push(quantize(col.x, factor));
            buf.push(quantize(col.y, factor));
            buf.push(quantize(col.z, factor));
            x = x + 1;
        }
        proof {
            assert(3 * ((y as int) * (width as int) + (width as int)) == 3 * (((y as int) + 1) * (
            width as int))) by (nonlinear_arith);
        }
        y = y + 1;
    }
    proof {
        assert(3 * ((height as int) * (width as int)) == (width as int) * (height as int) * 3 * 1)
            by (nonlinear_arith);
    }
    buf
}

} // verus!
