//! From a scene to pixels: the rays of a fixed camera, and the bytes of a
//! colour.
//!
//! The eye stands at `(0, 0, 1)` and looks down the third axis at a square
//! window of side one, centred on that axis in the plane through the origin.
//! A picture of `width` by `height` pixels sends one ray through each point of
//! a regular grid on that window; the first and the last point of every row
//! and column lie on the edge of the window.

use vstd::prelude::*;
use crate::fixed::{clamp, lemma_mul_bound, lemma_trunc_div_bound, trunc_div, ONE, SCENE_MAX};
use crate::geometry::{Vec3, V3};
use crate::rays::{Ray, RayView};
use crate::scene::{lemma_empty_scene_shows_background, Scene};

verus! {

/// One pixel: three channels from 0 to 255.
#[derive(Clone, Copy, Debug, PartialEq, Eq)]
pub struct Pixel {
    pub r: u8,
    pub g: u8,
    pub b: u8,
}

/// The byte that stands for the colour channel `c`: `c * 255` rounded toward
/// zero, and limited to the range of a byte. A channel below zero gives 0,
/// one above one gives 255.
pub open spec fn channel_byte(c: int) -> int {
    clamp(trunc_div(c * 255, ONE as int), 0, 255)
}

/// The pixel that stands for a colour.
pub open spec fn pixel_of(color: V3) -> Pixel {
    Pixel {
        r: channel_byte(color.x) as u8,
        g: channel_byte(color.y) as u8,
        b: channel_byte(color.z) as u8,
    }
}

/// How far point `i` of a grid of `n` points lies along the window: from zero
/// for the first point to one for the last.
pub open spec fn grid_fraction(i: int, n: int) -> int
    recommends
        n >= 2,
{
    trunc_div(i * ONE, n - 1)
}

/// The position of the eye.
pub open spec fn eye() -> V3 {
    V3::new(0, 0, ONE as int)
}

/// The vector from the eye to the point of the window through which the ray
/// of the pixel in column `column`, counted from the left, and row `row`,
/// counted from the bottom, passes.
pub open spec fn pixel_direction(column: int, row: int, width: int, height: int) -> V3 {
    V3::new(grid_fraction(column, width) - ONE / 2, grid_fraction(row, height) - ONE / 2, -ONE)
}

/// The ray of a pixel.
pub open spec fn pixel_ray_view(column: int, row: int, width: int, height: int) -> RayView {
    RayView { origin: eye(), direction: pixel_direction(column, row, width, height).normalized() }
}

/// In a picture stored row by row from the top, the column and the row,
/// counted from the bottom, of the pixel at position `k`.
pub open spec fn pixel_place(k: int, width: int, height: int) -> (int, int) {
    (k % width, height - 1 - k / width)
}

/// The byte that stands for the colour channel `c`.
pub fn quantize(c: i64) -> (byte: u8)
    ensures
        byte == channel_byte(c as int),
{
    proof {
        lemma_mul_bound(c as int, 255, 0x8000_0000_0000_0000, 255);
    }
    let scaled: i128 = ((c as i128) * 255) / (ONE as i128);
    if scaled < 0 {
        0
    } else if scaled > 255 {
        255
    } else {
        scaled as u8
    }
}

/// The pixel that stands for a colour.
pub fn to_pixel(color: &Vec3) -> (pixel: Pixel)
    ensures
        pixel == pixel_of(color@),
{
    Pixel { r: quantize(color.x), g: quantize(color.y), b: quantize(color.z) }
}

/// A grid fraction lies between zero and one.
pub proof fn lemma_grid_fraction_range(i: int, n: int)
    requires
        0 <= i < n,
        n >= 2,
    ensures
        0 <= grid_fraction(i, n) <= ONE,
{
    assert(0 <= i * ONE <= ONE * (n - 1)) by (nonlinear_arith)
        requires
            0 <= i <= n - 1,
    ;
    lemma_trunc_div_bound(i * ONE, n - 1, ONE as int);
}

/// The ray of the pixel in column `column`, counted from the left, and row
/// `row`, counted from the bottom, of a picture of `width` by `height`
/// pixels.
pub fn pixel_ray(column: u32, row: u32, width: u32, height: u32) -> (ray: Ray)
    requires
        column < width,
        row < height,
        width >= 2,
        height >= 2,
    ensures
        ray@ == pixel_ray_view(column as int, row as int, width as int, height as int),
        ray@.wf(),
        ray@.origin.within(SCENE_MAX as int),
{
    proof {
        lemma_grid_fraction_range(column as int, width as int);
        lemma_grid_fraction_range(row as int, height as int);
    }
    let u: i64 = (((column as i128) * (ONE as i128)) / ((width - 1) as i128)) as i64;
    let v: i64 = (((row as i128) * (ONE as i128)) / ((height - 1) as i128)) as i64;
    let camera_origin: Vec3 = Vec3::new(0, 0, ONE);
    let horizontal: Vec3 = Vec3::new(ONE, 0, 0);
    let vertical: Vec3 = Vec3::new(0, ONE, 0);
    let lower_left: Vec3 = Vec3::new(-(ONE / 2), -(ONE / 2), 0);
    proof {
        crate::fixed::lemma_trunc_div_exact(u as int, ONE as int);
        crate::fixed::lemma_trunc_div_exact(v as int, ONE as int);
        assert(ONE * u == u * ONE && ONE * v == v * ONE) by (nonlinear_arith);
        assert(horizontal@.scaled(u as int) == V3::new(u as int, 0, 0));
        assert(vertical@.scaled(v as int) == V3::new(0, v as int, 0));
    }
    let direction: Vec3 = lower_left.plus(&horizontal.scaled(u)).plus(&vertical.scaled(v)).minus(
        &camera_origin,
    );
    Ray::new(camera_origin, direction)
}

/// The picture of `scene`, of `width` by `height` pixels, stored row by row
/// from the top row to the bottom one, each row from left to right.
pub fn render(scene: &Scene, width: u32, height: u32) -> (pixels: Vec<Pixel>)
    requires
        scene@.wf(),
        width >= 2,
        height >= 2,
        width * height <= usize::MAX,
    ensures
        pixels@.len() == width * height,
        forall|k: int|
            0 <= k < pixels@.len() ==> #[trigger] pixels@[k] == pixel_of(
                scene@.color_seen(
                    pixel_ray_view(
                        pixel_place(k, width as int, height as int).0,
                        pixel_place(k, width as int, height as int).1,
                        width as int,
                        height as int,
                    ),
                ),
            ),
        scene@.objects.len() == 0 ==> forall|k: int|
            0 <= k < pixels@.len() ==> #[trigger] pixels@[k] == pixel_of(scene@.background_color),
{
    let mut pixels: Vec<Pixel> = Vec::new();
    let mut done_rows: u32 = 0;
    while done_rows < height
        invariant
            scene@.wf(),
            width >= 2,
            height >= 2,
            done_rows <= height,
            pixels@.len() == done_rows * width,
            forall|k: int|
                0 <= k < pixels@.len() ==> #[trigger] pixels@[k] == pixel_of(
                    scene@.color_seen(
                        pixel_ray_view(
                            pixel_place(k, width as int, height as int).0,
                            pixel_place(k, width as int, height as int).1,
                            width as int,
                            height as int,
                        ),
                    ),
                ),
        decreases height - done_rows,
    {
        let row: u32 = height - 1 - done_rows;
        let mut column: u32 = 0;
        while column < width
            invariant
                scene@.wf(),
                width >= 2,
                height >= 2,
                done_rows < height,
                row == height - 1 - done_rows,
                column <= width,
                pixels@.len() == done_rows * width + column,
                forall|k: int|
                    0 <= k < pixels@.len() ==> #[trigger] pixels@[k] == pixel_of(
                        scene@.color_seen(
                            pixel_ray_view(
                                pixel_place(k, width as int, height as int).0,
                                pixel_place(k, width as int, height as int).1,
                                width as int,
                                height as int,
                            ),
                        ),
                    ),
            decreases width - column,
        {
            let ray: Ray = pixel_ray(column, row, width, height);
            let color: Vec3 = ray.color(scene);
            proof {
                lemma_pixel_place(done_rows as int, column as int, width as int, height as int);
            }
            pixels.push(to_pixel(&color));
            column = column + 1;
        }
        assert(done_rows * width + width == (done_rows + 1) * width) by (nonlinear_arith);
        done_rows = done_rows + 1;
    }
    assert(height * width == width * height) by (nonlinear_arith);
    proof {
        if scene@.objects.len() == 0 {
            assert forall|k: int| 0 <= k < pixels@.len() implies #[trigger] pixels@[k] == pixel_of(
                scene@.background_color,
            ) by {
                let place: (int, int) = pixel_place(k, width as int, height as int);
                lemma_empty_scene_shows_background(
                    scene@,
                    pixel_ray_view(place.0, place.1, width as int, height as int),
                );
            }
        }
    }
    pixels
}

/// Position `done_rows * width + column` of a picture holds the pixel of column
/// `column` in the row that is `done_rows` below the top.
pub proof fn lemma_pixel_place(done_rows: int, column: int, width: int, height: int)
    requires
        0 <= done_rows,
        0 <= column < width,
    ensures
        pixel_place(done_rows * width + column, width, height) == (column, height - 1 - done_rows),
{
    let k: int = done_rows * width + column;
    assert(k / width == done_rows && k % width == column) by (nonlinear_arith)
        requires
            k == done_rows * width + column,
            0 <= column < width,
            0 <= done_rows,
    ;
}

} // verus!
