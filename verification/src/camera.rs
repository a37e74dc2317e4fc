//! The camera: image geometry, the pixel-to-ray mapping, shading, and the
//! render loop.
//!
//! All world-space geometry is stored in units of 1/`image_height` of world
//! space.  The world-space viewport is 2 units tall with a focal length of 1
//! and square pixels, so in these units the distance between adjacent pixel
//! centers is exactly 2, the focal length is `image_height`, and every
//! coordinate the camera needs is an integer.  A ray direction in these units
//! is the world-space direction scaled by `image_height`, a positive factor,
//! which leaves its unit vector — and so the shading — unchanged (see
//! [`crate::color::lemma_gradient_channel_scale_invariant`]).

use crate::color::{
    dec_digits, gradient_channel, gradient_channel_val, pixel_line, push_decimal, Color,
};
use crate::ray::Ray;
use crate::vectors::{
    dot_fits, v3_add, v3_dot, v3_fits, v3_scale, v3_sub, v3_zero, Point, Vec3, V3,
};
use vstd::arithmetic::div_mod::{lemma_div_multiples_vanish, lemma_div_pos_is_pos};
use vstd::prelude::*;

verus! {

/// The largest accepted image dimension; keeps every squared ray-direction
/// component, and their sum, within `i64`.
pub const MAX_DIMENSION: i32 = 1_000_000_000;

/// The image dimensions in pixels.
pub struct Image {
    pub width: i32,
    pub height: i32,
}

/// The image plane: the center of its first (top-left) pixel and the
/// displacements between adjacent pixel centers, all in units of
/// 1/`image_height` of world space.
pub struct Viewport {
    pub center: Vec3,
    pub delta_horizontal: Vec3,
    pub delta_vertical: Vec3,
}

/// A camera: the eye point, the image dimensions, and the viewport computed
/// from them.  Built once by [`Camera::new`]; never mutated.
pub struct Camera {
    pub center: Point,
    pub image: Image,
    pub viewport: Viewport,
}

/// The derived image height: the width divided by the aspect ratio, rounded
/// toward zero and raised to at least one row.
pub open spec fn spec_image_height(aspect_num: int, aspect_den: int, image_width: int) -> int {
    let h = (image_width * aspect_den) / aspect_num;
    if h < 1 {
        1
    } else {
        h
    }
}

/// The center of the top-left pixel in viewport units: half a pixel inward
/// from the viewport's upper-left corner `(-w, h, -h)`.
pub open spec fn pixel00_model(w: int, h: int) -> V3 {
    V3 { x: 1 - w, y: h - 1, z: -h }
}

/// The center of pixel `(row, col)`: the first pixel center displaced `col`
/// pixels horizontally and `row` pixels vertically.
pub open spec fn spec_pixel_center(v: Viewport, row: int, col: int) -> V3 {
    v3_add(v.center@, v3_add(v3_scale(v.delta_horizontal@, col), v3_scale(v.delta_vertical@, row)))
}

/// Computes the image height from the aspect ratio `aspect_num /
/// aspect_den` and the image width: the width divided by the ratio, rounded
/// toward zero, but at least one row.
pub fn calc_image_height(aspect_num: i32, aspect_den: i32, image_width: i32) -> (h: i32)
    requires
        1 <= aspect_num,
        1 <= aspect_den,
        0 <= image_width,
        spec_image_height(aspect_num as int, aspect_den as int, image_width as int) <= i32::MAX,
    ensures
        h as int == spec_image_height(aspect_num as int, aspect_den as int, image_width as int),
        h >= 1,
{
    proof {
        assert(0 <= image_width * aspect_den <= 0x7fff_ffff * 0x7fff_ffffi64) by (nonlinear_arith)
            requires
                0 <= image_width <= 0x7fff_ffff,
                1 <= aspect_den <= 0x7fff_ffff,
        ;
    }
    let wide: i64 = (image_width as i64) * (aspect_den as i64);
    let h: i64 = wide / (aspect_num as i64);
    proof {
        lemma_div_pos_is_pos(wide as int, aspect_num as int);
    }
    if h < 1 {
        1
    } else {
        h as i32
    }
}

impl Camera {
    /// The camera is as [`Camera::new`] builds it: the eye at the origin and
    /// the viewport of its image dimensions, in viewport units.
    pub open spec fn wf(self) -> bool {
        &&& 1 <= self.image.width <= MAX_DIMENSION
        &&& 1 <= self.image.height <= MAX_DIMENSION
        &&& self.center@ == v3_zero()
        &&& self.viewport.center@ == pixel00_model(
            self.image.width as int,
            self.image.height as int,
        )
        &&& self.viewport.delta_horizontal@ == (V3 { x: 2, y: 0, z: 0 })
        &&& self.viewport.delta_vertical@ == (V3 { x: 0, y: -2, z: 0 })
    }

    /// Builds the camera for an ideal aspect ratio `aspect_num / aspect_den`
    /// and an image width in pixels.
    ///
    /// The image height is derived first; the viewport then uses the
    /// realized ratio `image_width / image_height`, which keeps pixels
    /// square even where the two ratios differ.
    pub fn new(aspect_num: i32, aspect_den: i32, image_width: i32) -> (cam: Camera)
        requires
            1 <= aspect_num,
            1 <= aspect_den,
            1 <= image_width <= MAX_DIMENSION,
            spec_image_height(aspect_num as int, aspect_den as int, image_width as int)
                <= MAX_DIMENSION,
        ensures
            cam.wf(),
            cam.image.width == image_width,
            cam.image.height as int == spec_image_height(
                aspect_num as int,
                aspect_den as int,
                image_width as int,
            ),
    {
        let image_height = calc_image_height(aspect_num, aspect_den, image_width);
        let w: i64 = image_width as i64;
        let h: i64 = image_height as i64;

        let camera_center = Vec3::zero();
        // The focal length is 1 in world space, so `h` in viewport units.
        let focal = Vec3 { x: 0, y: 0, z: h };
        // The viewport spans the width horizontally and is 2 world units —
        // `2 * h` viewport units — tall, with the vertical axis inverted:
        // row 0 is the top of the image but world-space y grows upward.
        let two_h: i64 = 2 * h;
        let viewport_u = Vec3 { x: 2 * w, y: 0, z: 0 };
        let viewport_v = Vec3 { x: 0, y: -two_h, z: 0 };

        proof {
            lemma_div_multiples_vanish(2, w as int);
            lemma_div_multiples_vanish(2, h as int);
            assert(2 * w == w as int * 2 && two_h == h as int * 2) by (nonlinear_arith)
                requires
                    two_h == 2 * h,
            ;
            lemma_div_multiples_vanish(w as int, 2);
            lemma_div_multiples_vanish(h as int, 2);
        }
        let pixel_delta_horizontal = viewport_u.div(w);
        let pixel_delta_vertical = viewport_v.div(h);

        let viewport_origin = camera_center.sub(focal).sub(viewport_u.div(2)).sub(
            viewport_v.div(2),
        );
        let viewport_center = viewport_origin.add(
            pixel_delta_horizontal.add(pixel_delta_vertical).div(2),
        );

        Camera {
            center: camera_center,
            image: Image { width: image_width, height: image_height },
            viewport: Viewport {
                center: viewport_center,
                delta_horizontal: pixel_delta_horizontal,
                delta_vertical: pixel_delta_vertical,
            },
        }
    }
}

impl Viewport {
    /// The center of pixel `(row, col)`.  Indices out of the image range are
    /// not rejected: they extrapolate linearly beyond the viewport.
    pub fn pixel_center(&self, row: i32, col: i32) -> (r: Point)
        requires
            v3_fits(v3_scale(self.delta_horizontal@, col as int)),
            v3_fits(v3_scale(self.delta_vertical@, row as int)),
            v3_fits(v3_add(self.center@, v3_scale(self.delta_horizontal@, col as int))),
            v3_fits(spec_pixel_center(*self, row as int, col as int)),
        ensures
            r@ == spec_pixel_center(*self, row as int, col as int),
    {
        self.center.add(self.delta_horizontal.mul(col as i64)).add(
            self.delta_vertical.mul(row as i64),
        )
    }
}

/// The center of pixel `(0, 0)` is the viewport's first pixel center,
/// exactly.
pub proof fn lemma_pixel_center_origin(v: Viewport)
    ensures
        spec_pixel_center(v, 0, 0) == v.center@,
{
}

/// Adjacent pixel centers in a row differ by exactly the horizontal pixel
/// displacement.
pub proof fn lemma_pixel_center_horizontal_step(v: Viewport, row: int, col: int)
    ensures
        v3_sub(spec_pixel_center(v, row, col), spec_pixel_center(v, row, col - 1))
            == v.delta_horizontal@,
{
    let dh = v.delta_horizontal@;
    assert(dh.x * col - dh.x * (col - 1) == dh.x) by (nonlinear_arith);
    assert(dh.y * col - dh.y * (col - 1) == dh.y) by (nonlinear_arith);
    assert(dh.z * col - dh.z * (col - 1) == dh.z) by (nonlinear_arith);
}

/// The gradient color of a ray, by the `y` component of the unit vector of
/// its direction.
///
/// With `uy = dy / sqrt(s)` mapped to the blend weight `a = (uy + 1) / 2`,
/// the color is `white * (1 - a) + blue * a` for white `(1, 1, 1)` and blue
/// `(0.5, 0.7, 1.0)`, and each channel is the component scaled by 255 and
/// rounded down:
/// - red: `255 * (1 - a / 2) = (765 * sqrt(s) - 255 * dy) / (4 * sqrt(s))`,
/// - green: `255 * (1 - 3 * a / 10)
///   = (4335 * sqrt(s) - 765 * dy) / (20 * sqrt(s))`,
/// - blue: both endpoints have blue component 1, so the channel is 255.
///
/// Each floor is computed exactly (see
/// [`crate::color::gradient_channel`]); no pair of coefficients depends on
/// the ray, so the color depends only on the direction, and only up to
/// positive rescaling.
pub fn ray_color(ray: Ray) -> (c: Color)
    requires
        dot_fits(ray.dir@, ray.dir@),
        v3_dot(ray.dir@, ray.dir@) > 0,
    ensures
        c.r as int == gradient_channel_val(765, -255, 4, ray.dir@.y, v3_dot(ray.dir@, ray.dir@)),
        c.g as int == gradient_channel_val(
            4335,
            -765,
            20,
            ray.dir@.y,
            v3_dot(ray.dir@, ray.dir@),
        ),
        c.b == 255,
{
    let dir = ray.direction();
    let s = dir.magnitude_squared();
    proof {
        assert(dir@.y * dir@.y <= v3_dot(dir@, dir@)) by (nonlinear_arith);
    }
    let red = gradient_channel(765, -255, 4, dir.y, s);
    let green = gradient_channel(4335, -765, 20, dir.y, s);
    Color { r: red, g: green, b: 255 }
}

/// A ray pointing straight down (unit direction y = -1) shades to white:
/// channels `(255, 255, 255)`.
pub proof fn lemma_shading_down_is_white(dy: int, s: int)
    requires
        dy < 0,
        dy * dy == s,
    ensures
        gradient_channel_val(765, -255, 4, dy, s) == 255,
        gradient_channel_val(4335, -765, 20, dy, s) == 255,
{
    crate::color::lemma_channel_val_down(765, -255, 4, dy, s);
    crate::color::lemma_channel_val_down(4335, -765, 20, dy, s);
}

/// A ray pointing straight up (unit direction y = 1) shades to blue
/// `(0.5, 0.7, 1.0)`: channels `(127, 178, 255)`.
pub proof fn lemma_shading_up_is_blue(dy: int, s: int)
    requires
        dy > 0,
        dy * dy == s,
    ensures
        gradient_channel_val(765, -255, 4, dy, s) == 127,
        gradient_channel_val(4335, -765, 20, dy, s) == 178,
{
    crate::color::lemma_channel_val_up(765, -255, 4, dy, s);
    crate::color::lemma_channel_val_up(4335, -765, 20, dy, s);
}

/// A level ray (unit direction y = 0) shades to the midpoint of white and
/// blue, `(0.75, 0.85, 1.0)`: channels `(191, 216, 255)`.
pub proof fn lemma_shading_level_is_mid(s: int)
    requires
        s > 0,
    ensures
        gradient_channel_val(765, -255, 4, 0, s) == 191,
        gradient_channel_val(4335, -765, 20, 0, s) == 216,
{
    crate::color::lemma_channel_val_level(765, -255, 4, s);
    crate::color::lemma_channel_val_level(4335, -765, 20, s);
}

/// The header of the image stream: the raster identifier `P3`, the image
/// dimensions, and the maximum channel value 255, one line each.
pub open spec fn header_bytes(w: int, h: int) -> Seq<u8> {
    seq![80u8, 51u8, 10u8] + dec_digits(w) + seq![32u8] + dec_digits(h) + seq![10u8] + dec_digits(
        255,
    ) + seq![10u8]
}

/// The direction of the ray cast through pixel `(row, col)`: from the eye
/// to the pixel center.
pub open spec fn spec_pixel_dir(cam: Camera, row: int, col: int) -> V3 {
    v3_sub(spec_pixel_center(cam.viewport, row, col), cam.center@)
}

/// The encoded line of pixel `(row, col)`: the gradient color of its ray.
pub open spec fn spec_pixel_line(cam: Camera, row: int, col: int) -> Seq<u8> {
    let d = spec_pixel_dir(cam, row, col);
    let s = v3_dot(d, d);
    pixel_line(
        gradient_channel_val(765, -255, 4, d.y, s),
        gradient_channel_val(4335, -765, 20, d.y, s),
        255,
    )
}

/// The first `ncols` pixel lines of a row, left to right.
pub open spec fn spec_row_bytes(cam: Camera, row: int, ncols: int) -> Seq<u8>
    decreases ncols,
{
    if ncols <= 0 {
        Seq::empty()
    } else {
        spec_row_bytes(cam, row, ncols - 1) + spec_pixel_line(cam, row, ncols - 1)
    }
}

/// The pixel lines of the first `nrows` rows, top row first.
pub open spec fn spec_rows_bytes(cam: Camera, nrows: int) -> Seq<u8>
    decreases nrows,
{
    if nrows <= 0 {
        Seq::empty()
    } else {
        spec_rows_bytes(cam, nrows - 1) + spec_row_bytes(cam, nrows - 1, cam.image.width as int)
    }
}

/// The whole image stream: the header, then one line per pixel in row-major
/// order.
pub open spec fn spec_render(cam: Camera) -> Seq<u8> {
    header_bytes(cam.image.width as int, cam.image.height as int) + spec_rows_bytes(
        cam,
        cam.image.height as int,
    )
}

/// A ray direction of a well-formed camera: components bounded by the image
/// dimensions and a nonzero depth, so its squared magnitude is positive and
/// all dot-product arithmetic stays within `i64`.
proof fn lemma_dir_fits(d: V3, w: int, h: int)
    requires
        1 <= w <= MAX_DIMENSION,
        1 <= h <= MAX_DIMENSION,
        -w <= d.x <= w,
        -h <= d.y <= h,
        d.z == -h,
    ensures
        dot_fits(d, d),
        v3_dot(d, d) > 0,
{
    assert(0 <= d.x * d.x <= 1_000_000_000_000_000_000) by (nonlinear_arith)
        requires
            -1_000_000_000 <= d.x <= 1_000_000_000,
    ;
    assert(0 <= d.y * d.y <= 1_000_000_000_000_000_000) by (nonlinear_arith)
        requires
            -1_000_000_000 <= d.y <= 1_000_000_000,
    ;
    assert(1 <= d.z * d.z <= 1_000_000_000_000_000_000) by (nonlinear_arith)
        requires
            -1_000_000_000 <= d.z <= -1,
    ;
}

impl Camera {
    /// Appends the image stream header to a byte buffer.
    pub fn write_headers(&self, out: &mut Vec<u8>)
        requires
            0 <= self.image.width,
            0 <= self.image.height,
        ensures
            final(out)@ == old(out)@ + header_bytes(
                self.image.width as int,
                self.image.height as int,
            ),
    {
        out.push(80);
        out.push(51);
        out.push(10);
        push_decimal(out, self.image.width as i64);
        out.push(32);
        push_decimal(out, self.image.height as i64);
        out.push(10);
        push_decimal(out, 255);
        out.push(10);
        proof {
            assert(out@ =~= old(out)@ + header_bytes(
                self.image.width as int,
                self.image.height as int,
            ));
        }
    }

    /// Appends the pixel lines of one image row, left to right, to a byte
    /// buffer.
    pub fn render_row(&self, row: i32, out: &mut Vec<u8>)
        requires
            self.wf(),
            0 <= row < self.image.height,
        ensures
            final(out)@ == old(out)@ + spec_row_bytes(*self, row as int, self.image.width as int),
    {
        let mut col: i32 = 0;
        proof {
            assert(out@ =~= old(out)@ + spec_row_bytes(*self, row as int, 0));
        }
        while col < self.image.width
            invariant
                self.wf(),
                0 <= row < self.image.height,
                0 <= col <= self.image.width,
                out@ == old(out)@ + spec_row_bytes(*self, row as int, col as int),
            decreases self.image.width - col,
        {
            proof {
                let w = self.image.width as int;
                let h = self.image.height as int;
                let vp = self.viewport;
                assert(vp.delta_horizontal@.x * (col as int) == 2 * (col as int))
                    by (nonlinear_arith)
                    requires
                        vp.delta_horizontal@.x == 2,
                ;
                assert(vp.delta_horizontal@.y * (col as int) == 0) by (nonlinear_arith)
                    requires
                        vp.delta_horizontal@.y == 0,
                ;
                assert(vp.delta_horizontal@.z * (col as int) == 0) by (nonlinear_arith)
                    requires
                        vp.delta_horizontal@.z == 0,
                ;
                assert(vp.delta_vertical@.x * (row as int) == 0) by (nonlinear_arith)
                    requires
                        vp.delta_vertical@.x == 0,
                ;
                assert(vp.delta_vertical@.y * (row as int) == -2 * (row as int))
                    by (nonlinear_arith)
                    requires
                        vp.delta_vertical@.y == -2,
                ;
                assert(vp.delta_vertical@.z * (row as int) == 0) by (nonlinear_arith)
                    requires
                        vp.delta_vertical@.z == 0,
                ;
                let pc = spec_pixel_center(vp, row as int, col as int);
                assert(pc.x == 1 - w + 2 * col);
                assert(pc.y == h - 1 - 2 * row);
                assert(pc.z == -h);
            }
            let pixel_center = self.viewport.pixel_center(row, col);
            let ray = Ray { orig: self.center, dir: pixel_center.sub(self.center) };
            proof {
                lemma_dir_fits(
                    ray.dir@,
                    self.image.width as int,
                    self.image.height as int,
                );
            }
            let pixel = ray_color(ray);
            pixel.write(out);
            proof {
                assert(out@ =~= old(out)@ + spec_row_bytes(*self, row as int, col as int + 1));
            }
            col = col + 1;
        }
    }

    /// Appends the pixel lines of every pixel, in row-major order — the top
    /// row first, each row left to right — to a byte buffer.
    pub fn render_pixels(&self, out: &mut Vec<u8>)
        requires
            self.wf(),
        ensures
            final(out)@ == old(out)@ + spec_rows_bytes(*self, self.image.height as int),
    {
        let mut row: i32 = 0;
        proof {
            assert(out@ =~= old(out)@ + spec_rows_bytes(*self, 0));
        }
        while row < self.image.height
            invariant
                self.wf(),
                0 <= row <= self.image.height,
                out@ == old(out)@ + spec_rows_bytes(*self, row as int),
            decreases self.image.height - row,
        {
            self.render_row(row, out);
            proof {
                assert(out@ =~= old(out)@ + spec_rows_bytes(*self, row as int + 1));
            }
            row = row + 1;
        }
    }

    /// Whether the camera satisfies [`Camera::wf`]; true of every camera
    /// that [`Camera::new`] builds.
    pub fn is_well_formed(&self) -> (b: bool)
        ensures
            b == self.wf(),
    {
        let w = self.image.width;
        let h = self.image.height;
        1 <= w && w <= MAX_DIMENSION && 1 <= h && h <= MAX_DIMENSION && self.center.x == 0
            && self.center.y == 0 && self.center.z == 0 && self.viewport.center.x == 1 - (w as i64)
            && self.viewport.center.y == (h as i64) - 1 && self.viewport.center.z == -(h as i64)
            && self.viewport.delta_horizontal.x == 2 && self.viewport.delta_horizontal.y == 0
            && self.viewport.delta_horizontal.z == 0 && self.viewport.delta_vertical.x == 0
            && self.viewport.delta_vertical.y == -2 && self.viewport.delta_vertical.z == 0
    }

    /// Renders the image: the header, then one line per pixel in row-major
    /// order.  For a camera that does not satisfy [`Camera::wf`] — none
    /// that [`Camera::new`] builds — the result is empty.
    ///
    /// The output is a function of the camera value alone, so rendering
    /// twice with the same inputs produces byte-identical output.
    pub fn render(&self) -> (out: Vec<u8>)
        ensures
            self.wf() ==> out@ == spec_render(*self),
            !self.wf() ==> out@ == Seq::<u8>::empty(),
    {
        let mut out: Vec<u8> = Vec::new();
        if !self.is_well_formed() {
            return out;
        }
        self.write_headers(&mut out);
        self.render_pixels(&mut out);
        proof {
            assert(out@ =~= spec_render(*self));
        }
        out
    }
}

} // verus!
