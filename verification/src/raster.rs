//! Raster images and their mathematical model.
//!
//! A [`Bitmap`] keeps its pixels in an `image::RgbaImage`. Verus cannot look
//! inside that buffer, so this module names what it holds
//! ([`image_dimensions`], [`image_pixels`]) and wraps the few `image` calls the
//! crate makes (the functions whose names begin with `raw_`). Those wrappers
//! are trusted: their contracts restate what the `image` sources do and are
//! not proved. Everything built on them is.

use vstd::prelude::*;
use image::{Rgba, RgbaImage};

verus! {

/// One pixel: red, green, blue and alpha, in that order.
pub type Color = (u8, u8, u8, u8);

/// A grid of RGBA pixels, `width` columns by `height` rows, with `(0, 0)` at
/// the top left.
///
/// The pixels live in an `image::ImageBuffer<Rgba<u8>, Vec<u8>>`. Verus does
/// not take a declaration of that type, whose pixel parameter is bound by a
/// trait of `image`, so the buffer is hidden here behind `external_body`:
/// Verus knows nothing of a `Bitmap` but what the wrappers below say of
/// [`image_dimensions`] and [`image_pixels`].
#[verifier::external_body]
pub struct Bitmap {
    inner: RgbaImage,
}

/// Width and height of an image, as `ImageBuffer::dimensions` reports them.
pub uninterp spec fn image_dimensions(img: Bitmap) -> (u32, u32);

/// The pixels of an image, keyed by `(x, y)`. Only keys inside the image's
/// dimensions carry meaning.
pub uninterp spec fn image_pixels(img: Bitmap) -> Map<(int, int), Color>;

/// Mathematical model of an image: its size and the colour at each coordinate.
pub struct BitmapView {
    pub width: int,
    pub height: int,
    pub pixels: Map<(int, int), Color>,
}

impl BitmapView {
    /// Width and height are sizes an image can have. The model of every
    /// [`Bitmap`] is valid.
    pub open spec fn valid(self) -> bool {
        0 <= self.width <= u32::MAX && 0 <= self.height <= u32::MAX
    }

    /// Whether `(x, y)` names a pixel of the image.
    pub open spec fn in_bounds(self, x: int, y: int) -> bool {
        0 <= x < self.width && 0 <= y < self.height
    }

    /// The colour at `(x, y)`.
    #[verifier::inline]
    pub open spec fn at(self, x: int, y: int) -> Color {
        self.pixels[(x, y)]
    }
}

impl View for Bitmap {
    type V = BitmapView;

    open spec fn view(&self) -> BitmapView {
        BitmapView {
            width: image_dimensions(*self).0 as int,
            height: image_dimensions(*self).1 as int,
            pixels: image_pixels(*self),
        }
    }
}

/// `ImageBuffer::dimensions`: returns the stored width and height.
#[verifier::external_body]
fn raw_dimensions(img: &Bitmap) -> (d: (u32, u32))
    ensures
        d == image_dimensions(*img),
{
    img.inner.dimensions()
}

/// `ImageBuffer::get_pixel`: reads the four channels stored for `(x, y)`.
/// The call panics outside the image, which `requires` rules out.
#[verifier::external_body]
fn raw_get_pixel(img: &Bitmap, x: u32, y: u32) -> (p: Color)
    requires
        x < image_dimensions(*img).0,
        y < image_dimensions(*img).1,
    ensures
        p == image_pixels(*img)[(x as int, y as int)],
{
    let channels = img.inner.get_pixel(x, y).0;
    (channels[0], channels[1], channels[2], channels[3])
}

/// `ImageBuffer::put_pixel`: overwrites the four channels stored for `(x, y)`
/// and nothing else. The call panics outside the image, which `requires`
/// rules out.
#[verifier::external_body]
fn raw_put_pixel(img: &mut Bitmap, x: u32, y: u32, p: Color)
    requires
        x < image_dimensions(*old(img)).0,
        y < image_dimensions(*old(img)).1,
    ensures
        image_dimensions(*final(img)) == image_dimensions(*old(img)),
        image_pixels(*final(img)) == image_pixels(*old(img)).insert((x as int, y as int), p),
{
    img.inner.put_pixel(x, y, Rgba([p.0, p.1, p.2, p.3]));
}

/// `ImageBuffer::new`: an image of the given size with every channel of every
/// pixel zero. The call panics when the buffer would be larger than a vector
/// can be, which `requires` rules out.
#[verifier::external_body]
pub(crate) fn raw_new(width: u32, height: u32) -> (img: Bitmap)
    requires
        4 * width * height <= isize::MAX,
    ensures
        image_dimensions(img) == (width, height),
        forall|x: int, y: int|
            0 <= x < width && 0 <= y < height ==> #[trigger] image_pixels(img)[(x, y)] == (
                0u8,
                0u8,
                0u8,
                0u8,
            ),
{
    Bitmap { inner: RgbaImage::new(width, height) }
}

/// `ImageBuffer::clone`: a copy with the same dimensions and the same pixels.
#[verifier::external_body]
fn raw_clone(img: &Bitmap) -> (copy: Bitmap)
    ensures
        image_dimensions(copy) == image_dimensions(*img),
        image_pixels(copy) == image_pixels(*img),
{
    Bitmap { inner: img.inner.clone() }
}

/// `image::imageops::replace`: copies `top` onto `bottom` with the top-left
/// corner of `top` at `(x, y)` of `bottom`. What falls outside `bottom` is
/// cropped, every other pixel of `bottom` stays, and so does its size.
#[verifier::external_body]
pub(crate) fn raw_replace(bottom: &mut Bitmap, top: &Bitmap, x: i64, y: i64)
    ensures
        image_dimensions(*final(bottom)) == image_dimensions(*old(bottom)),
        forall|i: int, j: int|
            0 <= i < image_dimensions(*old(bottom)).0 && 0 <= j < image_dimensions(*old(bottom)).1
                ==> #[trigger] image_pixels(*final(bottom))[(i, j)] == if 0 <= i - x
                < image_dimensions(*top).0 && 0 <= j - y < image_dimensions(*top).1 {
                image_pixels(*top)[(i - x, j - y)]
            } else {
                image_pixels(*old(bottom))[(i, j)]
            },
{
    image::imageops::replace(&mut bottom.inner, &top.inner, x, y);
}

impl Clone for Bitmap {
    fn clone(&self) -> (copy: Self)
        ensures
            copy@ == self@,
    {
        raw_clone(self)
    }
}

impl Bitmap {
    /// An image of the given size with every pixel `(0, 0, 0, 0)`, or `None`
    /// when its four bytes per pixel would not fit in one buffer.
    pub fn new(width: u32, height: u32) -> (img: Option<Bitmap>)
        ensures
            img is Some <==> 4 * width * height <= isize::MAX,
            img matches Some(blank) ==> {
                &&& blank@.width == width
                &&& blank@.height == height
                &&& forall|x: int, y: int|
                    blank@.in_bounds(x, y) ==> #[trigger] blank@.at(x, y) == (0u8, 0u8, 0u8, 0u8)
            },
    {
        assert(width * height <= 0xffff_ffff * 0xffff_ffff) by (nonlinear_arith)
            requires
                width <= 0xffff_ffff,
                height <= 0xffff_ffff,
        ;
        let area: u64 = width as u64 * height as u64;
        let bytes: u128 = 4 * (area as u128);
        assert(bytes == 4 * width * height) by (nonlinear_arith)
            requires
                bytes == 4 * area,
                area == width * height,
        ;
        if bytes <= isize::MAX as u128 {
            Some(raw_new(width, height))
        } else {
            None
        }
    }

    /// Width and height in pixels.
    pub fn dimensions(&self) -> (d: (u32, u32))
        ensures
            d.0 == self@.width,
            d.1 == self@.height,
    {
        raw_dimensions(self)
    }

    /// The colour at `(x, y)`, or `None` outside the image.
    pub fn pixel(&self, x: u32, y: u32) -> (p: Option<Color>)
        ensures
            p == if self@.in_bounds(x as int, y as int) {
                Some(self@.at(x as int, y as int))
            } else {
                None
            },
    {
        let (width, height) = raw_dimensions(self);
        if x < width && y < height {
            Some(raw_get_pixel(self, x, y))
        } else {
            None
        }
    }

    /// Sets the colour at `(x, y)`. Outside the image nothing changes and the
    /// result is `false`.
    pub fn set_pixel(&mut self, x: u32, y: u32, color: Color) -> (done: bool)
        ensures
            done == old(self)@.in_bounds(x as int, y as int),
            final(self)@.width == old(self)@.width,
            final(self)@.height == old(self)@.height,
            final(self)@.pixels == if done {
                old(self)@.pixels.insert((x as int, y as int), color)
            } else {
                old(self)@.pixels
            },
    {
        let (width, height) = raw_dimensions(self);
        if x < width && y < height {
            raw_put_pixel(self, x, y, color);
            true
        } else {
            false
        }
    }
}

} // verus!
