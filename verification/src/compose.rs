//! Joining two page images side by side.

use vstd::prelude::*;
use crate::raster::{raw_new, raw_replace, Bitmap, BitmapView, Color};

verus! {

/// Colour of the column that separates the two pages: opaque black.
pub open spec fn separator_color() -> Color {
    (0u8, 0u8, 0u8, 255u8)
}

/// Colour of what neither page fills: the zero pixel a fresh image starts
/// with.
pub open spec fn blank_color() -> Color {
    (0u8, 0u8, 0u8, 0u8)
}

/// The colour at `(x, y)` of the composite of `a` and `b`: `a` on the left,
/// one separator column, then `b`. Where `b` is shorter than `a` the rows
/// below it stay blank; where it is taller it is cropped.
pub open spec fn composed(a: BitmapView, b: BitmapView, x: int, y: int) -> Color {
    if x < a.width {
        a.at(x, y)
    } else if x == a.width {
        separator_color()
    } else if y < b.height {
        b.at(x - a.width - 1, y)
    } else {
        blank_color()
    }
}

/// Whether [`compose`] can build the composite of images of these sizes: its
/// width has to fit in `u32` and its pixels in one buffer.
pub open spec fn composable(a: BitmapView, b: BitmapView) -> bool {
    &&& a.width + b.width + 1 <= u32::MAX
    &&& 4 * (a.width + b.width + 1) * a.height <= isize::MAX
}

/// Decides [`composable`].
pub fn can_compose(image_a: &Bitmap, image_b: &Bitmap) -> (ok: bool)
    ensures
        ok == composable(image_a@, image_b@),
{
    let (width_a, height_a) = image_a.dimensions();
    let (width_b, _) = image_b.dimensions();
    let total_width: u64 = width_a as u64 + width_b as u64 + 1;
    if total_width > u32::MAX as u64 {
        return false;
    }
    assert(total_width * height_a <= 0xffff_ffff * 0xffff_ffff) by (nonlinear_arith)
        requires
            total_width <= 0xffff_ffff,
            height_a <= 0xffff_ffff,
    ;
    let area: u64 = total_width * height_a as u64;
    let bytes: u128 = 4 * (area as u128);
    assert(bytes == 4 * (image_a@.width + image_b@.width + 1) * image_a@.height)
        by (nonlinear_arith)
        requires
            bytes == 4 * area,
            area == total_width * height_a,
            total_width == image_a@.width + image_b@.width + 1,
            height_a == image_a@.height,
    ;
    bytes <= isize::MAX as u128
}

/// Puts `image_a` and `image_b` side by side in one image, `image_a` first,
/// with a separator column of opaque black between them. The result is as
/// tall as `image_a`.
pub fn compose(image_a: &Bitmap, image_b: &Bitmap) -> (combined: Bitmap)
    requires
        composable(image_a@, image_b@),
    ensures
        combined@.width == image_a@.width + image_b@.width + 1,
        combined@.height == image_a@.height,
        forall|x: int, y: int|
            combined@.in_bounds(x, y) ==> #[trigger] combined@.at(x, y) == composed(
                image_a@,
                image_b@,
                x,
                y,
            ),
        forall|y: int|
            0 <= y < combined@.height ==> #[trigger] combined@.at(image_a@.width, y)
                == separator_color(),
{
    let (width_a, height_a) = image_a.dimensions();
    let (width_b, _) = image_b.dimensions();
    let total_width: u32 = width_a + width_b + 1;
    let total_height: u32 = height_a;
    let mut combined = raw_new(total_width, total_height);
    let ghost a = image_a@;
    raw_replace(&mut combined, image_a, 0, 0);
    let mut y: u32 = 0;
    while y < total_height
        invariant
            0 <= y <= total_height,
            a == image_a@,
            width_a == a.width,
            total_height == a.height,
            combined@.width == total_width,
            combined@.height == total_height,
            total_width == a.width + image_b@.width + 1,
            forall|px: int, py: int|
                combined@.in_bounds(px, py) ==> #[trigger] combined@.at(px, py) == if px < a.width {
                    a.at(px, py)
                } else if px == a.width && py < y {
                    separator_color()
                } else {
                    blank_color()
                },
        decreases total_height - y,
    {
        combined.set_pixel(width_a, y, (0, 0, 0, 255));
        y += 1;
    }
    let ghost lined = combined@;
    raw_replace(&mut combined, image_b, width_a as i64 + 1, 0);
    proof {
        assert forall|x: int, y: int| combined@.in_bounds(x, y) implies #[trigger] combined@.at(
            x,
            y,
        ) == composed(a, image_b@, x, y) by {
            if !image_b@.in_bounds(x - (width_a + 1), y - 0) {
                assert(combined@.at(x, y) == lined.at(x, y));
            }
        }
    }
    combined
}

} // verus!
