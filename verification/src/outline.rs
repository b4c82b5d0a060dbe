//! Outlining of the exclusion rectangles on a page image.

use vstd::prelude::*;
use crate::geometry::{rects_of, Rectangle};
use crate::raster::{Bitmap, Color};

verus! {

/// The pixel `(x, y)` is on the outline of `rect`: on its top or bottom row
/// between the left and right corners, both included, or on its left or right
/// column strictly between top and bottom.
pub open spec fn on_outline(rect: Rectangle, x: int, y: int) -> bool {
    let left = rect.top_left[0] as int;
    let top = rect.top_left[1] as int;
    let right = rect.bottom_right[0] as int;
    let bottom = rect.bottom_right[1] as int;
    ||| left <= x <= right && (y == top || y == bottom)
    ||| top < y < bottom && (x == left || x == right)
}

/// The pixel `(x, y)` is on the outline of one of `rects`.
pub open spec fn on_any_outline(rects: Seq<Rectangle>, x: int, y: int) -> bool {
    exists|i: int| 0 <= i < rects.len() && on_outline(#[trigger] rects[i], x, y)
}

/// The colour of an outline at `(x, y)`: opaque red where `x + y` is even,
/// opaque black where it is odd.
pub open spec fn border_color(x: int, y: int) -> Color {
    if (x + y) % 2 == 0 {
        (255u8, 0u8, 0u8, 255u8)
    } else {
        (0u8, 0u8, 0u8, 255u8)
    }
}

/// The colour at `(x, y)` of an image outlined with `rects`, where the pixel
/// was `p` before.
pub open spec fn outlined(p: Color, rects: Seq<Rectangle>, x: int, y: int) -> Color {
    if on_any_outline(rects, x, y) {
        border_color(x, y)
    } else {
        p
    }
}

/// Paints the pixel `(x, y)` in the outline colour of its position. Outside
/// the image nothing happens.
fn set_ignored_pixel_border_color(image: &mut Bitmap, x: i64, y: i64)
    ensures
        final(image)@.width == old(image)@.width,
        final(image)@.height == old(image)@.height,
        final(image)@.pixels == if old(image)@.in_bounds(x as int, y as int) {
            old(image)@.pixels.insert((x as int, y as int), border_color(x as int, y as int))
        } else {
            old(image)@.pixels
        },
{
    let (width, height) = image.dimensions();
    if x >= 0 && x < width as i64 && y >= 0 && y < height as i64 {
        let color: Color = if (x + y) % 2 == 0 {
            (255, 0, 0, 255)
        } else {
            (0, 0, 0, 255)
        };
        image.set_pixel(x as u32, y as u32, color);
    }
}

/// Paints row `y` from column `left` to column `right`, both included, as far
/// as it lies in the image.
fn draw_row(image: &mut Bitmap, left: i64, right: i64, y: i64)
    ensures
        final(image)@.width == old(image)@.width,
        final(image)@.height == old(image)@.height,
        forall|px: int, py: int|
            old(image)@.in_bounds(px, py) ==> #[trigger] final(image)@.at(px, py) == if py == y
                && left <= px <= right {
                border_color(px, py)
            } else {
                old(image)@.at(px, py)
            },
{
    let (width, height) = image.dimensions();
    let ghost start = image@;
    if width == 0 {
        return ;
    }
    let last: i64 = if right < width as i64 - 1 {
        right
    } else {
        width as i64 - 1
    };
    let mut x: i64 = if left > 0 {
        left
    } else {
        0
    };
    let ghost first = x as int;
    while x <= last
        invariant
            start == old(image)@,
            image@.width == start.width,
            image@.height == start.height,
            width == start.width,
            first <= x,
            x == first || x <= last + 1,
            0 <= first,
            first == if left > 0 {
                left as int
            } else {
                0
            },
            last < width,
            last == if right < width - 1 {
                right as int
            } else {
                width - 1
            },
            forall|px: int, py: int|
                start.in_bounds(px, py) ==> #[trigger] image@.at(px, py) == if py == y && first
                    <= px < x {
                    border_color(px, py)
                } else {
                    start.at(px, py)
                },
        decreases last - x + 1,
    {
        set_ignored_pixel_border_color(image, x, y);
        x += 1;
    }
}

/// Paints column `x` strictly between row `top` and row `bottom`, as far as it
/// lies in the image.
fn draw_column(image: &mut Bitmap, x: i64, top: i64, bottom: i64)
    ensures
        final(image)@.width == old(image)@.width,
        final(image)@.height == old(image)@.height,
        forall|px: int, py: int|
            old(image)@.in_bounds(px, py) ==> #[trigger] final(image)@.at(px, py) == if px == x
                && top < py < bottom {
                border_color(px, py)
            } else {
                old(image)@.at(px, py)
            },
{
    let (width, height) = image.dimensions();
    let ghost start = image@;
    if height == 0 || top >= height as i64 {
        return ;
    }
    let end: i64 = if bottom < height as i64 {
        bottom
    } else {
        height as i64
    };
    let mut y: i64 = if top >= 0 {
        top + 1
    } else {
        0
    };
    let ghost first = y as int;
    while y < end
        invariant
            start == old(image)@,
            image@.width == start.width,
            image@.height == start.height,
            height == start.height,
            first <= y,
            y == first || y <= end,
            0 <= first,
            first == if top >= 0 {
                top + 1
            } else {
                0
            },
            end <= height,
            end == if bottom < height {
                bottom as int
            } else {
                height as int
            },
            forall|px: int, py: int|
                start.in_bounds(px, py) ==> #[trigger] image@.at(px, py) == if px == x && first
                    <= py < y {
                    border_color(px, py)
                } else {
                    start.at(px, py)
                },
        decreases end - y,
    {
        set_ignored_pixel_border_color(image, x, y);
        y += 1;
    }
}

/// Paints the outline of one rectangle in place.
fn draw_outline(image: &mut Bitmap, rect: &Rectangle)
    ensures
        final(image)@.width == old(image)@.width,
        final(image)@.height == old(image)@.height,
        forall|x: int, y: int|
            old(image)@.in_bounds(x, y) ==> #[trigger] final(image)@.at(x, y) == if on_outline(
                *rect,
                x,
                y,
            ) {
                border_color(x, y)
            } else {
                old(image)@.at(x, y)
            },
{
    let left = rect.top_left[0];
    let top = rect.top_left[1];
    let right = rect.bottom_right[0];
    let bottom = rect.bottom_right[1];
    draw_row(image, left, right, top);
    draw_row(image, left, right, bottom);
    draw_column(image, left, top, bottom);
    draw_column(image, right, top, bottom);
}

/// Returns a copy of `image` with the outline of every rectangle drawn on it.
/// Corner coordinates are taken as pixel positions; whatever part of an
/// outline falls outside the image is left out.
pub fn draw_ignored_rectangles(image: &Bitmap, ignore_rects: Option<&Vec<Rectangle>>) -> (out:
    Bitmap)
    ensures
        out@.width == image@.width,
        out@.height == image@.height,
        forall|x: int, y: int|
            image@.in_bounds(x, y) ==> #[trigger] out@.at(x, y) == outlined(
                image@.at(x, y),
                rects_of(ignore_rects),
                x,
                y,
            ),
{
    let mut new_image = image.clone();
    if let Some(rectangles) = ignore_rects {
        let mut k: usize = 0;
        while k < rectangles.len()
            invariant
                0 <= k <= rectangles@.len(),
                rectangles@ == rects_of(ignore_rects),
                new_image@.width == image@.width,
                new_image@.height == image@.height,
                forall|x: int, y: int|
                    image@.in_bounds(x, y) ==> #[trigger] new_image@.at(x, y) == outlined(
                        image@.at(x, y),
                        rectangles@.take(k as int),
                        x,
                        y,
                    ),
            decreases rectangles@.len() - k,
        {
            draw_outline(&mut new_image, &rectangles[k]);
            proof {
                let done = rectangles@.take(k as int);
                let next = rectangles@.take(k + 1);
                assert forall|x: int, y: int|
                    image@.in_bounds(x, y) implies #[trigger] new_image@.at(x, y) == outlined(
                    image@.at(x, y),
                    next,
                    x,
                    y,
                ) by {
                    if on_any_outline(done, x, y) {
                        let i = choose|i: int| 0 <= i < done.len() && on_outline(done[i], x, y);
                        assert(on_outline(next[i], x, y));
                    }
                    if on_outline(rectangles@[k as int], x, y) {
                        assert(on_outline(next[k as int], x, y));
                    }
                    if on_any_outline(next, x, y) {
                        let i = choose|i: int| 0 <= i < next.len() && on_outline(next[i], x, y);
                        if i < k {
                            assert(on_outline(done[i], x, y));
                        }
                    }
                }
            }
            k += 1;
        }
        proof {
            assert(rectangles@.take(rectangles@.len() as int) =~= rectangles@);
        }
    }
    new_image
}

} // verus!
