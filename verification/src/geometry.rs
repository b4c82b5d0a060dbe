//! Exclusion rectangles and the geometry predicates on them.

use vstd::prelude::*;

verus! {

/// A rectangular exclusion zone.
///
/// `page` selects the pages the zone applies to: `"all"`, `"even"`, `"odd"` or
/// a page number written out. The corners are `[x, y]` pairs. In a
/// configuration they are measured in millionths of an inch; the rectangles
/// that [`crate::config::Config::get_matching_rectangles`] hands out carry
/// pixel coordinates, and the predicates below read them as such.
#[derive(Debug)]
pub struct Rectangle {
    pub page: String,
    pub top_left: [i64; 2],
    pub bottom_right: [i64; 2],
}

/// The rectangles in force: the ones given, or none at all.
pub open spec fn rects_of(ignore_rects: Option<&Vec<Rectangle>>) -> Seq<Rectangle> {
    match ignore_rects {
        Some(rects) => rects@,
        None => Seq::empty(),
    }
}

/// A stored coordinate as a pixel position: negative values count as 0 and
/// values past `u32::MAX` as `u32::MAX`.
pub open spec fn clamp_coordinate(v: int) -> int {
    if v < 0 {
        0
    } else if v > u32::MAX {
        u32::MAX as int
    } else {
        v
    }
}

/// Computes [`clamp_coordinate`].
pub fn pixel_coordinate(v: i64) -> (c: u32)
    ensures
        c == clamp_coordinate(v as int),
{
    if v < 0 {
        0
    } else if v > u32::MAX as i64 {
        u32::MAX
    } else {
        v as u32
    }
}

impl Clone for Rectangle {
    fn clone(&self) -> (copy: Self)
        ensures
            copy == *self,
    {
        Rectangle {
            page: self.page.clone(),
            top_left: self.top_left,
            bottom_right: self.bottom_right,
        }
    }
}

impl Rectangle {
    /// Leftmost pixel column of the rectangle.
    pub open spec fn left(&self) -> int {
        clamp_coordinate(self.top_left[0] as int)
    }

    /// Topmost pixel row of the rectangle.
    pub open spec fn top(&self) -> int {
        clamp_coordinate(self.top_left[1] as int)
    }

    /// Rightmost pixel column of the rectangle.
    pub open spec fn right(&self) -> int {
        clamp_coordinate(self.bottom_right[0] as int)
    }

    /// Bottommost pixel row of the rectangle.
    pub open spec fn bottom(&self) -> int {
        clamp_coordinate(self.bottom_right[1] as int)
    }

    /// The point `(x, y)` lies between the corners, both ends included.
    pub open spec fn covers(&self, x: int, y: int) -> bool {
        self.left() <= x <= self.right() && self.top() <= y <= self.bottom()
    }

    /// The rectangle is not entirely to one side of the square that spans
    /// `size` pixels right and down from `(x, y)`; touching counts.
    pub open spec fn meets(&self, x: int, y: int, size: int) -> bool {
        !(self.right() < x || self.left() > x + size || self.bottom() < y || self.top() > y
            + size)
    }

    /// Whether the rectangle and the chunk at `(x, y)` touch or intersect.
    pub fn overlaps(&self, x: u32, y: u32, chunk_size: u32) -> (r: bool)
        ensures
            r == self.meets(x as int, y as int, chunk_size as int),
    {
        let chunk_right: u64 = x as u64 + chunk_size as u64;
        let chunk_bottom: u64 = y as u64 + chunk_size as u64;
        let left_of = pixel_coordinate(self.bottom_right[0]) < x;
        let right_of = pixel_coordinate(self.top_left[0]) as u64 > chunk_right;
        let above = pixel_coordinate(self.bottom_right[1]) < y;
        let below = pixel_coordinate(self.top_left[1]) as u64 > chunk_bottom;
        !(left_of || right_of || above || below)
    }

    /// Whether the point `(x, y)` lies inside the rectangle, edges included.
    pub fn contains(&self, x: u32, y: u32) -> (r: bool)
        ensures
            r == self.covers(x as int, y as int),
    {
        x >= pixel_coordinate(self.top_left[0]) && x <= pixel_coordinate(self.bottom_right[0])
            && y >= pixel_coordinate(self.top_left[1]) && y <= pixel_coordinate(
            self.bottom_right[1],
        )
    }
}

} // verus!
