//! The exclusion rectangles of a comparison run and their resolution per page.
//!
//! Rectangles are configured in physical units and apply to pages by a
//! selector. For one page, [`Config::get_matching_rectangles`] picks the
//! rectangles whose selector applies and converts their corners to pixels of
//! the page as rendered, which is always [`TARGET_HEIGHT_PX`] pixels tall. A
//! resolved corner is never negative: what would fall before the first pixel
//! is put at 0.

use vstd::prelude::*;
use vstd::arithmetic::div_mod::{
    lemma_div_is_ordered, lemma_div_pos_is_pos, lemma_fundamental_div_mod,
};
use crate::geometry::Rectangle;
use crate::selector::{selector_applies, selector_matches};

verus! {

/// Points in an inch.
pub const POINTS_PER_INCH: i64 = 72;

/// Height in pixels that every page is rendered to.
pub const TARGET_HEIGHT_PX: i64 = 2000;

/// Units of a configured coordinate in an inch: coordinates are millionths of
/// an inch.
pub const UNITS_PER_INCH: i64 = 1_000_000;

/// The absolute value of `v`.
pub open spec fn magnitude(v: int) -> int {
    if v < 0 {
        -v
    } else {
        v
    }
}

/// The quotient `n / d` rounded to the nearest integer, halves away from zero.
pub open spec fn round_half_away(n: int, d: int) -> int
    recommends
        d != 0,
{
    let q = (2 * magnitude(n) + magnitude(d)) / (2 * magnitude(d));
    if (n < 0) != (d < 0) {
        -q
    } else {
        q
    }
}

/// `v` limited to the range of `i64`.
pub open spec fn clamp_i64(v: int) -> int {
    if v < i64::MIN {
        i64::MIN as int
    } else if v > i64::MAX {
        i64::MAX as int
    } else {
        v
    }
}

/// A configured coordinate scaled to pixels of a page that is
/// `height_in_points` points tall:
/// `units / UNITS_PER_INCH * POINTS_PER_INCH * TARGET_HEIGHT_PX / height_in_points`,
/// rounded to the nearest integer and limited to `i64`. It keeps its sign.
///
/// A page of height zero has no scale. A coordinate of zero stays zero there,
/// and any other goes to the end of the range on its side.
pub open spec fn scaled_pixels(units: int, height_in_points: int) -> int {
    if height_in_points == 0 {
        if units > 0 {
            i64::MAX as int
        } else if units < 0 {
            i64::MIN as int
        } else {
            0
        }
    } else {
        clamp_i64(
            round_half_away(
                units * POINTS_PER_INCH * TARGET_HEIGHT_PX,
                UNITS_PER_INCH * height_in_points,
            ),
        )
    }
}

/// [`round_half_away`] gives an integer nearest to `n / d`: it is off by at
/// most a half, and where two integers are equally near it gives the one
/// further from zero.
pub proof fn lemma_round_half_away_is_nearest(n: int, d: int)
    requires
        d != 0,
    ensures
        2 * magnitude(round_half_away(n, d) * d - n) <= magnitude(d),
        2 * magnitude(round_half_away(n, d) * d - n) == magnitude(d) ==> magnitude(
            round_half_away(n, d) * d,
        ) > magnitude(n),
{
    let a = magnitude(n);
    let b = magnitude(d);
    let q = (2 * a + b) / (2 * b);
    let r = (2 * a + b) % (2 * b);
    lemma_fundamental_div_mod(2 * a + b, 2 * b);
    assert((2 * b) * q == 2 * (q * b)) by (nonlinear_arith);
    assert(q >= 0) by (nonlinear_arith)
        requires
            2 * a + b == 2 * (q * b) + r,
            r < 2 * b,
            a >= 0,
            b > 0,
    ;
    let rounded = round_half_away(n, d);
    assert(magnitude(rounded * d - n) == magnitude(q * b - a) && magnitude(rounded * d) == q * b)
        by (nonlinear_arith)
        requires
            rounded == if (n < 0) != (d < 0) {
                -q
            } else {
                q
            },
            a == magnitude(n),
            b == magnitude(d),
            q >= 0,
            d != 0,
    ;
}

/// On a page of positive height a greater coordinate never comes out as a
/// smaller pixel position: corners keep their order.
pub proof fn lemma_scaled_pixels_keeps_order(low: int, high: int, height_in_points: int)
    requires
        low <= high,
        height_in_points > 0,
    ensures
        scaled_pixels(low, height_in_points) <= scaled_pixels(high, height_in_points),
        resolved_pixels(low, height_in_points) <= resolved_pixels(high, height_in_points),
{
    let d = UNITS_PER_INCH * height_in_points;
    let n1 = low * POINTS_PER_INCH * TARGET_HEIGHT_PX;
    let n2 = high * POINTS_PER_INCH * TARGET_HEIGHT_PX;
    assert(d > 0 && n1 <= n2) by (nonlinear_arith)
        requires
            d == UNITS_PER_INCH * height_in_points,
            n1 == low * POINTS_PER_INCH * TARGET_HEIGHT_PX,
            n2 == high * POINTS_PER_INCH * TARGET_HEIGHT_PX,
            low <= high,
            height_in_points > 0,
            UNITS_PER_INCH == 1_000_000,
            POINTS_PER_INCH == 72,
            TARGET_HEIGHT_PX == 2000,
    ;
    let q1 = (2 * magnitude(n1) + d) / (2 * d);
    let q2 = (2 * magnitude(n2) + d) / (2 * d);
    lemma_div_pos_is_pos(2 * magnitude(n1) + d, 2 * d);
    lemma_div_pos_is_pos(2 * magnitude(n2) + d, 2 * d);
    if n1 >= 0 {
        lemma_div_is_ordered(2 * n1 + d, 2 * n2 + d, 2 * d);
    } else if n2 < 0 {
        lemma_div_is_ordered(2 * (-n2) + d, 2 * (-n1) + d, 2 * d);
    }
}

/// Computes [`scaled_pixels`].
pub fn to_pixels(units: i64, height_in_points: i32) -> (pixels: i64)
    ensures
        pixels == scaled_pixels(units as int, height_in_points as int),
{
    if height_in_points == 0 {
        return if units > 0 {
            i64::MAX
        } else if units < 0 {
            i64::MIN
        } else {
            0
        };
    }
    let scale: i128 = (POINTS_PER_INCH * TARGET_HEIGHT_PX) as i128;
    let n: i128 = units as i128 * scale;
    assert(-0x8_0000_0000_0000 < UNITS_PER_INCH * height_in_points < 0x8_0000_0000_0000)
        by (nonlinear_arith)
        requires
            UNITS_PER_INCH == 1_000_000,
            -0x8000_0000 <= height_in_points < 0x8000_0000,
    ;
    let d: i128 = UNITS_PER_INCH as i128 * height_in_points as i128;
    assert(n == units * POINTS_PER_INCH * TARGET_HEIGHT_PX) by (nonlinear_arith)
        requires
            n == units * scale,
            scale == POINTS_PER_INCH * TARGET_HEIGHT_PX,
    ;
    let a: u128 = if n < 0 {
        (-n) as u128
    } else {
        n as u128
    };
    let b: u128 = if d < 0 {
        (-d) as u128
    } else {
        d as u128
    };
    let q: u128 = (2 * a + b) / (2 * b);
    if (n < 0) != (d < 0) {
        if q > 0x8000_0000_0000_0000 {
            i64::MIN
        } else {
            (-(q as i128)) as i64
        }
    } else {
        if q > i64::MAX as u128 {
            i64::MAX
        } else {
            q as i64
        }
    }
}

/// The pixel coordinate that a configured coordinate resolves to on a page
/// `height_in_points` points tall: [`scaled_pixels`], with what would fall
/// before the first pixel put at 0. A resolved coordinate is never negative.
pub open spec fn resolved_pixels(units: int, height_in_points: int) -> int {
    if scaled_pixels(units, height_in_points) < 0 {
        0
    } else {
        scaled_pixels(units, height_in_points)
    }
}

/// Computes [`resolved_pixels`].
pub fn resolve_coordinate(units: i64, height_in_points: i32) -> (pixels: i64)
    ensures
        pixels == resolved_pixels(units as int, height_in_points as int),
        pixels >= 0,
{
    let scaled = to_pixels(units, height_in_points);
    if scaled < 0 {
        0
    } else {
        scaled
    }
}

/// No corner coordinate of `rect` is negative, as for every rectangle that
/// has been resolved for a page.
pub open spec fn is_resolved(rect: Rectangle) -> bool {
    &&& rect.top_left[0] >= 0
    &&& rect.top_left[1] >= 0
    &&& rect.bottom_right[0] >= 0
    &&& rect.bottom_right[1] >= 0
}

/// `out` is `rect` resolved for a page `height_in_points` points tall: the
/// same selector, and each corner coordinate converted to pixels, none of
/// them negative.
pub open spec fn resolves_to(rect: Rectangle, height_in_points: int, out: Rectangle) -> bool {
    &&& out.page@ == rect.page@
    &&& out.top_left[0] == resolved_pixels(rect.top_left[0] as int, height_in_points)
    &&& out.top_left[1] == resolved_pixels(rect.top_left[1] as int, height_in_points)
    &&& out.bottom_right[0] == resolved_pixels(rect.bottom_right[0] as int, height_in_points)
    &&& out.bottom_right[1] == resolved_pixels(rect.bottom_right[1] as int, height_in_points)
}

/// The test by which rectangles are kept for the page `page`.
pub open spec fn applies_to(page: Seq<char>) -> spec_fn(Rectangle) -> bool {
    |rect: Rectangle| selector_matches(rect.page@, page)
}

/// The configured rectangles that apply to the page `page`, in their
/// configured order.
pub open spec fn matching(rects: Seq<Rectangle>, page: Seq<char>) -> Seq<Rectangle> {
    rects.filter(applies_to(page))
}

/// The exclusion rectangles of a run, with corners in millionths of an inch.
#[derive(Debug)]
pub struct Config {
    pub ignored_rectangles: Vec<Rectangle>,
}

impl Clone for Config {
    fn clone(&self) -> (copy: Self)
        ensures
            copy.ignored_rectangles@ == self.ignored_rectangles@,
    {
        let mut rects: Vec<Rectangle> = Vec::new();
        let mut i: usize = 0;
        while i < self.ignored_rectangles.len()
            invariant
                0 <= i <= self.ignored_rectangles@.len(),
                rects@ == self.ignored_rectangles@.take(i as int),
            decreases self.ignored_rectangles@.len() - i,
        {
            rects.push(self.ignored_rectangles[i].clone());
            assert(self.ignored_rectangles@.take(i + 1) =~= self.ignored_rectangles@.take(
                i as int,
            ).push(self.ignored_rectangles@[i as int]));
            i += 1;
        }
        assert(self.ignored_rectangles@.take(self.ignored_rectangles@.len() as int)
            =~= self.ignored_rectangles@);
        Config { ignored_rectangles: rects }
    }
}

impl Config {
    /// The rectangles that apply to the page `page`, in configured order, with
    /// their corners converted to pixels for a page `height_in_points` points
    /// tall and none of the coordinates negative.
    pub fn get_matching_rectangles(&self, page: &str, height_in_points: i32) -> (resolved: Vec<
        Rectangle,
    >)
        ensures
            resolved@.len() == matching(self.ignored_rectangles@, page@).len(),
            forall|i: int|
                0 <= i < resolved@.len() ==> resolves_to(
                    #[trigger] matching(self.ignored_rectangles@, page@)[i],
                    height_in_points as int,
                    resolved@[i],
                ),
            forall|i: int| 0 <= i < resolved@.len() ==> is_resolved(#[trigger] resolved@[i]),
    {
        let ghost all = self.ignored_rectangles@;
        let ghost keep = applies_to(page@);
        let mut resolved: Vec<Rectangle> = Vec::new();
        let mut i: usize = 0;
        proof {
            reveal(Seq::filter);
        }
        while i < self.ignored_rectangles.len()
            invariant
                0 <= i <= all.len(),
                all == self.ignored_rectangles@,
                keep == applies_to(page@),
                resolved@.len() == all.take(i as int).filter(keep).len(),
                forall|j: int|
                    0 <= j < resolved@.len() ==> resolves_to(
                        #[trigger] all.take(i as int).filter(keep)[j],
                        height_in_points as int,
                        resolved@[j],
                    ),
                forall|j: int| 0 <= j < resolved@.len() ==> is_resolved(#[trigger] resolved@[j]),
            decreases all.len() - i,
        {
            let rect = &self.ignored_rectangles[i];
            proof {
                assert(all.take(i + 1) =~= all.take(i as int).push(all[i as int]));
                all.take(i as int).lemma_filter_push(all[i as int], keep);
            }
            if selector_applies(rect.page.as_str(), page) {
                resolved.push(
                    Rectangle {
                        page: rect.page.clone(),
                        top_left: [
                            resolve_coordinate(rect.top_left[0], height_in_points),
                            resolve_coordinate(rect.top_left[1], height_in_points),
                        ],
                        bottom_right: [
                            resolve_coordinate(rect.bottom_right[0], height_in_points),
                            resolve_coordinate(rect.bottom_right[1], height_in_points),
                        ],
                    },
                );
            }
            i += 1;
        }
        proof {
            assert(all.take(all.len() as int) =~= all);
        }
        resolved
    }
}

} // verus!
