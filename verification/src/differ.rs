//! Tile-by-tile comparison of two page images.
//!
//! An image is cut into square tiles of [`CHUNK_SIZE`] pixels, starting at the
//! top left; tiles at the right and bottom edges may be clipped. A tile is
//! reported when at least one of its pixels differs between the two images,
//! unless exclusion rectangles say otherwise.

use vstd::prelude::*;
use vstd::arithmetic::div_mod::{lemma_fundamental_div_mod, lemma_fundamental_div_mod_converse};
use crate::geometry::{rects_of, Rectangle};
use crate::raster::{Bitmap, BitmapView, Color};

verus! {

/// Side length of a tile, in pixels.
pub const CHUNK_SIZE: u32 = 10;

/// `rect` holds both the top-left corner `(x, y)` of a tile and its
/// bottom-right corner `(x + 10, y + 10)`.
pub open spec fn swallows_chunk(rect: Rectangle, x: int, y: int) -> bool {
    rect.covers(x, y) && rect.covers(x + CHUNK_SIZE, y + CHUNK_SIZE)
}

/// `rect` touches the tile at `(x, y)` without holding both of its corners.
pub open spec fn grazes_chunk(rect: Rectangle, x: int, y: int) -> bool {
    rect.meets(x, y, CHUNK_SIZE as int) && !swallows_chunk(rect, x, y)
}

/// Some rectangle holds both corners of the tile at `(x, y)`: the tile is
/// skipped whatever its pixels are.
pub open spec fn chunk_ignored(rects: Seq<Rectangle>, x: int, y: int) -> bool {
    exists|i: int| 0 <= i < rects.len() && swallows_chunk(#[trigger] rects[i], x, y)
}

/// Some rectangle touches the tile at `(x, y)` without holding both corners.
pub open spec fn chunk_partial(rects: Seq<Rectangle>, x: int, y: int) -> bool {
    exists|i: int| 0 <= i < rects.len() && grazes_chunk(#[trigger] rects[i], x, y)
}

/// Some rectangle holds the pixel `(px, py)`.
pub open spec fn pixel_ignored(rects: Seq<Rectangle>, px: int, py: int) -> bool {
    exists|i: int| 0 <= i < rects.len() && (#[trigger] rects[i]).covers(px, py)
}

/// The pixel `(px, py)` belongs to the tile at `(x, y)`, lies inside the
/// image, is not exempt, and has different colours in `a` and `b`. A pixel is
/// exempt when the tile is partially overlapped and some rectangle holds the
/// pixel.
pub open spec fn pixel_differs(
    a: BitmapView,
    b: BitmapView,
    rects: Seq<Rectangle>,
    x: int,
    y: int,
    px: int,
    py: int,
) -> bool {
    &&& x <= px < x + CHUNK_SIZE
    &&& y <= py < y + CHUNK_SIZE
    &&& a.in_bounds(px, py)
    &&& !(chunk_partial(rects, x, y) && pixel_ignored(rects, px, py))
    &&& a.at(px, py) != b.at(px, py)
}

/// The tile at `(x, y)` holds a pixel that counts as different.
pub open spec fn chunk_has_diff(
    a: BitmapView,
    b: BitmapView,
    rects: Seq<Rectangle>,
    x: int,
    y: int,
) -> bool {
    exists|px: int, py: int| #[trigger] pixel_differs(a, b, rects, x, y, px, py)
}

/// The tile at `(x, y)` is reported: it is not ignored and holds a pixel that
/// counts as different.
pub open spec fn chunk_differs(
    a: BitmapView,
    b: BitmapView,
    rects: Seq<Rectangle>,
    x: int,
    y: int,
) -> bool {
    !chunk_ignored(rects, x, y) && chunk_has_diff(a, b, rects, x, y)
}

/// Number of tiles needed to span `extent` pixels.
pub open spec fn tile_count(extent: int) -> int {
    (extent + (CHUNK_SIZE - 1)) / (CHUNK_SIZE as int)
}

/// Origin of the `k`-th tile in scan order, in a grid `columns` tiles wide.
pub open spec fn chunk_origin(k: int, columns: int) -> (u32, u32) {
    ((CHUNK_SIZE * (k % columns)) as u32, (CHUNK_SIZE * (k / columns)) as u32)
}

/// All tile origins of a `width` by `height` image in scan order: rows from
/// top to bottom, and left to right within a row.
pub open spec fn chunk_origins(width: int, height: int) -> Seq<(u32, u32)> {
    Seq::new(
        (tile_count(width) * tile_count(height)) as nat,
        |k: int| chunk_origin(k, tile_count(width)),
    )
}

/// `c` is the origin of a tile of a `width` by `height` image.
pub open spec fn is_chunk_origin(width: int, height: int, c: (u32, u32)) -> bool {
    &&& c.0 < width
    &&& c.1 < height
    &&& c.0 as int % (CHUNK_SIZE as int) == 0
    &&& c.1 as int % (CHUNK_SIZE as int) == 0
}

/// The tile at `c` is met before the tile at `d` when an image is scanned row
/// by row from the top, and each row from the left.
pub open spec fn scans_before(c: (u32, u32), d: (u32, u32)) -> bool {
    c.1 < d.1 || (c.1 == d.1 && c.0 < d.0)
}

/// The test that [`diff_chunks`] keeps tile origins by.
pub open spec fn differs_at(a: BitmapView, b: BitmapView, rects: Seq<Rectangle>) -> spec_fn(
    (u32, u32),
) -> bool {
    |c: (u32, u32)| chunk_differs(a, b, rects, c.0 as int, c.1 as int)
}

/// The origins of the reported tiles, in scan order.
pub open spec fn diff_chunks(a: BitmapView, b: BitmapView, rects: Seq<Rectangle>) -> Seq<
    (u32, u32),
> {
    chunk_origins(a.width, a.height).filter(differs_at(a, b, rects))
}

/// Compares two images of equal size tile by tile and returns the origins of
/// the tiles that differ, rows from top to bottom and left to right within a
/// row.
///
/// A tile is left out when a rectangle of `ignore_rects` holds both its
/// top-left and its bottom-right corner. In a tile that a rectangle merely
/// touches, pixels inside any rectangle are not compared.
pub fn compare_images_in_chunks(
    img1: &Bitmap,
    img2: &Bitmap,
    ignore_rects: Option<&Vec<Rectangle>>,
) -> (chunks: Vec<(u32, u32)>)
    requires
        img1@.width == img2@.width,
        img1@.height == img2@.height,
    ensures
        chunks@ == diff_chunks(img1@, img2@, rects_of(ignore_rects)),
{
    let (width, height) = img1.dimensions();
    let ghost a = img1@;
    let ghost b = img2@;
    let ghost rects = rects_of(ignore_rects);
    let ghost origins = chunk_origins(a.width, a.height);
    let ghost keep = differs_at(a, b, rects);
    let ghost columns = tile_count(a.width);
    let ghost rows = tile_count(a.height);
    let mut differing: Vec<(u32, u32)> = Vec::new();
    let mut y: u64 = 0;
    proof {
        reveal(Seq::filter);
    }
    while y < height as u64
        invariant
            a == img1@,
            b == img2@,
            rects == rects_of(ignore_rects),
            origins == chunk_origins(a.width, a.height),
            keep == differs_at(a, b, rects),
            columns == tile_count(a.width),
            rows == tile_count(a.height),
            width == a.width,
            height == a.height,
            a.width == b.width,
            a.height == b.height,
            y % 10 == 0,
            0 <= y / 10 <= rows,
            0 <= (y / 10) * columns <= origins.len(),
            differing@ == origins.take((y / 10) * columns).filter(keep),
        decreases rows - y / 10,
    {
        let ghost row = (y / 10) as int;
        let ghost base = row * columns;
        let mut x: u64 = 0;
        while x < width as u64
            invariant
                a == img1@,
                b == img2@,
                rects == rects_of(ignore_rects),
                origins == chunk_origins(a.width, a.height),
                keep == differs_at(a, b, rects),
                columns == tile_count(a.width),
                rows == tile_count(a.height),
                width == a.width,
                height == a.height,
                a.width == b.width,
                a.height == b.height,
                y % 10 == 0,
                y < height,
                row == y / 10,
                0 <= row < rows,
                base == row * columns,
                x % 10 == 0,
                0 <= x / 10 <= columns,
                0 <= base + x / 10 <= origins.len(),
                differing@ == origins.take(base + x / 10).filter(keep),
            decreases columns - x / 10,
        {
            let ghost col = (x / 10) as int;
            let cx: u32 = x as u32;
            let cy: u32 = y as u32;
            proof {
                lemma_origin_at(a.width, a.height, row, col);
                assert(origins.take(base + col + 1) =~= origins.take(base + col).push((cx, cy)));
                origins.take(base + col).lemma_filter_push((cx, cy), keep);
            }
            let differs = match chunk_status(ignore_rects, cx, cy) {
                ChunkStatus::Ignored => false,
                ChunkStatus::Partial => {
                    chunk_holds_difference(img1, img2, ignore_rects, true, cx, cy)
                },
                ChunkStatus::Clear => {
                    chunk_holds_difference(img1, img2, ignore_rects, false, cx, cy)
                },
            };
            if differs {
                differing.push((cx, cy));
            }
            x += CHUNK_SIZE as u64;
        }
        proof {
            lemma_row_start(columns, rows, row);
        }
        y += CHUNK_SIZE as u64;
    }
    proof {
        assert(rows * columns == columns * rows) by (nonlinear_arith);
        assert(origins.take(origins.len() as int) =~= origins);
    }
    differing
}

/// Whether `rect` holds the bottom-right corner `(x + 10, y + 10)` of the tile
/// at `(x, y)`.
fn holds_far_corner(rect: &Rectangle, x: u32, y: u32) -> (r: bool)
    ensures
        r == rect.covers(x + CHUNK_SIZE, y + CHUNK_SIZE),
{
    x <= u32::MAX - CHUNK_SIZE && y <= u32::MAX - CHUNK_SIZE && rect.contains(
        x + CHUNK_SIZE,
        y + CHUNK_SIZE,
    )
}

/// How the exclusion rectangles bear on one tile.
enum ChunkStatus {
    /// No rectangle touches the tile.
    Clear,
    /// A rectangle touches the tile, and none holds both of its corners.
    Partial,
    /// A rectangle holds both corners of the tile.
    Ignored,
}

/// Classifies the tile at `(x, y)` against the rectangles.
fn chunk_status(ignore_rects: Option<&Vec<Rectangle>>, x: u32, y: u32) -> (status: ChunkStatus)
    ensures
        (status is Ignored) == chunk_ignored(rects_of(ignore_rects), x as int, y as int),
        !(status is Ignored) ==> (status is Partial) == chunk_partial(
            rects_of(ignore_rects),
            x as int,
            y as int,
        ),
{
    let mut partial = false;
    if let Some(rects) = ignore_rects {
        let mut i: usize = 0;
        while i < rects.len()
            invariant
                0 <= i <= rects.len(),
                rects@ == rects_of(ignore_rects),
                forall|j: int|
                    0 <= j < i ==> !swallows_chunk(#[trigger] rects@[j], x as int, y as int),
                partial == exists|j: int|
                    0 <= j < i && grazes_chunk(#[trigger] rects@[j], x as int, y as int),
            decreases rects.len() - i,
        {
            let rect = &rects[i];
            if rect.overlaps(x, y, CHUNK_SIZE) {
                if rect.contains(x, y) && holds_far_corner(rect, x, y) {
                    return ChunkStatus::Ignored;
                } else {
                    partial = true;
                }
            }
            i += 1;
        }
    }
    if partial {
        ChunkStatus::Partial
    } else {
        ChunkStatus::Clear
    }
}

/// Whether any rectangle holds the pixel `(px, py)`.
fn pixel_is_ignored(ignore_rects: Option<&Vec<Rectangle>>, px: u32, py: u32) -> (r: bool)
    ensures
        r == pixel_ignored(rects_of(ignore_rects), px as int, py as int),
{
    if let Some(rects) = ignore_rects {
        let mut i: usize = 0;
        while i < rects.len()
            invariant
                0 <= i <= rects.len(),
                rects@ == rects_of(ignore_rects),
                forall|j: int| 0 <= j < i ==> !(#[trigger] rects@[j]).covers(px as int, py as int),
            decreases rects.len() - i,
        {
            if rects[i].contains(px, py) {
                return true;
            }
            i += 1;
        }
    }
    false
}

/// Scans the tile at `(x, y)` row by row and stops at the first pixel that
/// counts as different.
fn chunk_holds_difference(
    img1: &Bitmap,
    img2: &Bitmap,
    ignore_rects: Option<&Vec<Rectangle>>,
    partial: bool,
    x: u32,
    y: u32,
) -> (found: bool)
    requires
        img1@.width == img2@.width,
        img1@.height == img2@.height,
        partial == chunk_partial(rects_of(ignore_rects), x as int, y as int),
    ensures
        found == chunk_has_diff(img1@, img2@, rects_of(ignore_rects), x as int, y as int),
{
    let (width, height) = img1.dimensions();
    let ghost a = img1@;
    let ghost b = img2@;
    let ghost rects = rects_of(ignore_rects);
    let mut dy: u32 = 0;
    while dy < CHUNK_SIZE
        invariant
            0 <= dy <= CHUNK_SIZE,
            a == img1@,
            b == img2@,
            rects == rects_of(ignore_rects),
            width == a.width,
            height == a.height,
            a.width == b.width,
            a.height == b.height,
            partial == chunk_partial(rects, x as int, y as int),
            forall|px: int, py: int|
                y <= py < y + dy ==> !#[trigger] pixel_differs(
                    a,
                    b,
                    rects,
                    x as int,
                    y as int,
                    px,
                    py,
                ),
        decreases CHUNK_SIZE - dy,
    {
        let mut dx: u32 = 0;
        while dx < CHUNK_SIZE
            invariant
                0 <= dx <= CHUNK_SIZE,
                0 <= dy < CHUNK_SIZE,
                a == img1@,
                b == img2@,
                rects == rects_of(ignore_rects),
                width == a.width,
                height == a.height,
                a.width == b.width,
                a.height == b.height,
                partial == chunk_partial(rects, x as int, y as int),
                forall|px: int, py: int|
                    y <= py < y + dy ==> !#[trigger] pixel_differs(
                        a,
                        b,
                        rects,
                        x as int,
                        y as int,
                        px,
                        py,
                    ),
                forall|px: int|
                    x <= px < x + dx ==> !#[trigger] pixel_differs(
                        a,
                        b,
                        rects,
                        x as int,
                        y as int,
                        px,
                        y + dy,
                    ),
            decreases CHUNK_SIZE - dx,
        {
            let actual_x: u64 = x as u64 + dx as u64;
            let actual_y: u64 = y as u64 + dy as u64;
            if actual_x < width as u64 && actual_y < height as u64 {
                let px: u32 = actual_x as u32;
                let py: u32 = actual_y as u32;
                let exempt = partial && pixel_is_ignored(ignore_rects, px, py);
                if !exempt {
                    if let (Some(p1), Some(p2)) = (img1.pixel(px, py), img2.pixel(px, py)) {
                        if !same_color(p1, p2) {
                            assert(pixel_differs(
                                a,
                                b,
                                rects,
                                x as int,
                                y as int,
                                px as int,
                                py as int,
                            ));
                            return true;
                        }
                    }
                }
            }
            dx += 1;
        }
        dy += 1;
    }
    false
}

/// Whether two pixels agree in all four channels.
fn same_color(p1: Color, p2: Color) -> (same: bool)
    ensures
        same == (p1 == p2),
{
    p1.0 == p2.0 && p1.1 == p2.1 && p1.2 == p2.2 && p1.3 == p2.3
}

/// The reported tiles come in scan order, each one once: of any two, the
/// earlier lies in a row above the later, or further left in the same row.
pub proof fn lemma_diff_chunks_in_scan_order(
    a: BitmapView,
    b: BitmapView,
    rects: Seq<Rectangle>,
    i: int,
    j: int,
)
    requires
        a.valid(),
        0 <= i < j < diff_chunks(a, b, rects).len(),
    ensures
        scans_before(diff_chunks(a, b, rects)[i], diff_chunks(a, b, rects)[j]),
{
    let origins = chunk_origins(a.width, a.height);
    let columns = tile_count(a.width);
    let (p, q) = lemma_filter_keeps_order(origins, differs_at(a, b, rects), i, j);
    lemma_origin_of_index(a.width, a.height, p);
    lemma_origin_of_index(a.width, a.height, q);
    assert(p / columns <= q / columns) by (nonlinear_arith)
        requires
            p < q,
            columns > 0,
            p == (p / columns) * columns + p % columns,
            q == (q / columns) * columns + q % columns,
            0 <= p % columns < columns,
            0 <= q % columns < columns,
    ;
}

/// A tile origin is reported exactly when it is an origin of the image's grid
/// and its tile differs.
pub proof fn lemma_diff_chunks_contains(
    a: BitmapView,
    b: BitmapView,
    rects: Seq<Rectangle>,
    c: (u32, u32),
)
    requires
        a.valid(),
    ensures
        diff_chunks(a, b, rects).contains(c) <==> is_chunk_origin(a.width, a.height, c)
            && chunk_differs(a, b, rects, c.0 as int, c.1 as int),
{
    let origins = chunk_origins(a.width, a.height);
    let keep = differs_at(a, b, rects);
    let kept = diff_chunks(a, b, rects);
    if kept.contains(c) {
        let i = choose|i: int| 0 <= i < kept.len() && kept[i] == c;
        origins.lemma_filter_pred(keep, i);
        origins.lemma_filter_contains_rev(keep, c);
        let k = choose|k: int| 0 <= k < origins.len() && origins[k] == c;
        lemma_origin_of_index(a.width, a.height, k);
    }
    if is_chunk_origin(a.width, a.height, c) && chunk_differs(
        a,
        b,
        rects,
        c.0 as int,
        c.1 as int,
    ) {
        let row = c.1 as int / 10;
        let col = c.0 as int / 10;
        lemma_origin_at(a.width, a.height, row, col);
        origins.lemma_filter_contains(keep, row * tile_count(a.width) + col);
    }
}

/// In a tile that is not ignored, a pixel is left out of the comparison exactly
/// when some rectangle holds it: a rectangle that holds a pixel of the tile
/// touches the tile.
pub proof fn lemma_exempt_pixels_are_the_covered_ones(
    rects: Seq<Rectangle>,
    x: int,
    y: int,
    px: int,
    py: int,
)
    requires
        !chunk_ignored(rects, x, y),
        x <= px < x + CHUNK_SIZE,
        y <= py < y + CHUNK_SIZE,
    ensures
        (chunk_partial(rects, x, y) && pixel_ignored(rects, px, py)) <==> pixel_ignored(
            rects,
            px,
            py,
        ),
{
    if pixel_ignored(rects, px, py) {
        let i = choose|i: int| 0 <= i < rects.len() && (#[trigger] rects[i]).covers(px, py);
        assert(rects[i].meets(x, y, CHUNK_SIZE as int));
        assert(grazes_chunk(rects[i], x, y));
    }
}

/// Comparing an image with a pixel-for-pixel copy of itself reports nothing,
/// whatever rectangles are in force.
pub proof fn lemma_identical_images_report_nothing(
    a: BitmapView,
    b: BitmapView,
    rects: Seq<Rectangle>,
)
    requires
        forall|x: int, y: int| a.in_bounds(x, y) ==> a.at(x, y) == b.at(x, y),
    ensures
        diff_chunks(a, b, rects) == Seq::<(u32, u32)>::empty(),
{
    lemma_filter_nothing(chunk_origins(a.width, a.height), differs_at(a, b, rects));
}

/// Without rectangles, two images that differ in the single pixel `(px, py)`
/// report exactly one tile: the one that holds that pixel.
pub proof fn lemma_single_pixel_reports_its_chunk(a: BitmapView, b: BitmapView, px: int, py: int)
    requires
        a.valid(),
        a.in_bounds(px, py),
        a.at(px, py) != b.at(px, py),
        forall|x: int, y: int|
            a.in_bounds(x, y) && (x, y) != (px, py) ==> a.at(x, y) == b.at(x, y),
    ensures
        diff_chunks(a, b, Seq::empty()) == seq![
            ((CHUNK_SIZE * (px / 10)) as u32, (CHUNK_SIZE * (py / 10)) as u32),
        ],
{
    let rects = Seq::<Rectangle>::empty();
    let origins = chunk_origins(a.width, a.height);
    let keep = differs_at(a, b, rects);
    let columns = tile_count(a.width);
    let row = py / 10;
    let col = px / 10;
    let k = row * columns + col;
    lemma_origin_at(a.width, a.height, row, col);
    assert(pixel_differs(a, b, rects, 10 * col, 10 * row, px, py));
    assert forall|j: int| 0 <= j < origins.len() && j != k implies !keep(#[trigger] origins[j]) by {
        lemma_origin_of_index(a.width, a.height, j);
        let x = 10 * (j % columns);
        let y = 10 * (j / columns);
        if chunk_has_diff(a, b, rects, x, y) {
            let (qx, qy) = choose|qx: int, qy: int| pixel_differs(a, b, rects, x, y, qx, qy);
            assert((qx, qy) == (px, py));
            assert(j % columns == col && j / columns == row);
        }
    }
    lemma_filter_single(origins, keep, k);
}

/// A tile whose pixels, as far as they lie in the image, are all held by one
/// rectangle is never reported, even where the images differ in it. A
/// rectangle that holds the tile's corners `(x, y)` and `(x + 9, y + 9)` is
/// such a rectangle.
pub proof fn lemma_covered_chunk_is_not_reported(
    a: BitmapView,
    b: BitmapView,
    rects: Seq<Rectangle>,
    i: int,
    c: (u32, u32),
)
    requires
        0 <= i < rects.len(),
        forall|px: int, py: int|
            c.0 <= px < c.0 + CHUNK_SIZE && c.1 <= py < c.1 + CHUNK_SIZE && a.in_bounds(px, py)
                ==> #[trigger] rects[i].covers(px, py),
    ensures
        !diff_chunks(a, b, rects).contains(c),
{
    let kept = diff_chunks(a, b, rects);
    if kept.contains(c) {
        let n = choose|n: int| 0 <= n < kept.len() && kept[n] == c;
        chunk_origins(a.width, a.height).lemma_filter_pred(differs_at(a, b, rects), n);
        let x = c.0 as int;
        let y = c.1 as int;
        let (px, py) = choose|px: int, py: int| pixel_differs(a, b, rects, x, y, px, py);
        assert(rects[i].covers(px, py));
        lemma_exempt_pixels_are_the_covered_ones(rects, x, y, px, py);
        assert(false);
    }
}

/// In a tile that no rectangle swallows, a differing pixel outside every
/// rectangle gets the tile reported, whatever else the rectangles exempt.
pub proof fn lemma_uncovered_difference_is_reported(
    a: BitmapView,
    b: BitmapView,
    rects: Seq<Rectangle>,
    c: (u32, u32),
    px: int,
    py: int,
)
    requires
        a.valid(),
        is_chunk_origin(a.width, a.height, c),
        !chunk_ignored(rects, c.0 as int, c.1 as int),
        c.0 <= px < c.0 + CHUNK_SIZE,
        c.1 <= py < c.1 + CHUNK_SIZE,
        a.in_bounds(px, py),
        !pixel_ignored(rects, px, py),
        a.at(px, py) != b.at(px, py),
    ensures
        diff_chunks(a, b, rects).contains(c),
{
    assert(pixel_differs(a, b, rects, c.0 as int, c.1 as int, px, py));
    lemma_diff_chunks_contains(a, b, rects, c);
}

/// The tile in row `row` and column `col` sits at index `row * columns + col`
/// of [`chunk_origins`], and its origin is `(10 * col, 10 * row)`.
proof fn lemma_origin_at(width: int, height: int, row: int, col: int)
    requires
        0 <= width <= u32::MAX,
        0 <= height <= u32::MAX,
        0 <= row < tile_count(height),
        0 <= col < tile_count(width),
    ensures
        0 <= row * tile_count(width) + col < chunk_origins(width, height).len(),
        chunk_origins(width, height)[row * tile_count(width) + col] == (
            (CHUNK_SIZE * col) as u32,
            (CHUNK_SIZE * row) as u32,
        ),
{
    let columns = tile_count(width);
    lemma_row_start(columns, tile_count(height), row);
    lemma_fundamental_div_mod_converse(row * columns + col, columns, row, col);
}

/// Where a row of tiles starts and ends in scan order.
proof fn lemma_row_start(columns: int, rows: int, row: int)
    requires
        0 <= columns,
        0 <= row < rows,
    ensures
        0 <= row * columns,
        (row + 1) * columns == row * columns + columns,
        (row + 1) * columns <= columns * rows,
{
    assert(0 <= row * columns) by (nonlinear_arith)
        requires
            0 <= row,
            0 <= columns,
    ;
    assert((row + 1) * columns == row * columns + columns) by (nonlinear_arith);
    assert((row + 1) * columns <= columns * rows) by (nonlinear_arith)
        requires
            row + 1 <= rows,
            0 <= columns,
    ;
}

/// What sits at index `k` of [`chunk_origins`]: the tile in row `k / columns`
/// and column `k % columns`, whose origin lies inside the image.
proof fn lemma_origin_of_index(width: int, height: int, k: int)
    requires
        0 <= width <= u32::MAX,
        0 <= height <= u32::MAX,
        0 <= k < chunk_origins(width, height).len(),
    ensures
        0 <= k % tile_count(width) < tile_count(width),
        0 <= k / tile_count(width) < tile_count(height),
        k == (k / tile_count(width)) * tile_count(width) + k % tile_count(width),
        chunk_origins(width, height)[k] == (
            (CHUNK_SIZE * (k % tile_count(width))) as u32,
            (CHUNK_SIZE * (k / tile_count(width))) as u32,
        ),
        is_chunk_origin(width, height, chunk_origins(width, height)[k]),
{
    let columns = tile_count(width);
    let rows = tile_count(height);
    assert(columns > 0) by (nonlinear_arith)
        requires
            0 <= k < columns * rows,
            0 <= columns,
    ;
    lemma_fundamental_div_mod(k, columns);
    let row = k / columns;
    let col = k % columns;
    assert(row < rows) by (nonlinear_arith)
        requires
            k == row * columns + col,
            0 <= col,
            k < columns * rows,
            0 < columns,
    ;
}

/// Filtering keeps nothing when no element passes the test.
proof fn lemma_filter_nothing<A>(s: Seq<A>, pred: spec_fn(A) -> bool)
    requires
        forall|i: int| 0 <= i < s.len() ==> !pred(#[trigger] s[i]),
    ensures
        s.filter(pred) == Seq::<A>::empty(),
{
    let kept = s.filter(pred);
    if kept.len() > 0 {
        // What is kept passes the test and comes from `s`.
        s.lemma_filter_pred(pred, 0);
        assert(kept.contains(kept[0]));
        s.lemma_filter_contains_rev(pred, kept[0]);
    }
}

/// Filtering keeps exactly one element when it alone passes the test.
proof fn lemma_filter_single<A>(s: Seq<A>, pred: spec_fn(A) -> bool, k: int)
    requires
        0 <= k < s.len(),
        pred(s[k]),
        forall|i: int| 0 <= i < s.len() && i != k ==> !pred(#[trigger] s[i]),
    ensures
        s.filter(pred) == seq![s[k]],
{
    let before = s.take(k);
    let after = s.skip(k + 1);
    assert(s =~= before.push(s[k]) + after);
    lemma_filter_nothing(before, pred);
    assert forall|i: int| 0 <= i < after.len() implies !pred(#[trigger] after[i]) by {
        assert(after[i] == s[k + 1 + i]);
    }
    lemma_filter_nothing(after, pred);
    before.lemma_filter_push(s[k], pred);
    Seq::filter_distributes_over_add(before.push(s[k]), after, pred);
}

/// Filtering keeps the order of what it keeps: two kept elements stand in the
/// source at indices in the same order. Returns such a pair of indices.
proof fn lemma_filter_keeps_order<A>(s: Seq<A>, pred: spec_fn(A) -> bool, i: int, j: int) -> (at: (
    int,
    int,
))
    requires
        0 <= i < j < s.filter(pred).len(),
    ensures
        0 <= at.0 < at.1 < s.len(),
        s[at.0] == s.filter(pred)[i],
        s[at.1] == s.filter(pred)[j],
    decreases s.len(),
{
    reveal(Seq::filter);
    let front = s.drop_last();
    let kept_front = front.filter(pred);
    if pred(s.last()) && j == kept_front.len() {
        assert(kept_front.contains(kept_front[i]));
        front.lemma_filter_contains_rev(pred, kept_front[i]);
        let p = choose|p: int| 0 <= p < front.len() && front[p] == kept_front[i];
        (p, s.len() - 1)
    } else {
        lemma_filter_keeps_order(front, pred, i, j)
    }
}

} // verus!
