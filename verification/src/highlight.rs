//! Tinting of the tiles that differ.

use vstd::prelude::*;
use crate::differ::{diff_chunks, lemma_diff_chunks_contains, CHUNK_SIZE};
use crate::geometry::Rectangle;
use crate::raster::{Bitmap, BitmapView, Color};

verus! {

/// The tint that goes with a colour: dark pixels turn light pink, strongly
/// red ones deep pink, all others maroon. Alpha stays.
pub open spec fn recolor(p: Color) -> Color {
    if p.0 < 150 && p.1 < 150 && p.2 < 150 {
        (249u8, 133u8, 139u8, p.3)
    } else if p.0 > 215 && p.1 < 215 && p.2 < 215 {
        (118u8, 17u8, 55u8, p.3)
    } else {
        (237u8, 51u8, 95u8, p.3)
    }
}

/// Computes [`recolor`].
pub fn tint(p: Color) -> (tinted: Color)
    ensures
        tinted == recolor(p),
        tinted.3 == p.3,
{
    if p.0 < 150 && p.1 < 150 && p.2 < 150 {
        (249, 133, 139, p.3)
    } else if p.0 > 215 && p.1 < 215 && p.2 < 215 {
        (118, 17, 55, p.3)
    } else {
        (237, 51, 95, p.3)
    }
}

/// The pixel `(x, y)` lies in the tile whose origin is `chunk`.
pub open spec fn in_chunk(chunk: (u32, u32), x: int, y: int) -> bool {
    chunk.0 <= x < chunk.0 + CHUNK_SIZE && chunk.1 <= y < chunk.1 + CHUNK_SIZE
}

/// The pixel `(x, y)` lies in one of the tiles of `chunks`.
pub open spec fn in_any_chunk(chunks: Seq<(u32, u32)>, x: int, y: int) -> bool {
    exists|i: int| 0 <= i < chunks.len() && in_chunk(#[trigger] chunks[i], x, y)
}

/// Tints the pixels of one tile in `image`, as far as they lie in the image.
/// The tint of a pixel goes by its colour in `source`, whatever `image` holds
/// there.
fn tint_chunk(source: &Bitmap, image: &mut Bitmap, chunk: (u32, u32))
    requires
        old(image)@.width == source@.width,
        old(image)@.height == source@.height,
    ensures
        final(image)@.width == old(image)@.width,
        final(image)@.height == old(image)@.height,
        forall|x: int, y: int|
            source@.in_bounds(x, y) ==> #[trigger] final(image)@.at(x, y) == if in_chunk(
                chunk,
                x,
                y,
            ) {
                recolor(source@.at(x, y))
            } else {
                old(image)@.at(x, y)
            },
{
    let (width, height) = source.dimensions();
    let ghost start = image@;
    let mut dx: u32 = 0;
    while dx < CHUNK_SIZE
        invariant
            0 <= dx <= CHUNK_SIZE,
            start == old(image)@,
            image@.width == source@.width,
            image@.height == source@.height,
            width == source@.width,
            height == source@.height,
            forall|x: int, y: int|
                source@.in_bounds(x, y) ==> #[trigger] image@.at(x, y) == if in_chunk(chunk, x, y)
                    && x < chunk.0 + dx {
                    recolor(source@.at(x, y))
                } else {
                    start.at(x, y)
                },
        decreases CHUNK_SIZE - dx,
    {
        let mut dy: u32 = 0;
        while dy < CHUNK_SIZE
            invariant
                0 <= dx < CHUNK_SIZE,
                0 <= dy <= CHUNK_SIZE,
                start == old(image)@,
                image@.width == source@.width,
                image@.height == source@.height,
                width == source@.width,
                height == source@.height,
                forall|x: int, y: int|
                    source@.in_bounds(x, y) ==> #[trigger] image@.at(x, y) == if in_chunk(
                        chunk,
                        x,
                        y,
                    ) && (x < chunk.0 + dx || (x == chunk.0 + dx && y < chunk.1 + dy)) {
                        recolor(source@.at(x, y))
                    } else {
                        start.at(x, y)
                    },
            decreases CHUNK_SIZE - dy,
        {
            let new_x: u64 = chunk.0 as u64 + dx as u64;
            let new_y: u64 = chunk.1 as u64 + dy as u64;
            if new_x < width as u64 && new_y < height as u64 {
                let x: u32 = new_x as u32;
                let y: u32 = new_y as u32;
                if let Some(pixel) = source.pixel(x, y) {
                    image.set_pixel(x, y, tint(pixel));
                }
            }
            dy += 1;
        }
        dx += 1;
    }
}

/// Returns a copy of `image` in which the tiles of `chunks` are tinted, each
/// clipped to the image. Every pixel that one of the tiles holds gets the tint
/// that goes with its colour in `image`; a tile listed twice, or tiles that
/// overlap, tint a pixel no differently than one tile does. All other pixels
/// are as in `image`.
pub fn highlight_chunks(image: &Bitmap, chunks: &[(u32, u32)]) -> (tinted: Bitmap)
    ensures
        tinted@.width == image@.width,
        tinted@.height == image@.height,
        forall|x: int, y: int|
            image@.in_bounds(x, y) ==> #[trigger] tinted@.at(x, y) == if in_any_chunk(
                chunks@,
                x,
                y,
            ) {
                recolor(image@.at(x, y))
            } else {
                image@.at(x, y)
            },
{
    let mut new_image = image.clone();
    let mut k: usize = 0;
    while k < chunks.len()
        invariant
            0 <= k <= chunks@.len(),
            new_image@.width == image@.width,
            new_image@.height == image@.height,
            forall|x: int, y: int|
                image@.in_bounds(x, y) ==> #[trigger] new_image@.at(x, y) == if in_any_chunk(
                    chunks@.take(k as int),
                    x,
                    y,
                ) {
                    recolor(image@.at(x, y))
                } else {
                    image@.at(x, y)
                },
        decreases chunks@.len() - k,
    {
        let chunk = chunks[k];
        let ghost before = new_image@;
        tint_chunk(image, &mut new_image, chunk);
        proof {
            let done = chunks@.take(k as int);
            let next = chunks@.take(k + 1);
            assert forall|x: int, y: int| image@.in_bounds(x, y) implies (in_any_chunk(next, x, y)
                <==> in_any_chunk(done, x, y) || in_chunk(chunk, x, y)) by {
                if in_any_chunk(done, x, y) {
                    let i = choose|i: int| 0 <= i < done.len() && in_chunk(done[i], x, y);
                    assert(in_chunk(next[i], x, y));
                }
                if in_chunk(chunk, x, y) {
                    assert(in_chunk(next[k as int], x, y));
                }
                if in_any_chunk(next, x, y) {
                    let i = choose|i: int| 0 <= i < next.len() && in_chunk(next[i], x, y);
                    if i < k {
                        assert(in_chunk(done[i], x, y));
                    }
                }
            }
            assert forall|x: int, y: int| image@.in_bounds(x, y) implies #[trigger] new_image@.at(
                x,
                y,
            ) == if in_any_chunk(next, x, y) {
                recolor(image@.at(x, y))
            } else {
                image@.at(x, y)
            } by {
                assert(before.at(x, y) == if in_any_chunk(done, x, y) {
                    recolor(image@.at(x, y))
                } else {
                    image@.at(x, y)
                });
            }
        }
        k += 1;
    }
    proof {
        assert(chunks@.take(chunks@.len() as int) =~= chunks@);
    }
    new_image
}

/// Among the tiles that a comparison reported, the one that holds a pixel of
/// the image is the tile of the grid that the pixel lies in: tinting what was
/// reported tints exactly the pixels of the reported tiles of the grid.
pub proof fn lemma_reported_chunks_hold_their_pixels(
    a: BitmapView,
    b: BitmapView,
    rects: Seq<Rectangle>,
    x: int,
    y: int,
)
    requires
        a.valid(),
        a.in_bounds(x, y),
    ensures
        in_any_chunk(diff_chunks(a, b, rects), x, y) <==> diff_chunks(a, b, rects).contains(
            ((CHUNK_SIZE * (x / 10)) as u32, (CHUNK_SIZE * (y / 10)) as u32),
        ),
{
    let reported = diff_chunks(a, b, rects);
    let home = ((CHUNK_SIZE * (x / 10)) as u32, (CHUNK_SIZE * (y / 10)) as u32);
    assert forall|i: int| 0 <= i < reported.len() implies (in_chunk(#[trigger] reported[i], x, y)
        <==> reported[i] == home) by {
        assert(reported.contains(reported[i]));
        lemma_diff_chunks_contains(a, b, rects, reported[i]);
    }
    if reported.contains(home) {
        let k = choose|k: int| 0 <= k < reported.len() && reported[k] == home;
        assert(in_chunk(reported[k], x, y));
    }
}

} // verus!
