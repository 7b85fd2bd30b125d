//! Blurred rectangles: the color channels of a region are taken out of the
//! canvas, smoothed by a blur filter, and put back fully opaque.
use vstd::prelude::*;
use crate::canvas::{
    lemma_has_pixel_in_rows, lemma_overwritten_nothing, lemma_overwritten_same,
    lemma_overwritten_step, overwritten, pixel_offset, put_pixel, rows_in, Color,
};
use crate::rectangle::{box_fits, max, min};

verus! {

/// Blur radius; a region narrower or lower than this is left as it is.
pub const BLUR_RADIUS: usize = 5;

/// The red, green and blue channels of a region of the canvas, row by row, with
/// the region's top left corner and size.
pub struct BlurArea {
    pub x0: usize,
    pub y0: usize,
    pub width: usize,
    pub height: usize,
    pub pixels: Vec<[u8; 3]>,
}

/// Index of the pixel `(x, y)` of the region in a row-major list `w` wide.
pub open spec fn area_index(w: int, x: int, y: int) -> int {
    y * w + x
}

/// The region spanned by two corners is large enough to blur and lies inside the
/// buffer.
pub open spec fn blur_applies(len: int, width: int, x0: int, y0: int, x1: int, y1: int) -> bool {
    &&& max(x0, x1) - min(x0, x1) >= BLUR_RADIUS
    &&& max(y0, y1) - min(y0, y1) >= BLUR_RADIUS
    &&& box_fits(len, width, x0, y0, x1, y1)
}

/// `area` holds the color channels of the region of `canvas` it names.
pub open spec fn area_holds(canvas: Seq<u8>, width: int, area: BlurArea) -> bool {
    &&& area.pixels@.len() == area.width * area.height
    &&& forall|x: int, y: int|
        0 <= x < area.width && 0 <= y < area.height ==> {
            let o = pixel_offset(width, area.x0 + x, area.y0 + y);
            let p = #[trigger] area.pixels@[area_index(area.width as int, x, y)];
            p@ == seq![canvas[o], canvas[o + 1], canvas[o + 2]]
        }
}

proof fn lemma_area_index(w: int, h: int, x: int, y: int)
    requires
        0 <= x < w,
        0 <= y < h,
    ensures
        0 <= area_index(w, x, y) < w * h,
        area_index(w, x, y) < y * w + w,
        y * w + w <= w * h,
        y * w + w <= h * w,
{
    assert(y * w + w <= w * h) by (nonlinear_arith)
        requires
            y < h,
            0 <= w,
    ;
    assert(w * h == h * w) by (nonlinear_arith);
    assert(0 <= y * w) by (nonlinear_arith)
        requires
            0 <= y,
            0 <= w,
    ;
}

proof fn lemma_area_index_distinct(w: int, x1: int, y1: int, x2: int, y2: int)
    requires
        0 <= x1 < w,
        0 <= x2 < w,
        0 <= y1,
        0 <= y2,
        x1 != x2 || y1 != y2,
    ensures
        area_index(w, x1, y1) != area_index(w, x2, y2),
{
    if y1 < y2 {
        assert(y1 * w + w <= y2 * w) by (nonlinear_arith)
            requires
                y1 < y2,
                0 <= w,
        ;
    } else if y2 < y1 {
        assert(y2 * w + w <= y1 * w) by (nonlinear_arith)
            requires
                y2 < y1,
                0 <= w,
        ;
    }
}

/// Takes out the color channels of the region spanned by `(x0, y0)` and
/// `(x1, y1)` (corners in either order), or `None` when the region is narrower or
/// lower than `BLUR_RADIUS` or does not lie inside the buffer.
pub fn take_blur_area(canvas: &[u8], x0: usize, y0: usize, x1: usize, y1: usize, width: usize) -> (r:
    Option<BlurArea>)
    ensures
        r is None <==> !blur_applies(
            canvas@.len() as int,
            width as int,
            x0 as int,
            y0 as int,
            x1 as int,
            y1 as int,
        ),
        r matches Some(area) ==> {
            &&& area.x0 == min(x0 as int, x1 as int)
            &&& area.y0 == min(y0 as int, y1 as int)
            &&& area.width == max(x0 as int, x1 as int) - min(x0 as int, x1 as int)
            &&& area.height == max(y0 as int, y1 as int) - min(y0 as int, y1 as int)
            &&& area_holds(canvas@, width as int, area)
        },
{
    let (xa, xb) = if x0 > x1 {
        (x1, x0)
    } else {
        (x0, x1)
    };
    let (ya, yb) = if y0 > y1 {
        (y1, y0)
    } else {
        (y0, y1)
    };
    let len = canvas.len();
    let bw = xb - xa;
    let bh = yb - ya;
    if bw < BLUR_RADIUS || bh < BLUR_RADIUS || xb > width || !rows_in(len, width, yb) {
        return None;
    }
    proof {
        assert(ya * width * 4 <= yb * width * 4) by (nonlinear_arith)
            requires
                ya <= yb,
                0 <= width,
        ;
    }
    let ghost w = width as int;
    let mut pixels: Vec<[u8; 3]> = Vec::new();
    let mut hh: usize = 0;
    while hh < bh
        invariant
            hh <= bh,
            bh == yb - ya,
            bw == xb - xa,
            xb <= width,
            yb * w * 4 <= len,
            len == canvas@.len(),
            w == width as int,
            pixels@.len() == hh * bw,
            forall|x: int, y: int|
                0 <= x < bw && 0 <= y < hh ==> {
                    let o = pixel_offset(w, xa + x, ya + y);
                    let p = #[trigger] pixels@[area_index(bw as int, x, y)];
                    p@ == seq![canvas@[o], canvas@[o + 1], canvas@[o + 2]]
                },
        decreases bh - hh,
    {
        let mut ww: usize = 0;
        while ww < bw
            invariant
                hh < bh,
                ww <= bw,
                bh == yb - ya,
                bw == xb - xa,
                xb <= width,
                yb * w * 4 <= len,
                len == canvas@.len(),
                w == width as int,
                pixels@.len() == hh * bw + ww,
                forall|x: int, y: int|
                    0 <= x < bw && 0 <= y < hh + 1 && (y < hh || x < ww) ==> {
                        let o = pixel_offset(w, xa + x, ya + y);
                        let p = #[trigger] pixels@[area_index(bw as int, x, y)];
                        p@ == seq![canvas@[o], canvas@[o + 1], canvas@[o + 2]]
                    },
            decreases bw - ww,
        {
            let (px, py) = (xa + ww, ya + hh);
            proof {
                lemma_has_pixel_in_rows(len as int, w, yb as int, px as int, py as int);
                assert(py * width <= len) by (nonlinear_arith)
                    requires
                        (py * width + px) * 4 + 4 <= len,
                ;
            }
            let o: usize = (py * width + px) * 4;
            let item: [u8; 3] = [canvas[o], canvas[o + 1], canvas[o + 2]];
            let ghost before = pixels@;
            pixels.push(item);
            proof {
                assert(area_index(bw as int, ww as int, hh as int) == hh * bw + ww);
                assert forall|x: int, y: int|
                    0 <= x < bw && 0 <= y < hh + 1 && (y < hh || x < ww + 1) implies {
                        let o = pixel_offset(w, xa + x, ya + y);
                        let p = #[trigger] pixels@[area_index(bw as int, x, y)];
                        p@ == seq![canvas@[o], canvas@[o + 1], canvas@[o + 2]]
                    } by {
                    if x == ww && y == hh {
                        assert(item@ =~= seq![canvas@[o as int], canvas@[o + 1], canvas@[o + 2]]);
                    } else {
                        lemma_area_index_distinct(bw as int, x, y, ww as int, hh as int);
                        if y < hh {
                            lemma_area_index(bw as int, hh as int, x, y);
                        }
                        assert(area_index(bw as int, x, y) < hh * bw + ww);
                        assert(pixels@[area_index(bw as int, x, y)] == before[area_index(
                            bw as int,
                            x,
                            y,
                        )]);
                    }
                }
            }
            ww = ww + 1;
        }
        proof {
            assert(pixels@.len() == (hh + 1) * bw) by (nonlinear_arith)
                requires
                    pixels@.len() == hh * bw + bw,
            ;
        }
        hh = hh + 1;
    }
    proof {
        assert(pixels@.len() == bw * bh) by (nonlinear_arith)
            requires
                pixels@.len() == bh * bw,
        ;
    }
    Some(BlurArea { x0: xa, y0: ya, width: bw, height: bh, pixels })
}

/// The pixel of the region at `(x, y)` as an opaque color.
pub open spec fn area_color(area: BlurArea, x: int, y: int) -> Color {
    let p = area.pixels@[area_index(area.width as int, x - area.x0, y - area.y0)];
    (p[0], p[1], p[2], 255u8)
}

/// Pixel `(x, y)` lies in the region.
pub open spec fn in_area(area: BlurArea, x: int, y: int) -> bool {
    area.x0 <= x < area.x0 + area.width && area.y0 <= y < area.y0 + area.height
}

/// Writes the region's color channels back into the canvas, each pixel fully
/// opaque.
pub fn put_blur_area(canvas: &mut [u8], width: usize, area: &BlurArea)
    requires
        area.pixels@.len() == area.width * area.height,
        area.x0 + area.width <= width,
        area.y0 + area.height <= usize::MAX,
        (area.y0 + area.height) * width * 4 <= old(canvas)@.len(),
    ensures
        overwritten(
            old(canvas)@,
            final(canvas)@,
            width as int,
            |x: int, y: int| in_area(*area, x, y),
            |x: int, y: int| area_color(*area, x, y),
        ),
{
    let ghost start = canvas@;
    let ghost w = width as int;
    let ghost len = start.len() as int;
    let ghost paint = |x: int, y: int| area_color(*area, x, y);
    let (x0, y0, bw, bh) = (area.x0, area.y0, area.width, area.height);
    let plen = area.pixels.len();
    let yb: usize = y0 + bh;
    proof {
        lemma_overwritten_nothing(
            start,
            w,
            |x: int, y: int| x0 <= x < x0 + bw && y0 <= y < y0,
            paint,
        );
    }
    let mut hh: usize = 0;
    while hh < bh
        invariant
            hh <= bh,
            (x0, y0, bw, bh) == (area.x0, area.y0, area.width, area.height),
            yb == y0 + bh,
            area.pixels@.len() == bw * bh,
            plen == area.pixels@.len(),
            x0 + bw <= width,
            yb * w * 4 <= len,
            canvas@.len() == len,
            w == width as int,
            paint == (|x: int, y: int| area_color(*area, x, y)),
            overwritten(start, canvas@, w, |x: int, y: int| x0 <= x < x0 + bw && y0 <= y < y0 + hh, paint),
        decreases bh - hh,
    {
        let mut ww: usize = 0;
        while ww < bw
            invariant
                hh < bh,
                ww <= bw,
                (x0, y0, bw, bh) == (area.x0, area.y0, area.width, area.height),
                yb == y0 + bh,
                area.pixels@.len() == bw * bh,
                plen == area.pixels@.len(),
                x0 + bw <= width,
                yb * w * 4 <= len,
                canvas@.len() == len,
                w == width as int,
                paint == (|x: int, y: int| area_color(*area, x, y)),
                overwritten(
                    start,
                    canvas@,
                    w,
                    |x: int, y: int| x0 <= x < x0 + bw && (y0 <= y < y0 + hh || (y == y0 + hh && x < x0 + ww)),
                    paint,
                ),
            decreases bw - ww,
        {
            proof {
                lemma_area_index(bw as int, bh as int, ww as int, hh as int);
                lemma_has_pixel_in_rows(len, w, yb as int, (x0 + ww) as int, (y0 + hh) as int);
                assert(hh * bw + ww < bw * bh);
            }
            let p: [u8; 3] = area.pixels[hh * bw + ww];
            let (r, g, b) = (p[0], p[1], p[2]);
            let ghost before = canvas@;
            put_pixel(canvas, width, x0 + ww, y0 + hh, (r, g, b, 255));
            proof {
                lemma_overwritten_step(
                    start,
                    before,
                    canvas@,
                    w,
                    |x: int, y: int| x0 <= x < x0 + bw && (y0 <= y < y0 + hh || (y == y0 + hh && x < x0 + ww)),
                    paint,
                    (x0 + ww) as int,
                    (y0 + hh) as int,
                    |x: int, y: int| x0 <= x < x0 + bw && (y0 <= y < y0 + hh || (y == y0 + hh && x < x0 + ww + 1)),
                );
            }
            ww = ww + 1;
        }
        proof {
            lemma_overwritten_same(
                start,
                canvas@,
                w,
                |x: int, y: int| x0 <= x < x0 + bw && (y0 <= y < y0 + hh || (y == y0 + hh && x < x0 + ww)),
                |x: int, y: int| x0 <= x < x0 + bw && y0 <= y < y0 + hh + 1,
                paint,
            );
        }
        hh = hh + 1;
    }
    proof {
        lemma_overwritten_same(
            start,
            canvas@,
            w,
            |x: int, y: int| x0 <= x < x0 + bw && y0 <= y < y0 + hh,
            |x: int, y: int| in_area(*area, x, y),
            paint,
        );
    }
}

} // verus!
