//! Filled disks.
use vstd::prelude::*;
use crate::blend::{blend, blend_spec};
use crate::canvas::{
    has_pixel, lemma_has_pixel_before, lemma_overwritten_nothing, lemma_overwritten_same,
    lemma_overwritten_step, lemma_repainted_nothing, lemma_repainted_same, lemma_repainted_then,
    overwritten, pixel_at, pixel_offset, put_pixel, repainted, Color,
};

verus! {

/// Pixel `(x, y)` is no further than `r` from the center `(cx, cy)`.
pub open spec fn in_disk(cx: int, cy: int, r: int, x: int, y: int) -> bool {
    (x - cx) * (x - cx) + (y - cy) * (y - cy) <= r * r
}

/// The pixels of a disk in the rows above `row`, and in row `row` left of `col`.
pub open spec fn disk_prefix(cx: int, cy: int, r: int, row: int, col: int, x: int, y: int) -> bool {
    in_disk(cx, cy, r, x, y) && (y < row || (y == row && x < col))
}

/// A pixel of a disk lies inside the disk's bounding box.
proof fn lemma_disk_in_box(cx: int, cy: int, r: int, x: int, y: int)
    requires
        0 <= r,
        in_disk(cx, cy, r, x, y),
    ensures
        cx - r <= x <= cx + r,
        cy - r <= y <= cy + r,
{
    let dx = x - cx;
    let dy = y - cy;
    assert(dy * dy >= 0) by (nonlinear_arith);
    assert(dx * dx >= 0) by (nonlinear_arith);
    if dx > r || -dx > r {
        assert(dx * dx > r * r) by (nonlinear_arith)
            requires
                dx > r || -dx > r,
                0 <= r,
        ;
    }
    if dy > r || -dy > r {
        assert(dy * dy > r * r) by (nonlinear_arith)
            requires
                dy > r || -dy > r,
                0 <= r,
        ;
    }
}

/// Overwrites with `color` every pixel whose squared distance to `(x, y)` is at
/// most `r * r`.
pub fn draw_circle_filled(canvas: &mut [u8], x: usize, y: usize, r: usize, width: usize, color: Color)
    requires
        r <= x,
        r <= y,
        x + r <= usize::MAX,
        y + r <= usize::MAX,
        has_pixel(old(canvas)@.len() as int, width as int, x + r, y + r),
    ensures
        repainted(
            old(canvas)@,
            final(canvas)@,
            width as int,
            color,
            |px: int, py: int| in_disk(x as int, y as int, r as int, px, py),
        ),
{
    let ghost start = canvas@;
    let ghost len = start.len() as int;
    let ghost w = width as int;
    let ghost (cx, cy, rr) = (x as int, y as int, r as int);
    let x0 = x - r;
    let x1 = x + r;
    let y0 = y - r;
    let y1 = y + r;
    let n: usize = canvas.len();
    proof {
        assert(rr * rr + rr * rr <= (cy + rr) * w) by (nonlinear_arith)
            requires
                0 <= rr <= cy,
                rr < w,
        ;
        assert((cy + rr) * w <= n) by (nonlinear_arith)
            requires
                ((cy + rr) * w + cx + rr) * 4 + 4 <= n,
                0 <= cx + rr,
        ;
        assert(cy + rr <= (cy + rr) * w) by (nonlinear_arith)
            requires
                0 <= cy + rr,
                1 <= w,
        ;
        assert forall|px: int, py: int|
            #[trigger] disk_prefix(cx, cy, rr, y0 as int, x0 as int, px, py) == false by {
            if in_disk(cx, cy, rr, px, py) {
                lemma_disk_in_box(cx, cy, rr, px, py);
            }
        }
        lemma_repainted_nothing(
            start,
            w,
            color,
            |px: int, py: int| disk_prefix(cx, cy, rr, y0 as int, x0 as int, px, py),
        );
    }
    let mut hh: usize = y0;
    while hh <= y1
        invariant
            y0 <= hh <= y1 + 1,
            x0 == cx - rr,
            x1 == cx + rr,
            y0 == cy - rr,
            y1 == cy + rr,
            x == cx,
            y == cy,
            r == rr,
            y1 < usize::MAX,
            canvas@.len() == len,
            len == n,
            w == width as int,
            rr * rr + rr * rr <= n,
            has_pixel(len, w, x1 as int, y1 as int),
            repainted(
                start,
                canvas@,
                w,
                color,
                |px: int, py: int| disk_prefix(cx, cy, rr, hh as int, x0 as int, px, py),
            ),
        decreases y1 + 1 - hh,
    {
        let mut ww: usize = x0;
        while ww <= x1
            invariant
                y0 <= hh <= y1,
                x0 <= ww <= x1 + 1,
                x0 == cx - rr,
                x1 == cx + rr,
                y0 == cy - rr,
                y1 == cy + rr,
                x == cx,
                y == cy,
                r == rr,
                y1 < usize::MAX,
                canvas@.len() == len,
                len == n,
                w == width as int,
                rr * rr + rr * rr <= n,
                has_pixel(len, w, x1 as int, y1 as int),
                repainted(
                    start,
                    canvas@,
                    w,
                    color,
                    |px: int, py: int| disk_prefix(cx, cy, rr, hh as int, ww as int, px, py),
                ),
            decreases x1 + 1 - ww,
        {
            let dy: usize = if y >= hh {
                y - hh
            } else {
                hh - y
            };
            let dx: usize = if x >= ww {
                x - ww
            } else {
                ww - x
            };
            proof {
                assert(dx * dx <= rr * rr && dy * dy <= rr * rr) by (nonlinear_arith)
                    requires
                        dx <= rr,
                        dy <= rr,
                ;
                assert(dx * dx + dy * dy == (ww - cx) * (ww - cx) + (hh - cy) * (hh - cy))
                    by (nonlinear_arith)
                    requires
                        dx == ww - cx || dx == cx - ww,
                        dy == hh - cy || dy == cy - hh,
                ;
            }
            let ghost before = canvas@;
            if dx * dx + dy * dy <= r * r {
                proof {
                    lemma_has_pixel_before(len, w, x1 as int, y1 as int, ww as int, hh as int);
                }
                put_pixel(canvas, width, ww, hh, color);
                proof {
                    lemma_repainted_then(
                        start,
                        before,
                        canvas@,
                        w,
                        color,
                        |px: int, py: int| disk_prefix(cx, cy, rr, hh as int, ww as int, px, py),
                        |px: int, py: int| px == ww && py == hh,
                        |px: int, py: int| disk_prefix(cx, cy, rr, hh as int, ww + 1, px, py),
                    );
                }
            } else {
                proof {
                    lemma_repainted_same(
                        start,
                        canvas@,
                        w,
                        color,
                        |px: int, py: int| disk_prefix(cx, cy, rr, hh as int, ww as int, px, py),
                        |px: int, py: int| disk_prefix(cx, cy, rr, hh as int, ww + 1, px, py),
                    );
                }
            }
            ww = ww + 1;
        }
        proof {
            assert forall|px: int, py: int|
                #[trigger] disk_prefix(cx, cy, rr, hh + 1, x0 as int, px, py) == disk_prefix(
                    cx,
                    cy,
                    rr,
                    hh as int,
                    ww as int,
                    px,
                    py,
                ) by {
                if in_disk(cx, cy, rr, px, py) {
                    lemma_disk_in_box(cx, cy, rr, px, py);
                }
            }
            lemma_repainted_same(
                start,
                canvas@,
                w,
                color,
                |px: int, py: int| disk_prefix(cx, cy, rr, hh as int, ww as int, px, py),
                |px: int, py: int| disk_prefix(cx, cy, rr, hh + 1, x0 as int, px, py),
            );
        }
        hh = hh + 1;
    }
    proof {
        assert forall|px: int, py: int|
            #[trigger] in_disk(cx, cy, rr, px, py) == disk_prefix(
                cx,
                cy,
                rr,
                hh as int,
                x0 as int,
                px,
                py,
            ) by {
            if in_disk(cx, cy, rr, px, py) {
                lemma_disk_in_box(cx, cy, rr, px, py);
            }
        }
        lemma_repainted_same(
            start,
            canvas@,
            w,
            color,
            |px: int, py: int| disk_prefix(cx, cy, rr, hh as int, x0 as int, px, py),
            |px: int, py: int| in_disk(cx, cy, rr, px, py),
        );
    }
}

/// Composites `color` over every pixel whose squared distance to `(x, y)` is at
/// most `r * r`, by `blend`.
pub fn draw_circle_blended(canvas: &mut [u8], x: usize, y: usize, r: usize, width: usize, color: Color)
    requires
        r <= x,
        r <= y,
        x + r <= usize::MAX,
        y + r <= usize::MAX,
        has_pixel(old(canvas)@.len() as int, width as int, x + r, y + r),
    ensures
        overwritten(
            old(canvas)@,
            final(canvas)@,
            width as int,
            |px: int, py: int| in_disk(x as int, y as int, r as int, px, py),
            |px: int, py: int| blend_spec(pixel_at(old(canvas)@, width as int, px, py), color),
        ),
{
    let ghost start = canvas@;
    let ghost len = start.len() as int;
    let ghost w = width as int;
    let ghost (cx, cy, rr) = (x as int, y as int, r as int);
    let ghost paint = |px: int, py: int| blend_spec(pixel_at(start, w, px, py), color);
    let x0 = x - r;
    let x1 = x + r;
    let y0 = y - r;
    let y1 = y + r;
    let n: usize = canvas.len();
    proof {
        assert(rr * rr + rr * rr <= (cy + rr) * w) by (nonlinear_arith)
            requires
                0 <= rr <= cy,
                rr < w,
        ;
        assert((cy + rr) * w <= n) by (nonlinear_arith)
            requires
                ((cy + rr) * w + cx + rr) * 4 + 4 <= n,
                0 <= cx + rr,
        ;
        assert(cy + rr <= (cy + rr) * w) by (nonlinear_arith)
            requires
                0 <= cy + rr,
                1 <= w,
        ;
        assert forall|px: int, py: int|
            #[trigger] disk_prefix(cx, cy, rr, y0 as int, x0 as int, px, py) == false by {
            if in_disk(cx, cy, rr, px, py) {
                lemma_disk_in_box(cx, cy, rr, px, py);
            }
        }
        lemma_overwritten_nothing(
            start,
            w,
            |px: int, py: int| disk_prefix(cx, cy, rr, y0 as int, x0 as int, px, py),
            paint,
        );
    }
    let mut hh: usize = y0;
    while hh <= y1
        invariant
            y0 <= hh <= y1 + 1,
            x0 == cx - rr,
            x1 == cx + rr,
            y0 == cy - rr,
            y1 == cy + rr,
            x == cx,
            y == cy,
            r == rr,
            y1 < usize::MAX,
            canvas@.len() == len,
            len == n,
            w == width as int,
            rr * rr + rr * rr <= n,
            has_pixel(len, w, x1 as int, y1 as int),
            paint == (|px: int, py: int| blend_spec(pixel_at(start, w, px, py), color)),
            overwritten(
                start,
                canvas@,
                w,
                |px: int, py: int| disk_prefix(cx, cy, rr, hh as int, x0 as int, px, py),
                paint,
            ),
        decreases y1 + 1 - hh,
    {
        let mut ww: usize = x0;
        while ww <= x1
            invariant
                y0 <= hh <= y1,
                x0 <= ww <= x1 + 1,
                x0 == cx - rr,
                x1 == cx + rr,
                y0 == cy - rr,
                y1 == cy + rr,
                x == cx,
                y == cy,
                r == rr,
                y1 < usize::MAX,
                canvas@.len() == len,
                len == n,
                w == width as int,
                rr * rr + rr * rr <= n,
                has_pixel(len, w, x1 as int, y1 as int),
                paint == (|px: int, py: int| blend_spec(pixel_at(start, w, px, py), color)),
                overwritten(
                    start,
                    canvas@,
                    w,
                    |px: int, py: int| disk_prefix(cx, cy, rr, hh as int, ww as int, px, py),
                    paint,
                ),
            decreases x1 + 1 - ww,
        {
            let dy: usize = if y >= hh {
                y - hh
            } else {
                hh - y
            };
            let dx: usize = if x >= ww {
                x - ww
            } else {
                ww - x
            };
            proof {
                assert(dx * dx <= rr * rr && dy * dy <= rr * rr) by (nonlinear_arith)
                    requires
                        dx <= rr,
                        dy <= rr,
                ;
                assert(dx * dx + dy * dy == (ww - cx) * (ww - cx) + (hh - cy) * (hh - cy))
                    by (nonlinear_arith)
                    requires
                        dx == ww - cx || dx == cx - ww,
                        dy == hh - cy || dy == cy - hh,
                ;
            }
            let ghost before = canvas@;
            if dx * dx + dy * dy <= r * r {
                proof {
                    lemma_has_pixel_before(len, w, x1 as int, y1 as int, ww as int, hh as int);
                    assert(hh * width <= n) by (nonlinear_arith)
                        requires
                            (hh * width + ww) * 4 + 4 <= n,
                    ;
                }
                let o: usize = (hh * width + ww) * 4;
                proof {
                    let po = pixel_offset(w, ww as int, hh as int);
                    assert(o == po);
                    assert(before[po + 0] == start[po + 0]);
                    assert(before[po + 1] == start[po + 1]);
                    assert(before[po + 2] == start[po + 2]);
                    assert(before[po + 3] == start[po + 3]);
                }
                let under: Color = (canvas[o], canvas[o + 1], canvas[o + 2], canvas[o + 3]);
                let c = blend(under, color);
                put_pixel(canvas, width, ww, hh, c);
                proof {
                    lemma_overwritten_step(
                        start,
                        before,
                        canvas@,
                        w,
                        |px: int, py: int| disk_prefix(cx, cy, rr, hh as int, ww as int, px, py),
                        paint,
                        ww as int,
                        hh as int,
                        |px: int, py: int| disk_prefix(cx, cy, rr, hh as int, ww + 1, px, py),
                    );
                }
            } else {
                proof {
                    lemma_overwritten_same(
                        start,
                        canvas@,
                        w,
                        |px: int, py: int| disk_prefix(cx, cy, rr, hh as int, ww as int, px, py),
                        |px: int, py: int| disk_prefix(cx, cy, rr, hh as int, ww + 1, px, py),
                        paint,
                    );
                }
            }
            ww = ww + 1;
        }
        proof {
            assert forall|px: int, py: int|
                #[trigger] disk_prefix(cx, cy, rr, hh + 1, x0 as int, px, py) == disk_prefix(
                    cx,
                    cy,
                    rr,
                    hh as int,
                    ww as int,
                    px,
                    py,
                ) by {
                if in_disk(cx, cy, rr, px, py) {
                    lemma_disk_in_box(cx, cy, rr, px, py);
                }
            }
            lemma_overwritten_same(
                start,
                canvas@,
                w,
                |px: int, py: int| disk_prefix(cx, cy, rr, hh as int, ww as int, px, py),
                |px: int, py: int| disk_prefix(cx, cy, rr, hh + 1, x0 as int, px, py),
                paint,
            );
        }
        hh = hh + 1;
    }
    proof {
        assert forall|px: int, py: int|
            #[trigger] in_disk(cx, cy, rr, px, py) == disk_prefix(
                cx,
                cy,
                rr,
                hh as int,
                x0 as int,
                px,
                py,
            ) by {
            if in_disk(cx, cy, rr, px, py) {
                lemma_disk_in_box(cx, cy, rr, px, py);
            }
        }
        lemma_overwritten_same(
            start,
            canvas@,
            w,
            |px: int, py: int| disk_prefix(cx, cy, rr, hh as int, x0 as int, px, py),
            |px: int, py: int| in_disk(cx, cy, rr, px, py),
            paint,
        );
    }
}

} // verus!
