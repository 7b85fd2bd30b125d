//! Axis-aligned rectangles: filled boxes and bordered outlines.
use vstd::prelude::*;
use crate::canvas::{
    has_pixel, lemma_has_pixel_in_rows, lemma_repainted_nothing, lemma_repainted_same, lemma_repainted_then, put_pixel,
    repainted, Color,
};
use crate::line::{draw_line, on_line};

verus! {

/// Thickness in pixels of each band of a bordered rectangle.
pub const BORDER_WIDTH: usize = 2;

pub open spec fn min(a: int, b: int) -> int {
    if a <= b {
        a
    } else {
        b
    }
}

pub open spec fn max(a: int, b: int) -> int {
    if a <= b {
        b
    } else {
        a
    }
}

/// The half-open box spanned by two corners, whichever way round they are given.
pub open spec fn in_box(x0: int, y0: int, x1: int, y1: int, x: int, y: int) -> bool {
    min(x0, x1) <= x < max(x0, x1) && min(y0, y1) <= y < max(y0, y1)
}

/// The box spanned by the corners lies inside a buffer of `len` bytes with rows
/// `width` pixels long: its columns are below `width`, its rows are held in full.
pub open spec fn box_fits(len: int, width: int, x0: int, y0: int, x1: int, y1: int) -> bool {
    &&& x0 <= width
    &&& x1 <= width
    &&& y0 * width * 4 <= len
    &&& y1 * width * 4 <= len
}

/// The pixels of the four bands of a bordered rectangle.
pub open spec fn on_border(x0: int, y0: int, x1: int, y1: int, x: int, y: int) -> bool {
    let b = BORDER_WIDTH as int;
    ||| in_box(x0, y0, x1, y0 + b, x, y)
    ||| in_box(if x1 >= b { x1 - b } else { 0 }, y0, x1, y1, x, y)
    ||| in_box(x0, y1, x1, if y1 >= b { y1 - b } else { 0 }, x, y)
    ||| in_box(x0, y0, x0 + b, y1, x, y)
}

/// The pixels of the four one-pixel lines along the edges of a rectangle.
pub open spec fn on_outline(x0: int, y0: int, x1: int, y1: int, x: int, y: int) -> bool {
    ||| on_line(x0, y0, x1, y0, x, y)
    ||| on_line(x1, y0, x1, y1, x, y)
    ||| on_line(x1, y1, x0, y1, x, y)
    ||| on_line(x0, y1, x0, y0, x, y)
}

/// Fills the half-open box spanned by `(x0, y0)` and `(x1, y1)` with `color`.
pub fn draw_rect_filled(
    canvas: &mut [u8],
    x0: usize,
    y0: usize,
    x1: usize,
    y1: usize,
    width: usize,
    color: Color,
)
    requires
        box_fits(old(canvas)@.len() as int, width as int, x0 as int, y0 as int, x1 as int, y1 as int),
    ensures
        repainted(
            old(canvas)@,
            final(canvas)@,
            width as int,
            color,
            |x: int, y: int| in_box(x0 as int, y0 as int, x1 as int, y1 as int, x, y),
        ),
{
    let (xa, xb) = if x0 > x1 {
        (x1, x0)
    } else {
        (x0, x1)
    };
    let (ya, yb) = if y0 > y1 {
        (y1, y0)
    } else {
        (y0, y1)
    };
    let ghost start = canvas@;
    let ghost len = start.len() as int;
    let ghost w = width as int;
    proof {
        lemma_repainted_nothing(start, w, color, |x: int, y: int| xa <= x < xb && ya <= y < ya);
    }
    let mut hh: usize = ya;
    while hh < yb
        invariant
            ya <= hh <= yb,
            xa <= xb <= width,
            yb * w * 4 <= len,
            canvas@.len() == len,
                w == width as int,
            repainted(start, canvas@, w, color, |x: int, y: int| xa <= x < xb && ya <= y < hh),
        decreases yb - hh,
    {
        let mut ww: usize = xa;
        while ww < xb
            invariant
                ya <= hh < yb,
                xa <= ww <= xb,
                xb <= width,
                yb * w * 4 <= len,
                canvas@.len() == len,
                w == width as int,
                repainted(
                    start,
                    canvas@,
                    w,
                    color,
                    |x: int, y: int| xa <= x < xb && (ya <= y < hh || (y == hh && x < ww)),
                ),
            decreases xb - ww,
        {
            let ghost before = canvas@;
            proof {
                lemma_has_pixel_in_rows(len, w, yb as int, ww as int, hh as int);
            }
            put_pixel(canvas, width, ww, hh, color);
            proof {
                lemma_repainted_then(
                    start,
                    before,
                    canvas@,
                    w,
                    color,
                    |x: int, y: int| xa <= x < xb && (ya <= y < hh || (y == hh && x < ww)),
                    |x: int, y: int| x == ww && y == hh,
                    |x: int, y: int| xa <= x < xb && (ya <= y < hh || (y == hh && x < ww + 1)),
                );
            }
            ww = ww + 1;
        }
        proof {
            lemma_repainted_same(
                start,
                canvas@,
                w,
                color,
                |x: int, y: int| xa <= x < xb && (ya <= y < hh || (y == hh && x < xb)),
                |x: int, y: int| xa <= x < xb && ya <= y < hh + 1,
            );
        }
        hh = hh + 1;
    }
}

/// Draws the outline of the rectangle spanned by `(x0, y0)` and `(x1, y1)` as four
/// filled bands `BORDER_WIDTH` pixels thick, each kept from reaching below zero.
pub fn draw_rect_bordered(
    canvas: &mut [u8],
    x0: usize,
    y0: usize,
    x1: usize,
    y1: usize,
    width: usize,
    color: Color,
)
    requires
        x0 + BORDER_WIDTH <= width,
        y0 + BORDER_WIDTH <= usize::MAX,
        box_fits(
            old(canvas)@.len() as int,
            width as int,
            x0 as int,
            y0 as int,
            x1 as int,
            y0 + BORDER_WIDTH,
        ),
        box_fits(old(canvas)@.len() as int, width as int, x0 as int, y0 as int, x1 as int, y1 as int),
    ensures
        repainted(
            old(canvas)@,
            final(canvas)@,
            width as int,
            color,
            |x: int, y: int| on_border(x0 as int, y0 as int, x1 as int, y1 as int, x, y),
        ),
{
    let ghost c0 = canvas@;
    let ghost w = width as int;
    let ghost (a0, b0, a1, b1) = (x0 as int, y0 as int, x1 as int, y1 as int);
    // top
    draw_rect_filled(canvas, x0, y0, x1, y0 + BORDER_WIDTH, width, color);
    let ghost c1 = canvas@;
    // right
    draw_rect_filled(canvas, x1.saturating_sub(BORDER_WIDTH), y0, x1, y1, width, color);
    let ghost c2 = canvas@;
    // bottom
    proof {
        let yl = if b1 >= 2 { b1 - 2 } else { 0 };
        assert(yl * w * 4 <= b1 * w * 4) by (nonlinear_arith)
            requires
                yl <= b1,
                0 <= yl,
                0 <= w,
        ;
        assert(c2.len() == c0.len());
    }
    draw_rect_filled(canvas, x0, y1, x1, y1.saturating_sub(BORDER_WIDTH), width, color);
    let ghost c3 = canvas@;
    // left
    draw_rect_filled(canvas, x0, y0, x0 + BORDER_WIDTH, y1, width, color);
    proof {
        let b = BORDER_WIDTH as int;
        let top = |x: int, y: int| in_box(a0, b0, a1, b0 + b, x, y);
        let right = |x: int, y: int| in_box(if a1 >= b { a1 - b } else { 0 }, b0, a1, b1, x, y);
        let bottom = |x: int, y: int| in_box(a0, b1, a1, if b1 >= b { b1 - b } else { 0 }, x, y);
        let left = |x: int, y: int| in_box(a0, b0, a0 + b, b1, x, y);
        let tr = |x: int, y: int| top(x, y) || right(x, y);
        let trb = |x: int, y: int| tr(x, y) || bottom(x, y);
        lemma_repainted_then(c0, c1, c2, w, color, top, right, tr);
        lemma_repainted_then(c0, c2, c3, w, color, tr, bottom, trb);
        lemma_repainted_then(
            c0,
            c3,
            canvas@,
            w,
            color,
            trb,
            left,
            |x: int, y: int| on_border(a0, b0, a1, b1, x, y),
        );
    }
}

/// Draws the outline of the rectangle spanned by `(x0, y0)` and `(x1, y1)` as four
/// one-pixel lines along its edges.
pub fn draw_rect_outlined(
    canvas: &mut [u8],
    x0: usize,
    y0: usize,
    x1: usize,
    y1: usize,
    width: usize,
    color: Color,
)
    requires
        has_pixel(old(canvas)@.len() as int, width as int, x0 as int, y0 as int),
        has_pixel(old(canvas)@.len() as int, width as int, x1 as int, y0 as int),
        has_pixel(old(canvas)@.len() as int, width as int, x0 as int, y1 as int),
        has_pixel(old(canvas)@.len() as int, width as int, x1 as int, y1 as int),
    ensures
        repainted(
            old(canvas)@,
            final(canvas)@,
            width as int,
            color,
            |x: int, y: int| on_outline(x0 as int, y0 as int, x1 as int, y1 as int, x, y),
        ),
{
    let ghost c0 = canvas@;
    let ghost w = width as int;
    let ghost (a0, b0, a1, b1) = (x0 as int, y0 as int, x1 as int, y1 as int);
    draw_line(canvas, x0, y0, x1, y0, width, color);
    let ghost c1 = canvas@;
    draw_line(canvas, x1, y0, x1, y1, width, color);
    let ghost c2 = canvas@;
    draw_line(canvas, x1, y1, x0, y1, width, color);
    let ghost c3 = canvas@;
    draw_line(canvas, x0, y1, x0, y0, width, color);
    proof {
        let top = |x: int, y: int| on_line(a0, b0, a1, b0, x, y);
        let right = |x: int, y: int| on_line(a1, b0, a1, b1, x, y);
        let bottom = |x: int, y: int| on_line(a1, b1, a0, b1, x, y);
        let left = |x: int, y: int| on_line(a0, b1, a0, b0, x, y);
        let tr = |x: int, y: int| top(x, y) || right(x, y);
        let trb = |x: int, y: int| tr(x, y) || bottom(x, y);
        lemma_repainted_then(c0, c1, c2, w, color, top, right, tr);
        lemma_repainted_then(c0, c2, c3, w, color, tr, bottom, trb);
        lemma_repainted_then(
            c0,
            c3,
            canvas@,
            w,
            color,
            trb,
            left,
            |x: int, y: int| on_outline(a0, b0, a1, b1, x, y),
        );
    }
}

} // verus!
