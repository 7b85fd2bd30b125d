//! Arrows: a thickened shaft with a two-winged head, either open or filled.
use vstd::prelude::*;
use crate::canvas::{
    has_pixel, lemma_has_pixel_before, lemma_repainted_same, lemma_repainted_then, repainted, Color,
    Pos2,
};
use crate::line::{abs_diff, draw_line, on_line};
use crate::triangle::{draw_triangle_filled, in_triangle};

verus! {

/// One wing point of an arrow head. A coordinate is `None` where the head's
/// geometry gave no number for it.
pub type Wing = (Option<usize>, Option<usize>);

/// `v - 1`, kept from going below zero.
pub open spec fn dec(v: int) -> int {
    if v >= 1 {
        v - 1
    } else {
        0
    }
}

/// A segment drawn three pixels thick: the line itself, and its copies moved by
/// one pixel down, up, right and left (the last two kept from going below zero).
pub open spec fn on_thick_line(x0: int, y0: int, x1: int, y1: int, x: int, y: int) -> bool {
    ||| on_line(x0, y0, x1, y1, x, y)
    ||| on_line(x0, y0 + 1, x1, y1 + 1, x, y)
    ||| on_line(x0, dec(y0), x1, dec(y1), x, y)
    ||| on_line(x0 + 1, y0, x1 + 1, y1, x, y)
    ||| on_line(dec(x0), y0, dec(x1), y1, x, y)
}

/// The pixel right of `(x, y)` and the pixel below it both lie inside the buffer.
pub open spec fn thick_fits(len: int, width: int, x: int, y: int) -> bool {
    has_pixel(len, width, x + 1, y) && has_pixel(len, width, x, y + 1)
}

/// A shaft that moves less than three pixels along both axes gets no arrow drawn.
pub open spec fn is_short_shaft(x0: int, y0: int, x1: int, y1: int) -> bool {
    abs_diff(x1, x0) < 3 && abs_diff(y1, y0) < 3
}

/// Both coordinates of the wing are known.
pub open spec fn wing_known(w: Wing) -> bool {
    w.0 is Some && w.1 is Some
}

/// The wing point with each unknown coordinate taken as zero.
pub open spec fn wing_or_origin(w: Wing) -> Pos2 {
    (
        match w.0 {
            Some(v) => v,
            None => 0,
        },
        match w.1 {
            Some(v) => v,
            None => 0,
        },
    )
}

/// Pixel `(x, y)` is drawn for an open arrow from `(x0, y0)` to `(x1, y1)` with
/// wing points `a` and `b`: the thick shaft, and a thick segment from each wing
/// whose coordinates are both known to the tip.
pub open spec fn on_arrow(x0: int, y0: int, x1: int, y1: int, a: Wing, b: Wing, x: int, y: int) -> bool {
    &&& !is_short_shaft(x0, y0, x1, y1)
    &&& {
        ||| on_thick_line(x0, y0, x1, y1, x, y)
        ||| (wing_known(a) && on_thick_line(
            wing_or_origin(a).0 as int,
            wing_or_origin(a).1 as int,
            x1,
            y1,
            x,
            y,
        ))
        ||| (wing_known(b) && on_thick_line(
            wing_or_origin(b).0 as int,
            wing_or_origin(b).1 as int,
            x1,
            y1,
            x,
            y,
        ))
    }
}

proof fn lemma_thick_fits(len: int, width: int, x: int, y: int)
    requires
        thick_fits(len, width, x, y),
        0 <= x,
        0 <= y,
    ensures
        has_pixel(len, width, x, y),
        has_pixel(len, width, dec(x), y),
        has_pixel(len, width, x, dec(y)),
        y + 1 <= len,
{
    lemma_has_pixel_before(len, width, x + 1, y, x, y);
    lemma_has_pixel_before(len, width, x + 1, y, dec(x), y);
    lemma_has_pixel_before(len, width, x, y + 1, x, dec(y));
    assert(y + 1 <= len) by (nonlinear_arith)
        requires
            ((y + 1) * width + x) * 4 + 4 <= len,
            0 <= x < width,
            0 <= y,
    ;
}

/// Draws the segment from `(x0, y0)` to `(x1, y1)` three pixels thick.
fn draw_thick_line(
    canvas: &mut [u8],
    x0: usize,
    y0: usize,
    x1: usize,
    y1: usize,
    width: usize,
    color: Color,
)
    requires
        thick_fits(old(canvas)@.len() as int, width as int, x0 as int, y0 as int),
        thick_fits(old(canvas)@.len() as int, width as int, x1 as int, y1 as int),
    ensures
        repainted(
            old(canvas)@,
            final(canvas)@,
            width as int,
            color,
            |x: int, y: int| on_thick_line(x0 as int, y0 as int, x1 as int, y1 as int, x, y),
        ),
{
    let _n: usize = canvas.len();
    let ghost c0 = canvas@;
    let ghost len = c0.len() as int;
    let ghost w = width as int;
    let ghost (a0, b0, a1, b1) = (x0 as int, y0 as int, x1 as int, y1 as int);
    proof {
        lemma_thick_fits(len, w, a0, b0);
        lemma_thick_fits(len, w, a1, b1);
    }
    draw_line(canvas, x0, y0, x1, y1, width, color);
    let ghost c1 = canvas@;
    draw_line(canvas, x0, y0 + 1, x1, y1 + 1, width, color);
    let ghost c2 = canvas@;
    draw_line(canvas, x0, y0.saturating_sub(1), x1, y1.saturating_sub(1), width, color);
    let ghost c3 = canvas@;
    draw_line(canvas, x0 + 1, y0, x1 + 1, y1, width, color);
    let ghost c4 = canvas@;
    draw_line(canvas, x0.saturating_sub(1), y0, x1.saturating_sub(1), y1, width, color);
    proof {
        let l0 = |x: int, y: int| on_line(a0, b0, a1, b1, x, y);
        let l1 = |x: int, y: int| on_line(a0, b0 + 1, a1, b1 + 1, x, y);
        let l2 = |x: int, y: int| on_line(a0, dec(b0), a1, dec(b1), x, y);
        let l3 = |x: int, y: int| on_line(a0 + 1, b0, a1 + 1, b1, x, y);
        let l4 = |x: int, y: int| on_line(dec(a0), b0, dec(a1), b1, x, y);
        let u1 = |x: int, y: int| l0(x, y) || l1(x, y);
        let u2 = |x: int, y: int| u1(x, y) || l2(x, y);
        let u3 = |x: int, y: int| u2(x, y) || l3(x, y);
        lemma_repainted_then(c0, c1, c2, w, color, l0, l1, u1);
        lemma_repainted_then(c0, c2, c3, w, color, u1, l2, u2);
        lemma_repainted_then(c0, c3, c4, w, color, u2, l3, u3);
        lemma_repainted_then(
            c0,
            c4,
            canvas@,
            w,
            color,
            u3,
            l4,
            |x: int, y: int| on_thick_line(a0, b0, a1, b1, x, y),
        );
    }
}

/// Draws an open arrow from `(x0, y0)` to `(x1, y1)`: the wings of the head given
/// by `head_a` and `head_b` (a wing with an unknown coordinate is left out), then
/// the shaft, all three pixels thick. A shaft shorter than three pixels along both
/// axes draws nothing.
pub fn draw_arrow_bordered(
    canvas: &mut [u8],
    x0: usize,
    y0: usize,
    x1: usize,
    y1: usize,
    head_a: Wing,
    head_b: Wing,
    width: usize,
    color: Color,
)
    requires
        thick_fits(old(canvas)@.len() as int, width as int, x0 as int, y0 as int),
        thick_fits(old(canvas)@.len() as int, width as int, x1 as int, y1 as int),
        wing_known(head_a) ==> thick_fits(
            old(canvas)@.len() as int,
            width as int,
            wing_or_origin(head_a).0 as int,
            wing_or_origin(head_a).1 as int,
        ),
        wing_known(head_b) ==> thick_fits(
            old(canvas)@.len() as int,
            width as int,
            wing_or_origin(head_b).0 as int,
            wing_or_origin(head_b).1 as int,
        ),
    ensures
        repainted(
            old(canvas)@,
            final(canvas)@,
            width as int,
            color,
            |x: int, y: int|
                on_arrow(x0 as int, y0 as int, x1 as int, y1 as int, head_a, head_b, x, y),
        ),
{
    let ghost c0 = canvas@;
    let ghost w = width as int;
    let ghost (s0, t0, s1, t1) = (x0 as int, y0 as int, x1 as int, y1 as int);
    let dx: usize = if x1 >= x0 {
        x1 - x0
    } else {
        x0 - x1
    };
    let dy: usize = if y1 >= y0 {
        y1 - y0
    } else {
        y0 - y1
    };
    if dx < 3 && dy < 3 {
        return;
    }
    let ghost pa = wing_or_origin(head_a);
    let ghost pb = wing_or_origin(head_b);
    let ghost wa = |x: int, y: int|
        wing_known(head_a) && on_thick_line(pa.0 as int, pa.1 as int, s1, t1, x, y);
    let ghost wb = |x: int, y: int|
        wing_known(head_b) && on_thick_line(pb.0 as int, pb.1 as int, s1, t1, x, y);
    if let (Some(ax), Some(ay)) = head_a {
        draw_thick_line(canvas, ax, ay, x1, y1, width, color);
    }
    let ghost c1 = canvas@;
    if let (Some(bx), Some(by)) = head_b {
        draw_thick_line(canvas, bx, by, x1, y1, width, color);
    }
    let ghost c2 = canvas@;
    draw_thick_line(canvas, x0, y0, x1, y1, width, color);
    proof {
        if !wing_known(head_a) {
            assert(c1 == c0);
        }
        if !wing_known(head_b) {
            assert(c2 == c1);
        }
        assert(repainted(c0, c1, w, color, wa));
        assert(repainted(c1, c2, w, color, wb));
        let ab = |x: int, y: int| wa(x, y) || wb(x, y);
        lemma_repainted_then(c0, c1, c2, w, color, wa, wb, ab);
        lemma_repainted_then(
            c0,
            c2,
            canvas@,
            w,
            color,
            ab,
            |x: int, y: int| on_thick_line(s0, t0, s1, t1, x, y),
            |x: int, y: int| on_arrow(s0, t0, s1, t1, head_a, head_b, x, y),
        );
    }
}

/// Draws a filled arrow: the open arrow, then the triangle between the tip and the
/// two wing points, an unknown wing coordinate taken as zero. A shaft shorter than
/// three pixels along both axes draws nothing.
pub fn draw_arrow_filled(
    canvas: &mut [u8],
    x0: usize,
    y0: usize,
    x1: usize,
    y1: usize,
    head_a: Wing,
    head_b: Wing,
    width: usize,
    color: Color,
)
    requires
        thick_fits(old(canvas)@.len() as int, width as int, x0 as int, y0 as int),
        thick_fits(old(canvas)@.len() as int, width as int, x1 as int, y1 as int),
        thick_fits(
            old(canvas)@.len() as int,
            width as int,
            wing_or_origin(head_a).0 as int,
            wing_or_origin(head_a).1 as int,
        ),
        thick_fits(
            old(canvas)@.len() as int,
            width as int,
            wing_or_origin(head_b).0 as int,
            wing_or_origin(head_b).1 as int,
        ),
    ensures
        repainted(
            old(canvas)@,
            final(canvas)@,
            width as int,
            color,
            |x: int, y: int|
                on_arrow(x0 as int, y0 as int, x1 as int, y1 as int, head_a, head_b, x, y) || (
                !is_short_shaft(x0 as int, y0 as int, x1 as int, y1 as int) && in_triangle(
                    (x1, y1),
                    wing_or_origin(head_a),
                    wing_or_origin(head_b),
                    x,
                    y,
                )),
        ),
{
    let ghost c0 = canvas@;
    let ghost len = c0.len() as int;
    let ghost w = width as int;
    draw_arrow_bordered(canvas, x0, y0, x1, y1, head_a, head_b, width, color);
    let ghost c1 = canvas@;
    let dx: usize = if x1 >= x0 {
        x1 - x0
    } else {
        x0 - x1
    };
    let dy: usize = if y1 >= y0 {
        y1 - y0
    } else {
        y0 - y1
    };
    if dx < 3 && dy < 3 {
        proof {
            lemma_repainted_same(
                c0,
                c1,
                w,
                color,
                |x: int, y: int|
                    on_arrow(x0 as int, y0 as int, x1 as int, y1 as int, head_a, head_b, x, y),
                |x: int, y: int|
                    on_arrow(x0 as int, y0 as int, x1 as int, y1 as int, head_a, head_b, x, y) || (
                    !is_short_shaft(x0 as int, y0 as int, x1 as int, y1 as int) && in_triangle(
                        (x1, y1),
                        wing_or_origin(head_a),
                        wing_or_origin(head_b),
                        x,
                        y,
                    )),
            );
        }
        return;
    }
    let a: Pos2 = (
        match head_a.0 {
            Some(v) => v,
            None => 0,
        },
        match head_a.1 {
            Some(v) => v,
            None => 0,
        },
    );
    let b: Pos2 = (
        match head_b.0 {
            Some(v) => v,
            None => 0,
        },
        match head_b.1 {
            Some(v) => v,
            None => 0,
        },
    );
    proof {
        lemma_thick_fits(len, w, x1 as int, y1 as int);
        lemma_thick_fits(len, w, a.0 as int, a.1 as int);
        lemma_thick_fits(len, w, b.0 as int, b.1 as int);
    }
    draw_triangle_filled(canvas, (x1, y1), a, b, width, color);
    proof {
        lemma_repainted_then(
            c0,
            c1,
            canvas@,
            w,
            color,
            |x: int, y: int|
                on_arrow(x0 as int, y0 as int, x1 as int, y1 as int, head_a, head_b, x, y),
            |x: int, y: int| in_triangle((x1, y1), a, b, x, y),
            |x: int, y: int|
                on_arrow(x0 as int, y0 as int, x1 as int, y1 as int, head_a, head_b, x, y) || (
                !is_short_shaft(x0 as int, y0 as int, x1 as int, y1 as int) && in_triangle(
                    (x1, y1),
                    wing_or_origin(head_a),
                    wing_or_origin(head_b),
                    x,
                    y,
                )),
        );
    }
}

} // verus!
