//! One-pixel-wide line segments.
use vstd::prelude::*;
use crate::canvas::{
    has_pixel, lemma_has_pixel_before, lemma_repainted_nothing, lemma_repainted_same, lemma_repainted_then, put_pixel,
    repainted, Color,
};

verus! {

pub open spec fn abs_diff(a: int, b: int) -> int {
    if a >= b {
        a - b
    } else {
        b - a
    }
}

/// A segment is steep when it climbs more rows than it crosses columns; it is
/// then walked row by row instead of column by column.
pub open spec fn is_steep(x0: int, y0: int, x1: int, y1: int) -> bool {
    abs_diff(x0, x1) < abs_diff(y0, y1)
}

/// The minor-axis coordinate written at major-axis step `a` of a segment from
/// `(a0, b0)` to `(a1, b1)` (with `a0 <= a < a1`): the linear interpolation
/// `b0 + (b1 - b0) * (a - a0) / (a1 - a0)`, rounded down, one less, and never
/// below zero.
pub open spec fn line_minor(a0: int, b0: int, a1: int, b1: int, a: int) -> int {
    let v = (b0 * (a1 - a) + b1 * (a - a0)) / (a1 - a0);
    if v >= 1 {
        v - 1
    } else {
        0
    }
}

/// Pixel `(x, y)` is written when drawing the segment from `(x0, y0)` to `(x1, y1)`.
/// The major axis is walked from the lower end up to, but not including, the
/// higher end.
pub open spec fn on_line(x0: int, y0: int, x1: int, y1: int, x: int, y: int) -> bool {
    if is_steep(x0, y0, x1, y1) {
        if y0 > y1 {
            y1 <= y < y0 && x == line_minor(y1, x1, y0, x0, y)
        } else {
            y0 <= y < y1 && x == line_minor(y0, x0, y1, x1, y)
        }
    } else {
        if x0 > x1 {
            x1 <= x < x0 && y == line_minor(x1, y1, x0, y0, x)
        } else {
            x0 <= x < x1 && y == line_minor(x0, y0, x1, y1, x)
        }
    }
}

/// The pixels written for the major-axis steps `a0 <= step < a`, with the axes
/// exchanged back for a steep segment.
pub open spec fn line_prefix(steep: bool, a0: int, b0: int, a1: int, b1: int, a: int, x: int, y: int) -> bool {
    if steep {
        a0 <= y < a && x == line_minor(a0, b0, a1, b1, y)
    } else {
        a0 <= x < a && y == line_minor(a0, b0, a1, b1, x)
    }
}

/// Both endpoints of a segment lie inside the buffer.
pub open spec fn line_fits(len: int, width: int, x0: int, y0: int, x1: int, y1: int) -> bool {
    has_pixel(len, width, x0, y0) && has_pixel(len, width, x1, y1)
}

/// A line drawn between two points writes the same pixels whichever of the two
/// it starts from.
pub proof fn lemma_line_symmetric(x0: int, y0: int, x1: int, y1: int)
    requires
        0 <= x0,
        0 <= y0,
        0 <= x1,
        0 <= y1,
    ensures
        forall|x: int, y: int| #[trigger]
            on_line(x0, y0, x1, y1, x, y) == on_line(x1, y1, x0, y0, x, y),
{
}

/// The interpolated minor coordinate stays between zero and the larger of the two
/// minor end coordinates less one (or zero).
proof fn lemma_minor_bounds(a0: int, b0: int, a1: int, b1: int, a: int)
    requires
        a0 <= a < a1,
        0 <= b0,
        0 <= b1,
    ensures
        0 <= b0 * (a1 - a) + b1 * (a - a0),
        b0 * (a1 - a) + b1 * (a - a0) <= (if b0 >= b1 { b0 } else { b1 }) * (a1 - a0),
        0 <= line_minor(a0, b0, a1, b1, a),
        line_minor(a0, b0, a1, b1, a) <= if b0 >= b1 { b0 } else { b1 },
        (if b0 >= b1 { b0 } else { b1 }) >= 1 ==> line_minor(a0, b0, a1, b1, a) < if b0 >= b1 {
            b0
        } else {
            b1
        },
{
    let m = if b0 >= b1 { b0 } else { b1 };
    let n = b0 * (a1 - a) + b1 * (a - a0);
    assert(0 <= b0 * (a1 - a)) by (nonlinear_arith)
        requires
            0 <= b0,
            a <= a1,
    ;
    assert(0 <= b1 * (a - a0)) by (nonlinear_arith)
        requires
            0 <= b1,
            a0 <= a,
    ;
    assert(b0 * (a1 - a) <= m * (a1 - a)) by (nonlinear_arith)
        requires
            b0 <= m,
            a <= a1,
    ;
    assert(b1 * (a - a0) <= m * (a - a0)) by (nonlinear_arith)
        requires
            b1 <= m,
            a0 <= a,
    ;
    assert(m * (a1 - a) + m * (a - a0) == m * (a1 - a0)) by (nonlinear_arith);
    assert(n / (a1 - a0) <= m) by (nonlinear_arith)
        requires
            0 <= n <= m * (a1 - a0),
            a1 - a0 > 0,
    ;
    assert(n / (a1 - a0) >= 0) by (nonlinear_arith)
        requires
            0 <= n,
            a1 - a0 > 0,
    ;
}

/// The product of a minor coordinate bound and a major-axis span is no larger
/// than the bytes of the buffer.
proof fn lemma_span_fits(len: int, width: int, m: int, span: int, rows: int)
    requires
        0 <= m,
        0 <= span,
        0 <= rows,
        0 <= width,
        (m <= rows && span <= width) || (m <= width && span <= rows),
        rows * width * 4 <= len,
    ensures
        m * span <= len,
{
    assert(m * span <= rows * width) by (nonlinear_arith)
        requires
            0 <= m,
            0 <= span,
            (m <= rows && span <= width) || (m <= width && span <= rows),
    ;
    assert(rows * width <= rows * width * 4) by (nonlinear_arith)
        requires
            0 <= rows,
            0 <= width,
    ;
}

/// Draws a one-pixel-wide line from `(x0, y0)` to `(x1, y1)` by overwriting the
/// pixels `on_line` names.
pub fn draw_line(
    canvas: &mut [u8],
    x0: usize,
    y0: usize,
    x1: usize,
    y1: usize,
    width: usize,
    color: Color,
)
    requires
        line_fits(old(canvas)@.len() as int, width as int, x0 as int, y0 as int, x1 as int, y1 as int),
    ensures
        repainted(
            old(canvas)@,
            final(canvas)@,
            width as int,
            color,
            |x: int, y: int| on_line(x0 as int, y0 as int, x1 as int, y1 as int, x, y),
        ),
{
    let dx: usize = if x0 >= x1 {
        x0 - x1
    } else {
        x1 - x0
    };
    let dy: usize = if y0 >= y1 {
        y0 - y1
    } else {
        y1 - y0
    };
    let steep = dx < dy;
    let (a0, b0, a1, b1) = if steep {
        (y0, x0, y1, x1)
    } else {
        (x0, y0, x1, y1)
    };
    let (a0, b0, a1, b1) = if a0 > a1 {
        (a1, b1, a0, b0)
    } else {
        (a0, b0, a1, b1)
    };
    let len_exec: usize = canvas.len();
    let ghost start = canvas@;
    let ghost len = start.len() as int;
    let ghost w = width as int;
    let ghost ymax: int = if y0 >= y1 { y0 as int } else { y1 as int };
    let ghost covers = |x: int, y: int| on_line(x0 as int, y0 as int, x1 as int, y1 as int, x, y);
    proof {
        let ex = if y0 >= y1 { x0 as int } else { x1 as int };
        assert(has_pixel(len, w, ex, ymax));
        assert(ymax * w <= ymax * w * 4) by (nonlinear_arith)
            requires
                0 <= ymax,
                0 <= w,
        ;
        assert((ymax * w + ex) * 4 + 4 <= len);
        assert(ymax * w * 4 <= len) by (nonlinear_arith)
            requires
                (ymax * w + ex) * 4 + 4 <= len,
                0 <= ex,
        ;
        lemma_repainted_nothing(start, w, color, |x: int, y: int| line_prefix(steep, a0 as int, b0 as int, a1 as int, b1 as int, a0 as int, x, y));
    }
    let mut a: usize = a0;
    while a < a1
        invariant
            a0 <= a <= a1,
            canvas@.len() == len,
                w == width as int,
            len == len_exec,
            ymax * w * 4 <= len,
            steep ==> a1 <= ymax && b0 < w && b1 < w,
            !steep ==> a1 < w && b0 <= ymax && b1 <= ymax,
            ymax == (if y0 >= y1 { y0 as int } else { y1 as int }),
            steep == is_steep(x0 as int, y0 as int, x1 as int, y1 as int),
            steep ==> (a0, b0, a1, b1) == (if y0 > y1 { (y1, x1, y0, x0) } else { (y0, x0, y1, x1) }),
            !steep ==> (a0, b0, a1, b1) == (if x0 > x1 { (x1, y1, x0, y0) } else { (x0, y0, x1, y1) }),
            has_pixel(len, w, x0 as int, y0 as int),
            has_pixel(len, w, x1 as int, y1 as int),
            repainted(start, canvas@, w, color, |x: int, y: int| line_prefix(steep, a0 as int, b0 as int, a1 as int, b1 as int, a as int, x, y)),
        decreases a1 - a,
    {
        let ghost before = canvas@;
        let ghost m: int = if b0 >= b1 { b0 as int } else { b1 as int };
        proof {
            lemma_minor_bounds(a0 as int, b0 as int, a1 as int, b1 as int, a as int);
            if steep {
                lemma_span_fits(len, w, m, (a1 - a0) as int, ymax);
            } else {
                lemma_span_fits(len, w, m, (a1 - a0) as int, ymax);
            }
        }
        let n: usize = b0 * (a1 - a) + b1 * (a - a0);
        let v: usize = n / (a1 - a0);
        let b: usize = if v >= 1 {
            v - 1
        } else {
            0
        };
        assert(b == line_minor(a0 as int, b0 as int, a1 as int, b1 as int, a as int));
        if steep {
            proof {
                // row `a` lies above row `ymax`, column `b` inside the row
                let ex = if y0 >= y1 { x0 as int } else { x1 as int };
                lemma_has_pixel_before(len, w, ex, ymax, b as int, a as int);
            }
            put_pixel(canvas, width, b, a, color);
        } else {
            proof {
                let ex = if y0 >= y1 { x0 as int } else { x1 as int };
                if m >= 1 {
                    lemma_has_pixel_before(len, w, ex, ymax, a as int, b as int);
                } else {
                    // a horizontal line on row zero: both ends are on it
                    let ax = if x0 >= x1 { x0 as int } else { x1 as int };
                    lemma_has_pixel_before(len, w, ax, 0, a as int, 0);
                }
            }
            put_pixel(canvas, width, a, b, color);
        }
        proof {
            lemma_repainted_then(
                start,
                before,
                canvas@,
                w,
                color,
                |x: int, y: int| line_prefix(steep, a0 as int, b0 as int, a1 as int, b1 as int, a as int, x, y),
                |x: int, y: int| if steep { x == b && y == a } else { x == a && y == b },
                |x: int, y: int| line_prefix(steep, a0 as int, b0 as int, a1 as int, b1 as int, a + 1, x, y),
            );
        }
        a = a + 1;
    }
    proof {
        lemma_repainted_same(
            start,
            canvas@,
            w,
            color,
            |x: int, y: int| line_prefix(steep, a0 as int, b0 as int, a1 as int, b1 as int, a1 as int, x, y),
            covers,
        );
    }
}

} // verus!
