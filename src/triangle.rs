//! Filled triangles, by a sweep over scanlines between two edges.
use vstd::prelude::*;
use crate::canvas::{
    has_pixel, lemma_has_pixel_before, lemma_repainted_nothing, lemma_repainted_same,
    lemma_repainted_then, put_pixel, repainted, Color, Pos2,
};

verus! {

/// The three vertices ordered by ascending row; vertices on the same row keep the
/// order in which they were given.
pub open spec fn sort_by_row(a: Pos2, b: Pos2, c: Pos2) -> (Pos2, Pos2, Pos2) {
    if a.1 <= b.1 {
        if b.1 <= c.1 {
            (a, b, c)
        } else if a.1 <= c.1 {
            (a, c, b)
        } else {
            (c, a, b)
        }
    } else {
        if a.1 <= c.1 {
            (b, a, c)
        } else if b.1 <= c.1 {
            (b, c, a)
        } else {
            (c, b, a)
        }
    }
}

/// The column reached after `k` of `s` steps from `p` toward `q`, rounded down.
pub open spec fn edge_x(p: Pos2, q: Pos2, k: int, s: int) -> int {
    (p.0 as int * (s - k) + q.0 as int * k) / s
}

/// Scanline `i` (counted from the top vertex) lies on the lower part of the
/// triangle, below the middle vertex (or at once when the top edge is flat).
pub open spec fn second_half(v0: Pos2, v1: Pos2, i: int) -> bool {
    i > v1.1 - v0.1 || v1.1 == v0.1
}

/// The column on the long edge, from the top to the bottom vertex, at scanline `i`.
pub open spec fn long_edge_x(v0: Pos2, v1: Pos2, v2: Pos2, i: int) -> int {
    edge_x(v0, v2, i, v2.1 - v0.1)
}

/// The column on whichever short edge is active at scanline `i`. The upper edge is
/// divided in one more step than it has rows.
pub open spec fn short_edge_x(v0: Pos2, v1: Pos2, v2: Pos2, i: int) -> int {
    if second_half(v0, v1, i) {
        edge_x(v1, v2, i - (v1.1 - v0.1), v2.1 - v1.1)
    } else {
        edge_x(v0, v1, i, v1.1 - v0.1 + 1)
    }
}

/// Pixel `(x, y)` is filled for the triangle `a, b, c`: its row is one of the
/// scanlines from the top vertex down to, not including, the bottom vertex, and
/// its column lies between the two edges, both included.
pub open spec fn in_triangle(a: Pos2, b: Pos2, c: Pos2, x: int, y: int) -> bool {
    let (v0, v1, v2) = sort_by_row(a, b, c);
    let i = y - v0.1;
    let l = long_edge_x(v0, v1, v2, i);
    let s = short_edge_x(v0, v1, v2, i);
    &&& v0.1 <= y < v2.1
    &&& (if l <= s { l } else { s }) <= x <= (if l <= s { s } else { l })
}

/// The filled pixels of the scanlines above `i`, and of scanline `i` left of `j`.
pub open spec fn triangle_prefix(a: Pos2, b: Pos2, c: Pos2, i: int, j: int, x: int, y: int) -> bool {
    let v0 = sort_by_row(a, b, c).0;
    in_triangle(a, b, c, x, y) && (y < v0.1 + i || (y == v0.1 + i && x < j))
}

proof fn lemma_edge_bounds(p: Pos2, q: Pos2, k: int, s: int)
    requires
        0 <= k < s,
    ensures
        0 <= p.0 as int * (s - k) + q.0 as int * k,
        p.0 as int * (s - k) + q.0 as int * k <= (if p.0 >= q.0 { p.0 as int } else { q.0 as int }) * s,
        0 <= edge_x(p, q, k, s) <= if p.0 >= q.0 { p.0 as int } else { q.0 as int },
{
    let m = if p.0 >= q.0 { p.0 as int } else { q.0 as int };
    let (b0, b1) = (p.0 as int, q.0 as int);
    let n = b0 * (s - k) + b1 * k;
    assert(0 <= n <= m * s) by (nonlinear_arith)
        requires
            n == b0 * (s - k) + b1 * k,
            0 <= b0 <= m,
            0 <= b1 <= m,
            0 <= k < s,
    ;
    assert(0 <= n / s <= m) by (nonlinear_arith)
        requires
            0 <= n <= m * s,
            0 < s,
    ;
}

/// The column on the edge from `p` toward `q` after `k` of `s` steps.
fn edge_column(p: Pos2, q: Pos2, k: usize, s: usize, len: Ghost<int>, width: Ghost<int>) -> (r: usize)
    requires
        k < s,
        p.0 < width@,
        q.0 < width@,
        s * width@ <= len@,
        len@ <= usize::MAX,
    ensures
        r == edge_x(p, q, k as int, s as int),
        r < width@,
{
    proof {
        lemma_edge_bounds(p, q, k as int, s as int);
        let m = if p.0 >= q.0 { p.0 as int } else { q.0 as int };
        assert(m * s <= width@ * s) by (nonlinear_arith)
            requires
                0 <= m <= width@,
                0 <= s,
        ;
        assert(p.0 * (s - k) + q.0 * k <= usize::MAX) by (nonlinear_arith)
            requires
                p.0 * (s - k) + q.0 * k <= m * s,
                m * s <= width@ * s,
                s * width@ <= len@,
                len@ <= usize::MAX,
        ;
        assert(p.0 * (s - k) <= p.0 * (s - k) + q.0 * k) by (nonlinear_arith)
            requires
                0 <= k,
                0 <= q.0,
        ;
    }
    (p.0 * (s - k) + q.0 * k) / s
}

/// Fills the triangle with vertices `a`, `b` and `c` scanline by scanline.
pub fn draw_triangle_filled(canvas: &mut [u8], a: Pos2, b: Pos2, c: Pos2, width: usize, color: Color)
    requires
        has_pixel(old(canvas)@.len() as int, width as int, a.0 as int, a.1 as int),
        has_pixel(old(canvas)@.len() as int, width as int, b.0 as int, b.1 as int),
        has_pixel(old(canvas)@.len() as int, width as int, c.0 as int, c.1 as int),
    ensures
        repainted(
            old(canvas)@,
            final(canvas)@,
            width as int,
            color,
            |x: int, y: int| in_triangle(a, b, c, x, y),
        ),
{
    let (v0, v1, v2) = if a.1 <= b.1 {
        if b.1 <= c.1 {
            (a, b, c)
        } else if a.1 <= c.1 {
            (a, c, b)
        } else {
            (c, a, b)
        }
    } else {
        if a.1 <= c.1 {
            (b, a, c)
        } else if b.1 <= c.1 {
            (b, c, a)
        } else {
            (c, b, a)
        }
    };
    let n: usize = canvas.len();
    let ghost start = canvas@;
    let ghost len = start.len() as int;
    let ghost w = width as int;
    let total_height: usize = v2.1 - v0.1;
    proof {
        assert(has_pixel(len, w, v2.0 as int, v2.1 as int));
        assert(v2.1 * w * 4 <= len) by (nonlinear_arith)
            requires
                (v2.1 * w + v2.0) * 4 + 4 <= len,
                0 <= v2.0,
        ;
        assert(total_height * w * 4 <= v2.1 * w * 4) by (nonlinear_arith)
            requires
                total_height <= v2.1,
                0 <= w,
        ;
        lemma_repainted_nothing(
            start,
            w,
            color,
            |x: int, y: int| triangle_prefix(a, b, c, 0, 0, x, y),
        );
    }
    let mut i: usize = 0;
    while i < total_height
        invariant
            (v0, v1, v2) == sort_by_row(a, b, c),
            total_height == v2.1 - v0.1,
            v0.1 <= v1.1 <= v2.1,
            v0.0 < w && v1.0 < w && v2.0 < w,
            has_pixel(len, w, v2.0 as int, v2.1 as int),
            total_height * w * 4 <= len,
            i <= total_height,
            canvas@.len() == len,
            len == n,
            w == width as int,
            repainted(
                start,
                canvas@,
                w,
                color,
                |x: int, y: int| triangle_prefix(a, b, c, i as int, 0, x, y),
            ),
        decreases total_height - i,
    {
        let upper: usize = v1.1 - v0.1;
        let lower_part = i > upper || v1.1 == v0.1;
        let ax = edge_column(v0, v2, i, total_height, Ghost(len), Ghost(w));
        proof {
            assert((v2.1 - v1.1) * w <= len && (upper + 1) * w <= len && total_height * w <= len
                && upper + 1 <= len)
                by (nonlinear_arith)
                requires
                    1 <= w,
                    v2.1 - v1.1 <= total_height,
                    upper <= total_height,
                    1 <= total_height,
                    total_height * w * 4 <= len,
                    0 <= w,
            ;
        }
        let bx = if lower_part {
            edge_column(v1, v2, i - upper, v2.1 - v1.1, Ghost(len), Ghost(w))
        } else {
            edge_column(v0, v1, i, upper + 1, Ghost(len), Ghost(w))
        };
        let (lo, hi) = if ax > bx {
            (bx, ax)
        } else {
            (ax, bx)
        };
        let row: usize = v0.1 + i;
        proof {
            lemma_repainted_same(
                start,
                canvas@,
                w,
                color,
                |x: int, y: int| triangle_prefix(a, b, c, i as int, 0, x, y),
                |x: int, y: int| triangle_prefix(a, b, c, i as int, lo as int, x, y),
            );
        }
        let mut j: usize = lo;
        while j <= hi
            invariant
                (v0, v1, v2) == sort_by_row(a, b, c),
                total_height == v2.1 - v0.1,
                v0.1 <= v1.1 <= v2.1,
                has_pixel(len, w, v2.0 as int, v2.1 as int),
                i < total_height,
                row == v0.1 + i,
                lo <= j <= hi + 1,
                hi < w,
                lo == (if ax > bx { bx } else { ax }),
                hi == (if ax > bx { ax } else { bx }),
                ax == long_edge_x(v0, v1, v2, i as int),
                bx == short_edge_x(v0, v1, v2, i as int),
                canvas@.len() == len,
                len == n,
                w == width as int,
                repainted(
                    start,
                    canvas@,
                    w,
                    color,
                    |x: int, y: int| triangle_prefix(a, b, c, i as int, j as int, x, y),
                ),
            decreases hi + 1 - j,
        {
            let ghost before = canvas@;
            proof {
                lemma_has_pixel_before(len, w, v2.0 as int, v2.1 as int, j as int, row as int);
            }
            put_pixel(canvas, width, j, row, color);
            proof {
                lemma_repainted_then(
                    start,
                    before,
                    canvas@,
                    w,
                    color,
                    |x: int, y: int| triangle_prefix(a, b, c, i as int, j as int, x, y),
                    |x: int, y: int| x == j && y == row,
                    |x: int, y: int| triangle_prefix(a, b, c, i as int, j + 1, x, y),
                );
            }
            j = j + 1;
        }
        proof {
            lemma_repainted_same(
                start,
                canvas@,
                w,
                color,
                |x: int, y: int| triangle_prefix(a, b, c, i as int, j as int, x, y),
                |x: int, y: int| triangle_prefix(a, b, c, i + 1, 0, x, y),
            );
        }
        i = i + 1;
    }
    proof {
        lemma_repainted_same(
            start,
            canvas@,
            w,
            color,
            |x: int, y: int| triangle_prefix(a, b, c, i as int, 0, x, y),
            |x: int, y: int| in_triangle(a, b, c, x, y),
        );
    }
}

} // verus!
