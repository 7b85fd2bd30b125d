//! Text on the canvas: glyph bitmaps laid out by a shaping engine, and the caret
//! placed after the glyph that precedes it.
use vstd::prelude::*;
use crate::canvas::{
    channel, has_pixel, lemma_has_pixel_in_rows, lemma_overwritten_nothing, lemma_overwritten_same,
    lemma_overwritten_step, lemma_overwritten_then, overwritten, pixel_offset, put_pixel, repainted,
    rows_in, Color, Pos2,
};
use crate::keycode_to_text::Cursor;
use crate::rectangle::{box_fits, draw_rect_filled, in_box};

verus! {

/// Width of the caret in pixels.
pub const CARET_WIDTH: usize = 2;

/// Height of the caret in pixels.
pub const CARET_HEIGHT: usize = 30;

/// Advance taken for a space, whose glyph has no width of its own.
pub const SPACE_ADVANCE: usize = 15;

/// One glyph of a layout: its top left corner, its size, and the character it
/// was shaped from.
#[derive(Clone, Copy, Debug, PartialEq, Eq)]
pub struct Glyph {
    pub x: usize,
    pub y: usize,
    pub width: usize,
    pub height: usize,
    pub parent: char,
}

/// The caret position after `cursor_position` characters of a line laid out as
/// `glyphs` and anchored at `start`. At the start of the line it is the anchor.
/// Otherwise it is right of the glyph before it (a space counting
/// `SPACE_ADVANCE`), never left of the anchor, on that glyph's row moved by the
/// distance from the last glyph's row to the anchor's (and never above row 0).
/// Past the end of the layout it is the anchor too.
pub open spec fn caret_position(glyphs: Seq<Glyph>, cursor_position: int, start: Pos2) -> Pos2 {
    if cursor_position == 0 || cursor_position > glyphs.len() {
        start
    } else {
        let gl = glyphs[cursor_position - 1];
        let last = glyphs.last();
        let right = gl.x + if gl.parent != ' ' {
            gl.width as int
        } else {
            SPACE_ADVANCE as int
        };
        let down = gl.y + start.1 - last.y;
        (
            (if right >= start.0 {
                right
            } else {
                start.0 as int
            }) as usize,
            (if down >= 0 {
                down
            } else {
                0
            }) as usize,
        )
    }
}

/// No glyph reaches past the largest `usize` when moved right by its advance or
/// down by the anchor's row.
pub open spec fn glyphs_in_range(glyphs: Seq<Glyph>, start: Pos2) -> bool {
    forall|i: int|
        0 <= i < glyphs.len() ==> #[trigger] glyphs[i].x + glyphs[i].width + SPACE_ADVANCE
            <= usize::MAX && glyphs[i].y + start.1 <= usize::MAX
}

/// The caret position after `cursor_position` characters of the laid out line.
pub fn update_cusror_position_text(glyphs: &Vec<Glyph>, cursor_position: usize, start: Pos2) -> (r:
    Pos2)
    requires
        glyphs_in_range(glyphs@, start),
    ensures
        r == caret_position(glyphs@, cursor_position as int, start),
{
    if cursor_position == 0 || cursor_position > glyphs.len() {
        return start;
    }
    let gl = glyphs[cursor_position - 1];
    let last = glyphs[glyphs.len() - 1];
    let advance: usize = if gl.parent != ' ' {
        gl.width
    } else {
        SPACE_ADVANCE
    };
    let right: usize = gl.x + advance;
    let x: usize = if right >= start.0 {
        right
    } else {
        start.0
    };
    let lowered: usize = gl.y + start.1;
    let y: usize = if lowered >= last.y {
        lowered - last.y
    } else {
        0
    };
    (x, y)
}

/// The character index just past the `lines`-th line break of `content` from
/// index `i` on, having counted `count` breaks before `i`; 0 when the text holds
/// too few breaks or `lines` is 0.
pub open spec fn line_start_from(content: Seq<char>, lines: int, i: int, count: int) -> int
    decreases content.len() - i,
{
    if i >= content.len() || i < 0 {
        0
    } else {
        let seen = if content[i] == '\n' {
            count + 1
        } else {
            count
        };
        if lines != 0 && lines == seen {
            i + 1
        } else {
            line_start_from(content, lines, i + 1, seen)
        }
    }
}

/// The number of characters before the start of line `lines` of `content`.
pub open spec fn line_start(content: Seq<char>, lines: int) -> int {
    line_start_from(content, lines, 0, 0)
}

/// The caret position of `cursor` in `content` laid out as `glyphs`.
pub open spec fn cursor_caret(cursor: Cursor, content: Seq<char>, glyphs: Seq<Glyph>, start: Pos2) -> Pos2 {
    let skip = line_start(content, cursor.global_lines_offset_from_beginning as int);
    let offset = cursor.global_chars_offset_from_beginning as int;
    caret_position(glyphs, if offset >= skip { offset - skip } else { 0 }, start)
}

/// The caret box lies inside the buffer.
pub open spec fn caret_fits(len: int, width: int, p: Pos2) -> bool {
    &&& p.0 + CARET_WIDTH <= usize::MAX
    &&& p.1 + CARET_HEIGHT <= usize::MAX
    &&& box_fits(len, width, p.0 as int, p.1 as int, p.0 + CARET_WIDTH, p.1 + CARET_HEIGHT)
}

/// Places the caret of `cursor` for `content` laid out as `glyphs`, records the
/// position in the cursor, and draws the caret there as a `CARET_WIDTH` by
/// `CARET_HEIGHT` box when that box lies inside the buffer.
pub fn draw_cursor(
    canvas: &mut [u8],
    canvas_width: usize,
    cursor: &mut Cursor,
    glyphs: &Vec<Glyph>,
    content: &Vec<char>,
    start: Pos2,
    cursor_color: Color,
)
    requires
        glyphs_in_range(glyphs@, start),
    ensures
        final(cursor).px_coordinates == cursor_caret(*old(cursor), content@, glyphs@, start),
        final(cursor).global_chars_offset_from_beginning
            == old(cursor).global_chars_offset_from_beginning,
        final(cursor).global_lines_offset_from_beginning
            == old(cursor).global_lines_offset_from_beginning,
        ({
            let p = final(cursor).px_coordinates;
            if caret_fits(old(canvas)@.len() as int, canvas_width as int, p) {
                repainted(
                    old(canvas)@,
                    final(canvas)@,
                    canvas_width as int,
                    cursor_color,
                    |x: int, y: int|
                        in_box(
                            p.0 as int,
                            p.1 as int,
                            p.0 + CARET_WIDTH,
                            p.1 + CARET_HEIGHT,
                            x,
                            y,
                        ),
                )
            } else {
                final(canvas)@ == old(canvas)@
            }
        }),
{
    let lines = cursor.global_lines_offset_from_beginning;
    let mut count: usize = 0;
    let mut skip_chars: usize = 0;
    let mut found = false;
    let mut i: usize = 0;
    while i < content.len() && !found
        invariant
            i <= content@.len(),
            count <= i,
            !found ==> skip_chars == 0 && line_start(content@, lines as int) == line_start_from(
                content@,
                lines as int,
                i as int,
                count as int,
            ),
            found ==> skip_chars == line_start(content@, lines as int),
        decreases content@.len() - i + if found { 0int } else { 1int },
    {
        let seen: usize = if content[i] == '\n' {
            count + 1
        } else {
            count
        };
        if lines != 0 && lines == seen {
            skip_chars = i + 1;
            found = true;
        } else {
            count = seen;
            i = i + 1;
        }
    }
    let cursor_position = cursor.global_chars_offset_from_beginning.saturating_sub(skip_chars);
    let p = update_cusror_position_text(glyphs, cursor_position, start);
    cursor.px_coordinates = p;
    let n: usize = canvas.len();
    if p.0 <= usize::MAX - CARET_WIDTH && p.1 <= usize::MAX - CARET_HEIGHT {
        let x1 = p.0 + CARET_WIDTH;
        let y1 = p.1 + CARET_HEIGHT;
        if x1 <= canvas_width && y1 <= n / 4 / canvas_width.max(1) {
            proof {
                let w = canvas_width as int;
                let q = n as int / 4 / (if w >= 1 { w } else { 1 });
                assert(q * (if w >= 1 { w } else { 1 }) * 4 <= n) by (nonlinear_arith)
                    requires
                        q == n as int / 4 / (if w >= 1 { w } else { 1 }),
                        0 <= n,
                ;
                assert(y1 * w * 4 <= n) by (nonlinear_arith)
                    requires
                        y1 <= q,
                        q * (if w >= 1 { w } else { 1 }) * 4 <= n,
                        0 <= y1,
                        0 <= w,
                        0 <= q,
                ;
                assert(p.1 * w * 4 <= n) by (nonlinear_arith)
                    requires
                        p.1 <= y1,
                        y1 * w * 4 <= n,
                        0 <= w,
                ;
            }
            draw_rect_filled(canvas, p.0, p.1, x1, y1, canvas_width, cursor_color);
        } else {
            proof {
                let w = canvas_width as int;
                let q = n as int / 4 / (if w >= 1 { w } else { 1 });
                if w >= 1 && y1 * w * 4 <= n {
                    assert(y1 <= q) by (nonlinear_arith)
                        requires
                            y1 * w * 4 <= n,
                            w >= 1,
                            q == n as int / 4 / w,
                            0 <= y1,
                    ;
                }
                if w == 0 {
                    assert(!(x1 <= canvas_width) || y1 > n as int / 4);
                }
            }
        }
    }
}

/// One channel of a coverage value `c` (0 to 255) mixed between `bg` (at 0)
/// and `fg` (at 255), rounded down.
pub open spec fn mix(c: int, bg: int, fg: int) -> int {
    (c * fg + (255 - c) * bg) / 255
}

/// Mixes the text color `fg` over the background `bg` by the subpixel coverage
/// `current`, giving an opaque RGBA pixel.
pub fn convert_rgba(
    current: (u32, u32, u32, u32),
    bg: (usize, usize, usize, usize),
    fg: (usize, usize, usize, usize),
) -> (r: Vec<u8>)
    requires
        current.0 <= 255 && current.1 <= 255 && current.2 <= 255,
        bg.0 <= 255 && bg.1 <= 255 && bg.2 <= 255,
        fg.0 <= 255 && fg.1 <= 255 && fg.2 <= 255,
    ensures
        r@ == seq![
            mix(current.0 as int, bg.0 as int, fg.0 as int) as u8,
            mix(current.1 as int, bg.1 as int, fg.1 as int) as u8,
            mix(current.2 as int, bg.2 as int, fg.2 as int) as u8,
            255u8,
        ],
{
    let r = mix_channel(current.0 as usize, bg.0, fg.0);
    let g = mix_channel(current.1 as usize, bg.1, fg.1);
    let b = mix_channel(current.2 as usize, bg.2, fg.2);
    let mut out: Vec<u8> = Vec::new();
    out.push(r);
    out.push(g);
    out.push(b);
    out.push(255);
    assert(out@ =~= seq![r, g, b, 255u8]);
    out
}

fn mix_channel(c: usize, bg: usize, fg: usize) -> (r: u8)
    requires
        c <= 255,
        bg <= 255,
        fg <= 255,
    ensures
        r == mix(c as int, bg as int, fg as int) as u8,
        r as int == mix(c as int, bg as int, fg as int),
{
    assert(c * fg <= 255 * 255 && (255 - c) * bg <= 255 * 255) by (nonlinear_arith)
        requires
            c <= 255,
            bg <= 255,
            fg <= 255,
    ;
    assert(c * fg + (255 - c) * bg <= 255 * 255) by (nonlinear_arith)
        requires
            c <= 255,
            bg <= 255,
            fg <= 255,
    ;
    let v: usize = (c * fg + (255 - c) * bg) / 255;
    v as u8
}

/// Turns a subpixel coverage bitmap (three bytes per pixel) into opaque RGBA
/// pixels of `color` over `bg_color`.
pub fn subpixel_to_rgba(
    bitmap: &Vec<u8>,
    color: (usize, usize, usize, usize),
    bg_color: (usize, usize, usize, usize),
) -> (r: Vec<u8>)
    requires
        color.0 <= 255 && color.1 <= 255 && color.2 <= 255,
        bg_color.0 <= 255 && bg_color.1 <= 255 && bg_color.2 <= 255,
        bitmap@.len() % 3 == 0,
    ensures
        r@.len() == bitmap@.len() / 3 * 4,
        forall|k: int, c: int|
            0 <= k < bitmap@.len() / 3 && 0 <= c < 3 ==> #[trigger] r@[4 * k + c] == mix(
                bitmap@[3 * k + c] as int,
                if c == 0 { bg_color.0 as int } else if c == 1 { bg_color.1 as int } else { bg_color.2 as int },
                if c == 0 { color.0 as int } else if c == 1 { color.1 as int } else { color.2 as int },
            ) as u8,
        forall|k: int| 0 <= k < bitmap@.len() / 3 ==> #[trigger] r@[4 * k + 3] == 255u8,
{
    let mut out: Vec<u8> = Vec::new();
    let mut i: usize = 0;
    let n = bitmap.len() / 3;
    while i < n
        invariant
            n == bitmap@.len() / 3,
            bitmap@.len() <= usize::MAX,
            i <= n,
            out@.len() == 4 * i,
            color.0 <= 255 && color.1 <= 255 && color.2 <= 255,
            bg_color.0 <= 255 && bg_color.1 <= 255 && bg_color.2 <= 255,
            forall|k: int, c: int|
                0 <= k < i && 0 <= c < 3 ==> #[trigger] out@[4 * k + c] == mix(
                    bitmap@[3 * k + c] as int,
                    if c == 0 { bg_color.0 as int } else if c == 1 { bg_color.1 as int } else { bg_color.2 as int },
                    if c == 0 { color.0 as int } else if c == 1 { color.1 as int } else { color.2 as int },
                ) as u8,
            forall|k: int| 0 <= k < i ==> #[trigger] out@[4 * k + 3] == 255u8,
        decreases n - i,
    {
        assert(3 * i + 3 <= bitmap@.len()) by (nonlinear_arith)
            requires
                i < n,
                n == bitmap@.len() / 3,
        ;
        let px = convert_rgba(
            (bitmap[3 * i] as u32, bitmap[3 * i + 1] as u32, bitmap[3 * i + 2] as u32, 255),
            bg_color,
            color,
        );
        let ghost before = out@;
        out.push(px[0]);
        out.push(px[1]);
        out.push(px[2]);
        out.push(px[3]);
        proof {
            assert forall|k: int, c: int|
                0 <= k < i + 1 && 0 <= c < 3 implies #[trigger] out@[4 * k + c] == mix(
                    bitmap@[3 * k + c] as int,
                    if c == 0 { bg_color.0 as int } else if c == 1 { bg_color.1 as int } else { bg_color.2 as int },
                    if c == 0 { color.0 as int } else if c == 1 { color.1 as int } else { color.2 as int },
                ) as u8 by {
                if k < i {
                    assert(out@[4 * k + c] == before[4 * k + c]);
                } else {
                    assert(out@[4 * k + c] == px@[c]);
                }
            }
            assert forall|k: int| 0 <= k < i + 1 implies #[trigger] out@[4 * k + 3] == 255u8 by {
                if k < i {
                    assert(out@[4 * k + 3] == before[4 * k + 3]);
                } else {
                    assert(out@[4 * k + 3] == px@[3]);
                }
            }
        }
        i = i + 1;
    }
    out
}

/// A glyph ready to be drawn: its top left corner, its size, and its RGBA bitmap
/// row by row.
pub struct RasterGlyph {
    pub x: usize,
    pub y: usize,
    pub width: usize,
    pub height: usize,
    pub bitmap: Vec<u8>,
}

/// Row `row` of the glyph lies inside a canvas of `len` bytes with rows `cw`
/// pixels long, and the bitmap holds it.
pub open spec fn glyph_row_fits(len: int, cw: int, g: RasterGlyph, row: int) -> bool {
    &&& g.x + g.width <= cw
    &&& (g.y + row + 1) * cw * 4 <= len
    &&& (row + 1) * g.width * 4 <= g.bitmap@.len()
}

/// Pixel `(x, y)` is drawn from the glyph: it lies in the glyph's box, on a row
/// that fits.
pub open spec fn on_glyph(len: int, cw: int, g: RasterGlyph, x: int, y: int) -> bool {
    &&& g.x <= x < g.x + g.width
    &&& g.y <= y < g.y + g.height
    &&& glyph_row_fits(len, cw, g, y - g.y)
}

/// The bitmap's color for canvas pixel `(x, y)`.
pub open spec fn glyph_color(g: RasterGlyph, x: int, y: int) -> Color {
    let o = pixel_offset(g.width as int, x - g.x, y - g.y);
    (g.bitmap@[o], g.bitmap@[o + 1], g.bitmap@[o + 2], g.bitmap@[o + 3])
}

/// The index of the last of the first `n` glyphs that draws pixel `(x, y)`, or -1.
pub open spec fn last_glyph(len: int, cw: int, glyphs: Seq<RasterGlyph>, n: int, x: int, y: int) -> int
    decreases n,
{
    if n <= 0 {
        -1
    } else if on_glyph(len, cw, glyphs[n - 1], x, y) {
        n - 1
    } else {
        last_glyph(len, cw, glyphs, n - 1, x, y)
    }
}

fn glyph_row_fits_exec(len: usize, cw: usize, g: &RasterGlyph, row: usize) -> (r: bool)
    ensures
        r == glyph_row_fits(len as int, cw as int, *g, row as int),
{
    if g.x > cw || g.width > cw - g.x {
        return false;
    }
    if g.y == usize::MAX || row > usize::MAX - 1 - g.y {
        if cw != 0 {
            proof {
                assert((g.y + row + 1) * cw * 4 > len) by (nonlinear_arith)
                    requires
                        g.y + row + 1 > usize::MAX,
                        cw >= 1,
                        len <= usize::MAX,
                ;
            }
            return false;
        }
        assert((g.y + row + 1) * cw * 4 == 0) by (nonlinear_arith)
            requires
                cw == 0,
        ;
    } else if !rows_in(len, cw, g.y + row + 1) {
        return false;
    }
    if row == usize::MAX {
        if g.width != 0 {
            proof {
                assert((row + 1) * g.width * 4 > g.bitmap@.len()) by (nonlinear_arith)
                    requires
                        row + 1 > usize::MAX,
                        g.width >= 1,
                        g.bitmap@.len() <= usize::MAX,
                ;
            }
            return false;
        }
        assert((row + 1) * g.width * 4 == 0) by (nonlinear_arith)
            requires
                g.width == 0,
        ;
        return true;
    }
    rows_in(g.bitmap.len(), g.width, row + 1)
}

/// Copies the rows of the glyph's bitmap that fit into the canvas.
pub fn draw_glyph(canvas: &mut [u8], canvas_width: usize, g: &RasterGlyph)
    ensures
        overwritten(
            old(canvas)@,
            final(canvas)@,
            canvas_width as int,
            |x: int, y: int| on_glyph(old(canvas)@.len() as int, canvas_width as int, *g, x, y),
            |x: int, y: int| glyph_color(*g, x, y),
        ),
{
    let len = canvas.len();
    let blen = g.bitmap.len();
    let ghost start = canvas@;
    let ghost cw = canvas_width as int;
    let ghost paint = |x: int, y: int| glyph_color(*g, x, y);
    proof {
        lemma_overwritten_nothing(
            start,
            cw,
            |x: int, y: int| on_glyph(len as int, cw, *g, x, y) && y < g.y,
            paint,
        );
    }
    let mut hh: usize = 0;
    while hh < g.height
        invariant
            hh <= g.height,
            canvas@.len() == len,
            len == start.len(),
            blen == g.bitmap@.len(),
            cw == canvas_width as int,
            paint == (|x: int, y: int| glyph_color(*g, x, y)),
            overwritten(
                start,
                canvas@,
                cw,
                |x: int, y: int| on_glyph(len as int, cw, *g, x, y) && y < g.y + hh,
                paint,
            ),
        decreases g.height - hh,
    {
        if glyph_row_fits_exec(len, canvas_width, g, hh) {
            let mut ww: usize = 0;
            while ww < g.width
                invariant
                    hh < g.height,
                    ww <= g.width,
                    glyph_row_fits(len as int, cw, *g, hh as int),
                    canvas@.len() == len,
                    len == start.len(),
                    blen == g.bitmap@.len(),
                    cw == canvas_width as int,
                    paint == (|x: int, y: int| glyph_color(*g, x, y)),
                    overwritten(
                        start,
                        canvas@,
                        cw,
                        |x: int, y: int|
                            on_glyph(len as int, cw, *g, x, y) && (y < g.y + hh || (y == g.y + hh
                                && x < g.x + ww)),
                        paint,
                    ),
                decreases g.width - ww,
            {
                let px: usize = g.x + ww;
                proof {
                    assert(g.y + hh + 1 <= len) by (nonlinear_arith)
                        requires
                            (g.y + hh + 1) * cw * 4 <= len,
                            cw >= 1,
                    ;
                }
                let py: usize = g.y + hh;
                proof {
                    lemma_has_pixel_in_rows(len as int, cw, py + 1, px as int, py as int);
                    assert(hh * g.width + ww < (hh + 1) * g.width) by (nonlinear_arith)
                        requires
                            ww < g.width,
                    ;
                    assert((hh * g.width + ww) * 4 + 4 <= (hh + 1) * g.width * 4) by (nonlinear_arith)
                        requires
                            hh * g.width + ww < (hh + 1) * g.width,
                    ;
                    assert(hh * g.width <= blen) by (nonlinear_arith)
                        requires
                            (hh * g.width + ww) * 4 + 4 <= blen,
                            0 <= ww,
                    ;
                }
                let o: usize = (hh * g.width + ww) * 4;
                let color: Color = (g.bitmap[o], g.bitmap[o + 1], g.bitmap[o + 2], g.bitmap[o + 3]);
                let ghost before = canvas@;
                put_pixel(canvas, canvas_width, px, py, color);
                proof {
                    assert(color == paint(px as int, py as int));
                    lemma_overwritten_step(
                        start,
                        before,
                        canvas@,
                        cw,
                        |x: int, y: int|
                            on_glyph(len as int, cw, *g, x, y) && (y < g.y + hh || (y == g.y + hh
                                && x < g.x + ww)),
                        paint,
                        px as int,
                        py as int,
                        |x: int, y: int|
                            on_glyph(len as int, cw, *g, x, y) && (y < g.y + hh || (y == g.y + hh
                                && x < g.x + ww + 1)),
                    );
                }
                ww = ww + 1;
            }
            proof {
                lemma_overwritten_same(
                    start,
                    canvas@,
                    cw,
                    |x: int, y: int|
                        on_glyph(len as int, cw, *g, x, y) && (y < g.y + hh || (y == g.y + hh && x
                            < g.x + ww)),
                    |x: int, y: int| on_glyph(len as int, cw, *g, x, y) && y < g.y + hh + 1,
                    paint,
                );
            }
        } else {
            proof {
                lemma_overwritten_same(
                    start,
                    canvas@,
                    cw,
                    |x: int, y: int| on_glyph(len as int, cw, *g, x, y) && y < g.y + hh,
                    |x: int, y: int| on_glyph(len as int, cw, *g, x, y) && y < g.y + hh + 1,
                    paint,
                );
            }
        }
        hh = hh + 1;
    }
    proof {
        lemma_overwritten_same(
            start,
            canvas@,
            cw,
            |x: int, y: int| on_glyph(len as int, cw, *g, x, y) && y < g.y + hh,
            |x: int, y: int| on_glyph(len as int, cw, *g, x, y),
            paint,
        );
    }
}

/// Draws the glyphs in order; where two overlap, the later one shows.
pub fn draw_text(canvas: &mut [u8], canvas_width: usize, glyphs: &Vec<RasterGlyph>)
    ensures
        overwritten(
            old(canvas)@,
            final(canvas)@,
            canvas_width as int,
            |x: int, y: int|
                last_glyph(
                    old(canvas)@.len() as int,
                    canvas_width as int,
                    glyphs@,
                    glyphs@.len() as int,
                    x,
                    y,
                ) >= 0,
            |x: int, y: int|
                glyph_color(
                    glyphs@[last_glyph(
                        old(canvas)@.len() as int,
                        canvas_width as int,
                        glyphs@,
                        glyphs@.len() as int,
                        x,
                        y,
                    )],
                    x,
                    y,
                ),
        ),
{
    let ghost start = canvas@;
    let ghost len = start.len() as int;
    let ghost cw = canvas_width as int;
    proof {
        lemma_overwritten_nothing(
            start,
            cw,
            |x: int, y: int| last_glyph(len, cw, glyphs@, 0, x, y) >= 0,
            |x: int, y: int| glyph_color(glyphs@[last_glyph(len, cw, glyphs@, 0, x, y)], x, y),
        );
    }
    let mut i: usize = 0;
    while i < glyphs.len()
        invariant
            i <= glyphs@.len(),
            canvas@.len() == len,
            len == start.len(),
            cw == canvas_width as int,
            overwritten(
                start,
                canvas@,
                cw,
                |x: int, y: int| last_glyph(len, cw, glyphs@, i as int, x, y) >= 0,
                |x: int, y: int| glyph_color(glyphs@[last_glyph(len, cw, glyphs@, i as int, x, y)], x, y),
            ),
        decreases glyphs@.len() - i,
    {
        let ghost before = canvas@;
        draw_glyph(canvas, canvas_width, &glyphs[i]);
        proof {
            let g = glyphs@[i as int];
            lemma_overwritten_then(
                start,
                before,
                canvas@,
                cw,
                |x: int, y: int| last_glyph(len, cw, glyphs@, i as int, x, y) >= 0,
                |x: int, y: int| glyph_color(glyphs@[last_glyph(len, cw, glyphs@, i as int, x, y)], x, y),
                |x: int, y: int| on_glyph(len, cw, g, x, y),
                |x: int, y: int| glyph_color(g, x, y),
            );
            let next = |x: int, y: int| last_glyph(len, cw, glyphs@, i + 1, x, y) >= 0;
            let next_paint = |x: int, y: int|
                glyph_color(glyphs@[last_glyph(len, cw, glyphs@, i + 1, x, y)], x, y);
            assert forall|x: int, y: int, k: int|
                has_pixel(len, cw, x, y) && 0 <= k < 4 implies #[trigger] canvas@[pixel_offset(
                cw,
                x,
                y,
            ) + k] == if next(x, y) {
                channel(next_paint(x, y), k)
            } else {
                start[pixel_offset(cw, x, y) + k]
            } by {
                assert(canvas@[pixel_offset(cw, x, y) + k] == if last_glyph(len, cw, glyphs@, i as int, x, y)
                    >= 0 || on_glyph(len, cw, g, x, y) {
                    channel(
                        if on_glyph(len, cw, g, x, y) {
                            glyph_color(g, x, y)
                        } else {
                            glyph_color(glyphs@[last_glyph(len, cw, glyphs@, i as int, x, y)], x, y)
                        },
                        k,
                    )
                } else {
                    start[pixel_offset(cw, x, y) + k]
                });
            }
        }
        i = i + 1;
    }
}

/// Glyph index the font gives a line break; it is drawn as nothing.
pub const LINE_BREAK_GLYPH: u16 = 0;

/// Glyph index the font gives a space; it is drawn as nothing.
pub const SPACE_GLYPH: u16 = 958;

/// Glyphs that start this far right or further are not drawn.
pub const MAX_GLYPH_X: usize = 1920;

/// A glyph of index `glyph_index` starting at column `x` is drawn: it is neither
/// a line break nor a space, and starts left of `MAX_GLYPH_X`.
pub open spec fn glyph_shown_spec(glyph_index: u16, x: int) -> bool {
    glyph_index != LINE_BREAK_GLYPH && glyph_index != SPACE_GLYPH && x < MAX_GLYPH_X
}

/// Whether a glyph of index `glyph_index` starting at column `x` is drawn.
pub fn glyph_shown(glyph_index: u16, x: usize) -> (r: bool)
    ensures
        r == glyph_shown_spec(glyph_index, x as int),
{
    glyph_index != LINE_BREAK_GLYPH && glyph_index != SPACE_GLYPH && x < MAX_GLYPH_X
}

} // verus!
