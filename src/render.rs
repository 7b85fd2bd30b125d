//! Redrawing a frame: the working copy is reset from the capture, the selection
//! border is drawn, everything outside the selection is darkened, and the shapes
//! are replayed in the order they were drawn.
use vstd::prelude::*;
use crate::annotation::{DrawnItem, Screenshot};
use crate::blur::{area_color, in_area, put_blur_area, BlurArea};
use crate::arrow::{
    draw_arrow_bordered, draw_arrow_filled, is_short_shaft, on_arrow, thick_fits, wing_known, wing_or_origin, Wing,
};
use crate::canvas::{
    copy_bytes, pixel_offset, lemma_has_pixel_in_rows, lemma_overwritten_nothing, lemma_overwritten_same,
    lemma_overwritten_step, overwritten, pixel_at, pixel_in, put_pixel, repainted, rows_in, Color,
    Pos2,
};
use crate::line::{draw_line, line_fits, on_line};
use crate::rectangle::{
    box_fits, draw_rect_bordered, draw_rect_filled, in_box, max, min, on_border, BORDER_WIDTH,
};
use crate::keycode_to_text::Cursor;
use crate::text::{
    caret_fits, cursor_caret, draw_cursor, draw_text, glyph_color, glyphs_in_range, last_glyph,
    Glyph, RasterGlyph, CARET_HEIGHT, CARET_WIDTH,
};
use crate::triangle::in_triangle;

verus! {

/// Alpha given to every pixel outside the selection.
pub const DARKENED_ALPHA: u8 = 100;

/// The shape lies inside a buffer of `len` bytes with rows `width` pixels long,
/// with the wing points `head_a` and `head_b` for an arrow.
pub open spec fn shape_fits(len: int, width: int, item: DrawnItem, head_a: Wing, head_b: Wing) -> bool {
    match item {
        DrawnItem::Line(p, q) => line_fits(len, width, p.0 as int, p.1 as int, q.0 as int, q.1 as int),
        DrawnItem::Arrow(p, q) => {
            &&& thick_fits(len, width, p.0 as int, p.1 as int)
            &&& thick_fits(len, width, q.0 as int, q.1 as int)
            &&& wing_known(head_a) ==> thick_fits(
                len,
                width,
                wing_or_origin(head_a).0 as int,
                wing_or_origin(head_a).1 as int,
            )
            &&& wing_known(head_b) ==> thick_fits(
                len,
                width,
                wing_or_origin(head_b).0 as int,
                wing_or_origin(head_b).1 as int,
            )
        },
        DrawnItem::ArrowFilled(p, q) => {
            &&& thick_fits(len, width, p.0 as int, p.1 as int)
            &&& thick_fits(len, width, q.0 as int, q.1 as int)
            &&& thick_fits(
                len,
                width,
                wing_or_origin(head_a).0 as int,
                wing_or_origin(head_a).1 as int,
            )
            &&& thick_fits(
                len,
                width,
                wing_or_origin(head_b).0 as int,
                wing_or_origin(head_b).1 as int,
            )
        },
        DrawnItem::RectBorder(p, q) => {
            &&& p.0 + BORDER_WIDTH <= width
            &&& p.1 + BORDER_WIDTH <= usize::MAX
            &&& box_fits(len, width, p.0 as int, p.1 as int, q.0 as int, p.1 + BORDER_WIDTH)
            &&& box_fits(len, width, p.0 as int, p.1 as int, q.0 as int, q.1 as int)
        },
        DrawnItem::RectFilled(p, q) => box_fits(
            len,
            width,
            p.0 as int,
            p.1 as int,
            q.0 as int,
            q.1 as int,
        ),
        _ => false,
    }
}

/// The pixels a shape covers, with the wing points `head_a` and `head_b` for an
/// arrow. Blurred rectangles and text cover none here: they are not drawn in one
/// color.
pub open spec fn shape_pixels(item: DrawnItem, head_a: Wing, head_b: Wing, x: int, y: int) -> bool {
    match item {
        DrawnItem::Line(p, q) => on_line(p.0 as int, p.1 as int, q.0 as int, q.1 as int, x, y),
        DrawnItem::Arrow(p, q) => on_arrow(
            p.0 as int,
            p.1 as int,
            q.0 as int,
            q.1 as int,
            head_a,
            head_b,
            x,
            y,
        ),
        DrawnItem::ArrowFilled(p, q) => on_arrow(
            p.0 as int,
            p.1 as int,
            q.0 as int,
            q.1 as int,
            head_a,
            head_b,
            x,
            y,
        ) || (!is_short_shaft(p.0 as int, p.1 as int, q.0 as int, q.1 as int) && in_triangle(
            q,
            wing_or_origin(head_a),
            wing_or_origin(head_b),
            x,
            y,
        )),
        DrawnItem::RectBorder(p, q) => on_border(p.0 as int, p.1 as int, q.0 as int, q.1 as int, x, y),
        DrawnItem::RectFilled(p, q) => in_box(p.0 as int, p.1 as int, q.0 as int, q.1 as int, x, y),
        _ => false,
    }
}

/// Pixel `(x, y)` lies strictly outside the selection from `p0` to `p1`.
pub open spec fn outside_selection(p0: Pos2, p1: Pos2, x: int, y: int) -> bool {
    x < p0.0 || x > p1.0 || y < p0.1 || y > p1.1
}

/// The selection border fits: its corners keep room for the bands and the box
/// lies inside the buffer.
pub open spec fn boundaries_fit(len: int, width: int, p0: Pos2, p1: Pos2) -> bool {
    &&& p1.0 >= BORDER_WIDTH
    &&& p1.1 >= BORDER_WIDTH
    &&& p0.0 + BORDER_WIDTH <= width
    &&& p0.1 + BORDER_WIDTH <= usize::MAX
    &&& box_fits(len, width, p0.0 as int, p0.1 as int, p1.0 as int, p0.1 + BORDER_WIDTH)
    &&& box_fits(len, width, p0.0 as int, p0.1 as int, p1.0 as int, p1.1 as int)
}

/// The four bands of the selection border.
pub open spec fn on_boundaries(p0: Pos2, p1: Pos2, x: int, y: int) -> bool {
    let b = BORDER_WIDTH as int;
    let (x0, y0, x1, y1) = (p0.0 as int, p0.1 as int, p1.0 as int, p1.1 as int);
    ||| in_box(x0, y0, x1, y0 + b, x, y)
    ||| in_box(x1 - b, y0, x1, y1, x, y)
    ||| in_box(x0, y1 - b, x1, y1, x, y)
    ||| in_box(x0, y0, x0 + b, y1, x, y)
}

/// The pixel with its alpha replaced by `DARKENED_ALPHA`.
pub open spec fn darkened(canvas: Seq<u8>, width: int, x: int, y: int) -> Color {
    let p = pixel_at(canvas, width, x, y);
    (p.0, p.1, p.2, DARKENED_ALPHA)
}

impl Screenshot {
    /// Resets the working copy to the capture.
    pub fn reset_frame(&mut self)
        ensures
            final(self).modified_screenshot@ == old(self).original_screenshot@,
            final(self).original_screenshot == old(self).original_screenshot,
            final(self).p0 == old(self).p0,
            final(self).p1 == old(self).p1,
            final(self).width == old(self).width,
            final(self).height == old(self).height,
            final(self).border_color == old(self).border_color,
            final(self).drawn_items == old(self).drawn_items,
            final(self).drawing_item == old(self).drawing_item,
            final(self).draw_mode == old(self).draw_mode,
            final(self).boundary_resize_on_press == old(self).boundary_resize_on_press,
            final(self).mouse_coordinates == old(self).mouse_coordinates,
    {
        self.modified_screenshot = copy_bytes(&self.original_screenshot);
    }

    /// Draws the selection border as four bands `BORDER_WIDTH` pixels thick inside
    /// the selection, when it fits in the working copy; otherwise leaves it as is.
    pub fn draw_boundaries(&mut self)
        ensures
            boundaries_fit(
                old(self).modified_screenshot@.len() as int,
                old(self).width as int,
                old(self).p0,
                old(self).p1,
            ) ==> repainted(
                old(self).modified_screenshot@,
                final(self).modified_screenshot@,
                old(self).width as int,
                old(self).border_color.rgba_spec(),
                |x: int, y: int| on_boundaries(old(self).p0, old(self).p1, x, y),
            ),
            !boundaries_fit(
                old(self).modified_screenshot@.len() as int,
                old(self).width as int,
                old(self).p0,
                old(self).p1,
            ) ==> final(self).modified_screenshot@ == old(self).modified_screenshot@,
            final(self).original_screenshot == old(self).original_screenshot,
            final(self).p0 == old(self).p0,
            final(self).p1 == old(self).p1,
            final(self).width == old(self).width,
            final(self).height == old(self).height,
            final(self).border_color == old(self).border_color,
            final(self).drawn_items == old(self).drawn_items,
            final(self).drawing_item == old(self).drawing_item,
            final(self).draw_mode == old(self).draw_mode,
            final(self).boundary_resize_on_press == old(self).boundary_resize_on_press,
            final(self).mouse_coordinates == old(self).mouse_coordinates,
    {
        let (x0, y0) = self.p0;
        let (x1, y1) = self.p1;
        let width = self.width;
        let color = self.border_color.rgba();
        let len = self.modified_screenshot.len();
        if x1 < BORDER_WIDTH || y1 < BORDER_WIDTH || x0 > width || width - x0 < BORDER_WIDTH || y0
            > usize::MAX - BORDER_WIDTH {
            return;
        }
        if x1 > width || !rows_in(len, width, y0) || !rows_in(len, width, y1) || !rows_in(
            len,
            width,
            y0 + BORDER_WIDTH,
        ) {
            return;
        }
        let ghost c0 = self.modified_screenshot@;
        let ghost w = width as int;
        let canvas = self.modified_screenshot.as_mut_slice();
        proof {
            let yl = y1 - BORDER_WIDTH;
            assert(yl * w * 4 <= y1 * w * 4) by (nonlinear_arith)
                requires
                    yl <= y1,
                    0 <= yl,
                    0 <= w,
            ;
        }
        draw_rect_filled(canvas, x0, y0, x1, y0 + BORDER_WIDTH, width, color);
        let ghost c1 = canvas@;
        draw_rect_filled(canvas, x1 - BORDER_WIDTH, y0, x1, y1, width, color);
        let ghost c2 = canvas@;
        draw_rect_filled(canvas, x0, y1 - BORDER_WIDTH, x1, y1, width, color);
        let ghost c3 = canvas@;
        draw_rect_filled(canvas, x0, y0, x0 + BORDER_WIDTH, y1, width, color);
        proof {
            let b = BORDER_WIDTH as int;
            let (a0, b0, a1, b1) = (x0 as int, y0 as int, x1 as int, y1 as int);
            let top = |x: int, y: int| in_box(a0, b0, a1, b0 + b, x, y);
            let right = |x: int, y: int| in_box(a1 - b, b0, a1, b1, x, y);
            let bottom = |x: int, y: int| in_box(a0, b1 - b, a1, b1, x, y);
            let left = |x: int, y: int| in_box(a0, b0, a0 + b, b1, x, y);
            let tr = |x: int, y: int| top(x, y) || right(x, y);
            let trb = |x: int, y: int| tr(x, y) || bottom(x, y);
            crate::canvas::lemma_repainted_then(c0, c1, c2, w, color, top, right, tr);
            crate::canvas::lemma_repainted_then(c0, c2, c3, w, color, tr, bottom, trb);
            crate::canvas::lemma_repainted_then(
                c0,
                c3,
                canvas@,
                w,
                color,
                trb,
                left,
                |x: int, y: int| on_boundaries((x0, y0), (x1, y1), x, y),
            );
        }
    }

    /// Sets the alpha of every pixel of the `width` by `height` view that lies
    /// strictly outside the selection to `DARKENED_ALPHA`.
    pub fn darken_not_selected_area(&mut self)
        ensures
            overwritten(
                old(self).modified_screenshot@,
                final(self).modified_screenshot@,
                old(self).width as int,
                |x: int, y: int|
                    x < old(self).width && y < old(self).height && outside_selection(
                        old(self).p0,
                        old(self).p1,
                        x,
                        y,
                    ),
                |x: int, y: int| darkened(old(self).modified_screenshot@, old(self).width as int, x, y),
            ),
            final(self).original_screenshot == old(self).original_screenshot,
            final(self).p0 == old(self).p0,
            final(self).p1 == old(self).p1,
            final(self).width == old(self).width,
            final(self).height == old(self).height,
            final(self).border_color == old(self).border_color,
            final(self).drawn_items == old(self).drawn_items,
            final(self).drawing_item == old(self).drawing_item,
            final(self).draw_mode == old(self).draw_mode,
            final(self).boundary_resize_on_press == old(self).boundary_resize_on_press,
            final(self).mouse_coordinates == old(self).mouse_coordinates,
    {
        let width = self.width;
        let height = self.height;
        let (p0, p1) = (self.p0, self.p1);
        let len = self.modified_screenshot.len();
        let ghost start = self.modified_screenshot@;
        let ghost w = width as int;
        let ghost paint = |x: int, y: int| darkened(start, w, x, y);
        let canvas = self.modified_screenshot.as_mut_slice();
        proof {
            lemma_overwritten_nothing(
                start,
                w,
                |x: int, y: int| x < width && y < 0 && outside_selection(p0, p1, x, y),
                paint,
            );
        }
        let mut y: usize = 0;
        while y < height
            invariant
                y <= height,
                canvas@.len() == len,
                len == start.len(),
                w == width as int,
                paint == (|x: int, y: int| darkened(start, w, x, y)),
                overwritten(
                    start,
                    canvas@,
                    w,
                    |px: int, py: int| px < width && py < y && outside_selection(p0, p1, px, py),
                    paint,
                ),
            decreases height - y,
        {
            let mut x: usize = 0;
            while x < width
                invariant
                    y < height,
                    x <= width,
                    canvas@.len() == len,
                    len == start.len(),
                    w == width as int,
                    paint == (|x: int, y: int| darkened(start, w, x, y)),
                    overwritten(
                        start,
                        canvas@,
                        w,
                        |px: int, py: int|
                            px < width && (py < y || (py == y && px < x)) && outside_selection(
                                p0,
                                p1,
                                px,
                                py,
                            ),
                        paint,
                    ),
                decreases width - x,
            {
                let ghost before = canvas@;
                let outside = x < p0.0 || x > p1.0 || y < p0.1 || y > p1.1;
                if outside && pixel_in(len, width, x, y) {
                    assert(y * width <= len) by (nonlinear_arith)
                        requires
                            (y * width + x) * 4 + 4 <= len,
                    ;
                    let o: usize = (y * width + x) * 4;
                    proof {
                        let po = pixel_offset(w, x as int, y as int);
                        assert(o == po);
                        assert(before[po + 0] == start[po + 0]);
                        assert(before[po + 1] == start[po + 1]);
                        assert(before[po + 2] == start[po + 2]);
                    }
                    let px: Color = (canvas[o], canvas[o + 1], canvas[o + 2], DARKENED_ALPHA);
                    put_pixel(canvas, width, x, y, px);
                    proof {
                        lemma_overwritten_step(
                            start,
                            before,
                            canvas@,
                            w,
                            |px: int, py: int|
                                px < width && (py < y || (py == y && px < x)) && outside_selection(
                                    p0,
                                    p1,
                                    px,
                                    py,
                                ),
                            paint,
                            x as int,
                            y as int,
                            |px: int, py: int|
                                px < width && (py < y || (py == y && px < x + 1))
                                    && outside_selection(p0, p1, px, py),
                        );
                    }
                } else {
                    proof {
                        lemma_overwritten_same(
                            start,
                            canvas@,
                            w,
                            |px: int, py: int|
                                px < width && (py < y || (py == y && px < x)) && outside_selection(
                                    p0,
                                    p1,
                                    px,
                                    py,
                                ),
                            |px: int, py: int|
                                px < width && (py < y || (py == y && px < x + 1))
                                    && outside_selection(p0, p1, px, py),
                            paint,
                        );
                    }
                }
                x = x + 1;
            }
            proof {
                lemma_overwritten_same(
                    start,
                    canvas@,
                    w,
                    |px: int, py: int|
                        px < width && (py < y || (py == y && px < x)) && outside_selection(
                            p0,
                            p1,
                            px,
                            py,
                        ),
                    |px: int, py: int| px < width && py < y + 1 && outside_selection(p0, p1, px, py),
                    paint,
                );
            }
            y = y + 1;
        }
        proof {
            lemma_overwritten_same(
                start,
                canvas@,
                w,
                |px: int, py: int| px < width && py < y && outside_selection(p0, p1, px, py),
                |px: int, py: int| px < width && py < height && outside_selection(p0, p1, px, py),
                paint,
            );
        }
    }
}

fn thick_fits_exec(len: usize, width: usize, x: usize, y: usize) -> (r: bool)
    ensures
        r == thick_fits(len as int, width as int, x as int, y as int),
{
    if x == usize::MAX || y == usize::MAX {
        proof {
            if y == usize::MAX && width > 0 && x + 1 < width {
                assert((y + 1) * width >= y + 1) by (nonlinear_arith)
                    requires
                        width >= 1,
                        y >= 0,
                ;
            }
        }
        return false;
    }
    pixel_in(len, width, x + 1, y) && pixel_in(len, width, x, y + 1)
}

fn box_fits_exec(len: usize, width: usize, x0: usize, y0: usize, x1: usize, y1: usize) -> (r: bool)
    ensures
        r == box_fits(len as int, width as int, x0 as int, y0 as int, x1 as int, y1 as int),
{
    x0 <= width && x1 <= width && rows_in(len, width, y0) && rows_in(len, width, y1)
}

fn wing_point(w: Wing) -> (p: Pos2)
    ensures
        p == wing_or_origin(w),
{
    (
        match w.0 {
            Some(v) => v,
            None => 0,
        },
        match w.1 {
            Some(v) => v,
            None => 0,
        },
    )
}

fn shape_fits_exec(len: usize, width: usize, item: &DrawnItem, head_a: Wing, head_b: Wing) -> (r:
    bool)
    ensures
        r == shape_fits(len as int, width as int, *item, head_a, head_b),
{
    let a = wing_point(head_a);
    let b = wing_point(head_b);
    let a_known = head_a.0.is_some() && head_a.1.is_some();
    let b_known = head_b.0.is_some() && head_b.1.is_some();
    match item {
        DrawnItem::Line(p, q) => pixel_in(len, width, p.0, p.1) && pixel_in(len, width, q.0, q.1),
        DrawnItem::Arrow(p, q) => thick_fits_exec(len, width, p.0, p.1) && thick_fits_exec(
            len,
            width,
            q.0,
            q.1,
        ) && (!a_known || thick_fits_exec(len, width, a.0, a.1)) && (!b_known || thick_fits_exec(
            len,
            width,
            b.0,
            b.1,
        )),
        DrawnItem::ArrowFilled(p, q) => thick_fits_exec(len, width, p.0, p.1) && thick_fits_exec(
            len,
            width,
            q.0,
            q.1,
        ) && thick_fits_exec(len, width, a.0, a.1) && thick_fits_exec(len, width, b.0, b.1),
        DrawnItem::RectBorder(p, q) => p.0 <= width && width - p.0 >= BORDER_WIDTH && p.1
            <= usize::MAX - BORDER_WIDTH && box_fits_exec(
            len,
            width,
            p.0,
            p.1,
            q.0,
            p.1 + BORDER_WIDTH,
        ) && box_fits_exec(len, width, p.0, p.1, q.0, q.1),
        DrawnItem::RectFilled(p, q) => box_fits_exec(len, width, p.0, p.1, q.0, q.1),
        _ => false,
    }
}

impl Screenshot {
    /// Draws a shape in the border color onto the working copy, with the wing
    /// points `head_a` and `head_b` for an arrow, when it lies inside the buffer;
    /// otherwise, and for text and blurred rectangles, leaves the copy as it is.
    pub fn draw_draw_item(&mut self, draw_item: &DrawnItem, head_a: Wing, head_b: Wing)
        ensures
            shape_fits(
                old(self).modified_screenshot@.len() as int,
                old(self).width as int,
                *draw_item,
                head_a,
                head_b,
            ) ==> repainted(
                old(self).modified_screenshot@,
                final(self).modified_screenshot@,
                old(self).width as int,
                old(self).border_color.rgba_spec(),
                |x: int, y: int| shape_pixels(*draw_item, head_a, head_b, x, y),
            ),
            !shape_fits(
                old(self).modified_screenshot@.len() as int,
                old(self).width as int,
                *draw_item,
                head_a,
                head_b,
            ) ==> final(self).modified_screenshot@ == old(self).modified_screenshot@,
            final(self).original_screenshot == old(self).original_screenshot,
            final(self).p0 == old(self).p0,
            final(self).p1 == old(self).p1,
            final(self).width == old(self).width,
            final(self).height == old(self).height,
            final(self).border_color == old(self).border_color,
            final(self).drawn_items == old(self).drawn_items,
            final(self).drawing_item == old(self).drawing_item,
            final(self).draw_mode == old(self).draw_mode,
            final(self).boundary_resize_on_press == old(self).boundary_resize_on_press,
            final(self).mouse_coordinates == old(self).mouse_coordinates,
    {
        let width = self.width;
        let color = self.border_color.rgba();
        let len = self.modified_screenshot.len();
        if !shape_fits_exec(len, width, draw_item, head_a, head_b) {
            return;
        }
        let canvas = self.modified_screenshot.as_mut_slice();
        match draw_item {
            DrawnItem::Arrow(p, q) => {
                draw_arrow_bordered(canvas, p.0, p.1, q.0, q.1, head_a, head_b, width, color);
            },
            DrawnItem::ArrowFilled(p, q) => {
                draw_arrow_filled(canvas, p.0, p.1, q.0, q.1, head_a, head_b, width, color);
            },
            DrawnItem::Line(p, q) => {
                draw_line(canvas, p.0, p.1, q.0, q.1, width, color);
            },
            DrawnItem::RectBorder(p, q) => {
                draw_rect_bordered(canvas, p.0, p.1, q.0, q.1, width, color);
            },
            DrawnItem::RectFilled(p, q) => {
                draw_rect_filled(canvas, p.0, p.1, q.0, q.1, width, color);
            },
            _ => {},
        }
    }
}

/// An exported picture: its size and its RGBA bytes, row by row.
pub struct Image {
    pub width: usize,
    pub height: usize,
    pub bytes: Vec<u8>,
}

/// The inner margin between the selection corners and the exported region: the
/// border bands and one pixel more are left out.
pub const CROP_MARGIN: usize = 2;

/// The exported region of the selection from `p0` to `p1`: its corners inset by
/// `CROP_MARGIN`, with room for it and lying inside the buffer.
pub open spec fn crop_fits(len: int, width: int, p0: Pos2, p1: Pos2) -> bool {
    let m = CROP_MARGIN as int;
    &&& p0.0 + m <= p1.0 - m
    &&& p0.1 + m <= p1.1 - m
    &&& p1.0 - m <= width
    &&& (p1.1 - m) * width * 4 <= len
}

/// `image` holds the pixels of `canvas` from `(x0, y0)` on, `image.width` by
/// `image.height`.
pub open spec fn image_holds(canvas: Seq<u8>, width: int, x0: int, y0: int, image: Image) -> bool {
    &&& image.bytes@.len() == image.width * image.height * 4
    &&& forall|x: int, y: int, c: int|
        0 <= x < image.width && 0 <= y < image.height && 0 <= c < 4 ==> #[trigger] image.bytes@[
        pixel_offset(image.width as int, x, y) + c] == canvas[pixel_offset(width, x0 + x, y0 + y) + c]
}

proof fn lemma_image_offset(w: int, h: int, x: int, y: int, c: int)
    requires
        0 <= x < w,
        0 <= y < h,
        0 <= c < 4,
    ensures
        0 <= pixel_offset(w, x, y) + c < pixel_offset(w, 0, y) + 4 * w,
        pixel_offset(w, 0, y) + 4 * w <= w * h * 4,
        pixel_offset(w, 0, y + 1) == pixel_offset(w, 0, y) + 4 * w,
{
    assert(y * w + w <= w * h) by (nonlinear_arith)
        requires
            y < h,
            0 <= w,
    ;
    assert(0 <= y * w) by (nonlinear_arith)
        requires
            0 <= y,
            0 <= w,
    ;
    assert((y + 1) * w == y * w + w) by (nonlinear_arith);
    assert(w * h * 4 == (w * h) * 4) by (nonlinear_arith);
}

impl Screenshot {
    /// The whole working copy as a picture.
    pub fn get_full_image(&self) -> (r: Image)
        ensures
            r.width == self.width,
            r.height == self.height,
            r.bytes@ == self.modified_screenshot@,
    {
        Image { width: self.width, height: self.height, bytes: copy_bytes(&self.modified_screenshot) }
    }

    /// The inside of the selection, without its border, as a picture; `None` when
    /// the selection leaves no room for it or does not lie inside the working copy.
    pub fn get_cropped_image(&self) -> (r: Option<Image>)
        ensures
            r is None <==> !crop_fits(
                self.modified_screenshot@.len() as int,
                self.width as int,
                self.p0,
                self.p1,
            ),
            r matches Some(image) ==> {
                &&& image.width == self.p1.0 - self.p0.0 - 2 * CROP_MARGIN
                &&& image.height == self.p1.1 - self.p0.1 - 2 * CROP_MARGIN
                &&& image_holds(
                    self.modified_screenshot@,
                    self.width as int,
                    self.p0.0 + CROP_MARGIN,
                    self.p0.1 + CROP_MARGIN,
                    image,
                )
            },
    {
        let width = self.width;
        let len = self.modified_screenshot.len();
        if self.p1.0 < CROP_MARGIN || self.p1.1 < CROP_MARGIN {
            return None;
        }
        let xmax = self.p1.0 - CROP_MARGIN;
        let ymax = self.p1.1 - CROP_MARGIN;
        if self.p0.0 > xmax || xmax - self.p0.0 < CROP_MARGIN || self.p0.1 > ymax || ymax
            - self.p0.1 < CROP_MARGIN {
            return None;
        }
        if xmax > width || !rows_in(len, width, ymax) {
            return None;
        }
        let xmin = self.p0.0 + CROP_MARGIN;
        let ymin = self.p0.1 + CROP_MARGIN;
        let cw = xmax - xmin;
        let ch = ymax - ymin;
        let ghost canvas = self.modified_screenshot@;
        let ghost w = width as int;
        let mut bytes: Vec<u8> = Vec::new();
        let mut y: usize = 0;
        while y < ch
            invariant
                y <= ch,
                ch == ymax - ymin,
                cw == xmax - xmin,
                xmax <= width,
                ymax * w * 4 <= len,
                len == canvas.len(),
                canvas == self.modified_screenshot@,
                w == width as int,
                bytes@.len() == pixel_offset(cw as int, 0, y as int),
                forall|x: int, yy: int, c: int|
                    0 <= x < cw && 0 <= yy < y && 0 <= c < 4 ==> #[trigger] bytes@[pixel_offset(
                        cw as int,
                        x,
                        yy,
                    ) + c] == canvas[pixel_offset(w, xmin + x, ymin + yy) + c],
            decreases ch - y,
        {
            let mut x: usize = 0;
            while x < cw
                invariant
                    y < ch,
                    x <= cw,
                    ch == ymax - ymin,
                    cw == xmax - xmin,
                    xmax <= width,
                    ymax * w * 4 <= len,
                    len == canvas.len(),
                    canvas == self.modified_screenshot@,
                    w == width as int,
                    bytes@.len() == pixel_offset(cw as int, x as int, y as int),
                    forall|xx: int, yy: int, c: int|
                        0 <= xx < cw && 0 <= yy < y + 1 && (yy < y || xx < x) && 0 <= c < 4
                            ==> #[trigger] bytes@[pixel_offset(cw as int, xx, yy) + c]
                            == canvas[pixel_offset(w, xmin + xx, ymin + yy) + c],
                decreases cw - x,
            {
                let (px, py) = (xmin + x, ymin + y);
                proof {
                    lemma_has_pixel_in_rows(len as int, w, ymax as int, px as int, py as int);
                    assert(py * width <= len) by (nonlinear_arith)
                        requires
                            (py * width + px) * 4 + 4 <= len,
                    ;
                }
                let o: usize = (py * width + px) * 4;
                let ghost before = bytes@;
                bytes.push(self.modified_screenshot[o]);
                bytes.push(self.modified_screenshot[o + 1]);
                bytes.push(self.modified_screenshot[o + 2]);
                bytes.push(self.modified_screenshot[o + 3]);
                proof {
                    assert forall|xx: int, yy: int, c: int|
                        0 <= xx < cw && 0 <= yy < y + 1 && (yy < y || xx < x + 1) && 0 <= c < 4
                            implies #[trigger] bytes@[pixel_offset(cw as int, xx, yy) + c]
                            == canvas[pixel_offset(w, xmin + xx, ymin + yy) + c] by {
                        if xx == x && yy == y {
                            assert(bytes@[pixel_offset(cw as int, xx, yy) + c] == canvas[o + c]);
                        } else {
                            crate::canvas::lemma_offsets_distinct(
                                cw as int,
                                xx,
                                yy,
                                c,
                                x as int,
                                y as int,
                                0,
                            );
                            if yy < y {
                                lemma_image_offset(cw as int, y as int, xx, yy, c);
                                assert(pixel_offset(cw as int, 0, yy) + 4 * cw <= pixel_offset(
                                    cw as int,
                                    0,
                                    y as int,
                                )) by (nonlinear_arith)
                                    requires
                                        yy < y,
                                        0 <= cw,
                                ;
                            }
                            assert(pixel_offset(cw as int, xx, yy) + c < before.len());
                            assert(bytes@[pixel_offset(cw as int, xx, yy) + c] == before[pixel_offset(
                                cw as int,
                                xx,
                                yy,
                            ) + c]);
                        }
                    }
                }
                x = x + 1;
            }
            proof {
                assert(pixel_offset(cw as int, 0, y + 1) == pixel_offset(cw as int, cw as int, y as int))
                    by (nonlinear_arith);
            }
            y = y + 1;
        }
        proof {
            assert(pixel_offset(cw as int, 0, ch as int) == cw * ch * 4) by (nonlinear_arith);
        }
        Some(Image { width: cw, height: ch, bytes })
    }
}

/// `framed` is `canvas` with the selection border drawn in `color` when it fits.
pub open spec fn bordered_frame(canvas: Seq<u8>, framed: Seq<u8>, width: int, color: Color, p0: Pos2, p1: Pos2) -> bool {
    if boundaries_fit(canvas.len() as int, width, p0, p1) {
        repainted(canvas, framed, width, color, |x: int, y: int| on_boundaries(p0, p1, x, y))
    } else {
        framed == canvas
    }
}

impl Screenshot {
    /// Starts a frame: the working copy is reset to the capture, the selection
    /// border is drawn on it, and every pixel outside the selection is darkened.
    pub fn prepare_frame(&mut self)
        ensures
            exists|framed: Seq<u8>|
                {
                    &&& bordered_frame(
                        old(self).original_screenshot@,
                        framed,
                        old(self).width as int,
                        old(self).border_color.rgba_spec(),
                        old(self).p0,
                        old(self).p1,
                    )
                    &&& overwritten(
                        framed,
                        final(self).modified_screenshot@,
                        old(self).width as int,
                        |x: int, y: int|
                            x < old(self).width && y < old(self).height && outside_selection(
                                old(self).p0,
                                old(self).p1,
                                x,
                                y,
                            ),
                        |x: int, y: int| darkened(framed, old(self).width as int, x, y),
                    )
                },
            final(self).original_screenshot == old(self).original_screenshot,
            final(self).p0 == old(self).p0,
            final(self).p1 == old(self).p1,
            final(self).width == old(self).width,
            final(self).height == old(self).height,
            final(self).border_color == old(self).border_color,
            final(self).drawn_items == old(self).drawn_items,
            final(self).drawing_item == old(self).drawing_item,
            final(self).draw_mode == old(self).draw_mode,
            final(self).boundary_resize_on_press == old(self).boundary_resize_on_press,
            final(self).mouse_coordinates == old(self).mouse_coordinates,
    {
        self.reset_frame();
        self.draw_boundaries();
        let ghost framed = self.modified_screenshot@;
        self.darken_not_selected_area();
        proof {
            let w = self.width as int;
            let (p0, p1, width, height) = (self.p0, self.p1, self.width, self.height);
            assert(bordered_frame(
                self.original_screenshot@,
                framed,
                w,
                self.border_color.rgba_spec(),
                p0,
                p1,
            ));
            assert(overwritten(
                framed,
                self.modified_screenshot@,
                w,
                |x: int, y: int| x < width && y < height && outside_selection(p0, p1, x, y),
                |x: int, y: int| darkened(framed, w, x, y),
            ));
        }
    }

    /// Copies the working copy into `pixels` when both have the same length.
    pub fn present(&self, pixels: &mut [u8])
        ensures
            old(pixels)@.len() == self.modified_screenshot@.len() ==> final(pixels)@
                == self.modified_screenshot@,
            old(pixels)@.len() != self.modified_screenshot@.len() ==> final(pixels)@ == old(
                pixels,
            )@,
    {
        let n = self.modified_screenshot.len();
        if pixels.len() != n {
            return;
        }
        let mut i: usize = 0;
        while i < n
            invariant
                n == self.modified_screenshot@.len(),
                pixels@.len() == n,
                i <= n,
                forall|k: int| 0 <= k < i ==> #[trigger] pixels@[k] == self.modified_screenshot@[k],
            decreases n - i,
        {
            pixels[i] = self.modified_screenshot[i];
            i = i + 1;
        }
        assert(pixels@ =~= self.modified_screenshot@);
    }
}

/// Margin in pixels of the dark box laid behind a text.
pub const TEXT_BOX_MARGIN: usize = 5;

/// Color of the box laid behind a text.
pub const TEXT_BOX_COLOR: Color = (0, 0, 0, 255);

/// The corners of the dark box behind a text laid out as `layout`: from the first
/// glyph's corner, moved up and left by the margin (never below zero), to the
/// last glyph's far corner moved down and right by it.
pub open spec fn text_box(layout: Seq<Glyph>) -> (int, int, int, int) {
    let first = layout[0];
    let last = layout.last();
    let m = TEXT_BOX_MARGIN as int;
    (
        if first.x >= m { first.x - m } else { 0 },
        if first.y >= m { first.y - m } else { 0 },
        last.x + last.width + m,
        last.y + last.height + m,
    )
}

/// `after` is `before` with the text's glyphs drawn over it.
pub open spec fn text_drawn(before: Seq<u8>, after: Seq<u8>, width: int, glyphs: Seq<RasterGlyph>) -> bool {
    overwritten(
        before,
        after,
        width,
        |x: int, y: int| last_glyph(before.len() as int, width, glyphs, glyphs.len() as int, x, y) >= 0,
        |x: int, y: int|
            glyph_color(
                glyphs[last_glyph(before.len() as int, width, glyphs, glyphs.len() as int, x, y)],
                x,
                y,
            ),
    )
}

/// `after` is `before` with the dark box behind a text laid out as `layout`
/// drawn, when there is a glyph and the box lies inside the buffer.
pub open spec fn text_box_drawn(before: Seq<u8>, after: Seq<u8>, width: int, layout: Seq<Glyph>) -> bool {
    if layout.len() > 0 && box_fits(
        before.len() as int,
        width,
        text_box(layout).0,
        text_box(layout).1,
        text_box(layout).2,
        text_box(layout).3,
    ) {
        repainted(
            before,
            after,
            width,
            TEXT_BOX_COLOR,
            |x: int, y: int|
                in_box(
                    text_box(layout).0,
                    text_box(layout).1,
                    text_box(layout).2,
                    text_box(layout).3,
                    x,
                    y,
                ),
        )
    } else {
        after == before
    }
}

/// `after` is `before` with the caret of `cursor` drawn in `color`, when it fits.
pub open spec fn caret_drawn(
    before: Seq<u8>,
    after: Seq<u8>,
    width: int,
    color: Color,
    cursor: Cursor,
    content: Seq<char>,
    layout: Seq<Glyph>,
    anchor: Pos2,
) -> bool {
    let p = cursor_caret(cursor, content, layout, anchor);
    if caret_fits(before.len() as int, width, p) {
        repainted(
            before,
            after,
            width,
            color,
            |x: int, y: int| in_box(p.0 as int, p.1 as int, p.0 + CARET_WIDTH, p.1 + CARET_HEIGHT, x, y),
        )
    } else {
        after == before
    }
}

fn box_corner(layout: &Vec<Glyph>) -> (r: Option<(usize, usize, usize, usize)>)
    requires
        layout@.len() > 0,
    ensures
        match r {
            Some(b) => (b.0 as int, b.1 as int, b.2 as int, b.3 as int) == text_box(layout@),
            None => text_box(layout@).2 > usize::MAX || text_box(layout@).3 > usize::MAX,
        },
{
    let first = layout[0];
    let last = layout[layout.len() - 1];
    let x0 = first.x.saturating_sub(TEXT_BOX_MARGIN);
    let y0 = first.y.saturating_sub(TEXT_BOX_MARGIN);
    if last.x > usize::MAX - TEXT_BOX_MARGIN || last.width > usize::MAX - TEXT_BOX_MARGIN - last.x {
        return None;
    }
    if last.y > usize::MAX - TEXT_BOX_MARGIN || last.height > usize::MAX - TEXT_BOX_MARGIN
        - last.y {
        return None;
    }
    Some((x0, y0, last.x + last.width + TEXT_BOX_MARGIN, last.y + last.height + TEXT_BOX_MARGIN))
}

impl Screenshot {
    /// Draws a text anchored at `anchor`, laid out as `layout` with the glyph
    /// bitmaps `glyphs`: the glyphs, a dark box behind them, the glyphs again on
    /// top, and, while the text is being edited, its caret in the border color.
    pub fn draw_text_item(
        &mut self,
        anchor: Pos2,
        content: &Vec<char>,
        cursor: Cursor,
        layout: &Vec<Glyph>,
        glyphs: &Vec<RasterGlyph>,
        editing: bool,
    )
        requires
            glyphs_in_range(layout@, anchor),
        ensures
            exists|a: Seq<u8>, b: Seq<u8>, c: Seq<u8>|
                #![trigger text_box_drawn(a, b, old(self).width as int, layout@), text_drawn(b, c, old(self).width as int, glyphs@)]
                {
                    &&& text_drawn(old(self).modified_screenshot@, a, old(self).width as int, glyphs@)
                    &&& text_box_drawn(a, b, old(self).width as int, layout@)
                    &&& text_drawn(b, c, old(self).width as int, glyphs@)
                    &&& if editing {
                        caret_drawn(
                            c,
                            final(self).modified_screenshot@,
                            old(self).width as int,
                            old(self).border_color.rgba_spec(),
                            cursor,
                            content@,
                            layout@,
                            anchor,
                        )
                    } else {
                        final(self).modified_screenshot@ == c
                    }
                },
            final(self).original_screenshot == old(self).original_screenshot,
            final(self).p0 == old(self).p0,
            final(self).p1 == old(self).p1,
            final(self).width == old(self).width,
            final(self).height == old(self).height,
            final(self).border_color == old(self).border_color,
            final(self).drawn_items == old(self).drawn_items,
            final(self).drawing_item == old(self).drawing_item,
            final(self).draw_mode == old(self).draw_mode,
            final(self).boundary_resize_on_press == old(self).boundary_resize_on_press,
            final(self).mouse_coordinates == old(self).mouse_coordinates,
    {
        let width = self.width;
        let color = self.border_color.rgba();
        let len = self.modified_screenshot.len();
        let canvas = self.modified_screenshot.as_mut_slice();
        draw_text(canvas, width, glyphs);
        let ghost a = canvas@;
        if layout.len() > 0 {
            match box_corner(layout) {
                Some((x0, y0, x1, y1)) => {
                    if x0 <= width && x1 <= width && rows_in(len, width, y0) && rows_in(
                        len,
                        width,
                        y1,
                    ) {
                        draw_rect_filled(canvas, x0, y0, x1, y1, width, TEXT_BOX_COLOR);
                    }
                },
                None => {
                    proof {
                        let t = text_box(layout@);
                        if width >= 1 && t.3 > usize::MAX {
                            assert(t.3 * width * 4 > len) by (nonlinear_arith)
                                requires
                                    t.3 > usize::MAX,
                                    width >= 1,
                                    len <= usize::MAX,
                            ;
                        }
                    }
                },
            }
        }
        let ghost b = canvas@;
        draw_text(canvas, width, glyphs);
        let ghost c = canvas@;
        if editing {
            let mut caret = cursor;
            draw_cursor(canvas, width, &mut caret, layout, content, anchor, color);
        }
        proof {
            let w = width as int;
            assert(text_drawn(old(self).modified_screenshot@, a, w, glyphs@));
            assert(text_box_drawn(a, b, w, layout@));
            assert(text_drawn(b, c, w, glyphs@));
        }
    }
}

/// The blurred region `area` belongs to the blurred rectangle `item`: it spans
/// the same pixels, holds one color for each, and lies inside the buffer.
pub open spec fn area_matches(len: int, width: int, item: DrawnItem, area: BlurArea) -> bool {
    match item {
        DrawnItem::RectBlurred(p, q) => {
            &&& area.x0 == min(p.0 as int, q.0 as int)
            &&& area.y0 == min(p.1 as int, q.1 as int)
            &&& area.width == max(p.0 as int, q.0 as int) - min(p.0 as int, q.0 as int)
            &&& area.height == max(p.1 as int, q.1 as int) - min(p.1 as int, q.1 as int)
            &&& area.pixels@.len() == area.width * area.height
            &&& box_fits(len, width, p.0 as int, p.1 as int, q.0 as int, q.1 as int)
        },
        _ => false,
    }
}

impl Screenshot {
    /// Draws a blurred rectangle: `area` holds the blurred colors of its region,
    /// which are written back into the working copy fully opaque. When `item` is
    /// not a blurred rectangle, or `area` does not belong to it, nothing changes.
    pub fn draw_blurred_item(&mut self, item: &DrawnItem, area: &BlurArea)
        ensures
            area_matches(
                old(self).modified_screenshot@.len() as int,
                old(self).width as int,
                *item,
                *area,
            ) ==> overwritten(
                old(self).modified_screenshot@,
                final(self).modified_screenshot@,
                old(self).width as int,
                |x: int, y: int| in_area(*area, x, y),
                |x: int, y: int| area_color(*area, x, y),
            ),
            !area_matches(
                old(self).modified_screenshot@.len() as int,
                old(self).width as int,
                *item,
                *area,
            ) ==> final(self).modified_screenshot@ == old(self).modified_screenshot@,
            final(self).original_screenshot == old(self).original_screenshot,
            final(self).p0 == old(self).p0,
            final(self).p1 == old(self).p1,
            final(self).width == old(self).width,
            final(self).height == old(self).height,
            final(self).border_color == old(self).border_color,
            final(self).drawn_items == old(self).drawn_items,
            final(self).drawing_item == old(self).drawing_item,
            final(self).draw_mode == old(self).draw_mode,
            final(self).boundary_resize_on_press == old(self).boundary_resize_on_press,
            final(self).mouse_coordinates == old(self).mouse_coordinates,
    {
        let width = self.width;
        let len = self.modified_screenshot.len();
        let (p, q) = match item {
            DrawnItem::RectBlurred(p, q) => (*p, *q),
            _ => {
                return;
            },
        };
        let (xa, xb) = if p.0 > q.0 {
            (q.0, p.0)
        } else {
            (p.0, q.0)
        };
        let (ya, yb) = if p.1 > q.1 {
            (q.1, p.1)
        } else {
            (p.1, q.1)
        };
        if area.x0 != xa || area.y0 != ya || area.width != xb - xa || area.height != yb - ya {
            return;
        }
        if xb > width || !rows_in(len, width, ya) || !rows_in(len, width, yb) {
            return;
        }
        let plen = area.pixels.len();
        match area.width.checked_mul(area.height) {
            Some(n) => {
                if plen != n {
                    return;
                }
            },
            None => {
                return;
            },
        }
        let canvas = self.modified_screenshot.as_mut_slice();
        put_blur_area(canvas, width, area);
    }
}

} // verus!
