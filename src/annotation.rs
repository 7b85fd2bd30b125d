//! The annotation state machine: the selection rectangle and its resize handles,
//! the draw mode, the shape being drawn, and the shapes already drawn.
use vstd::prelude::*;
use crate::canvas::{copy_bytes, Color, Pos2};
use crate::keycode_to_text::{edited, handle_keycode_key_press, Cursor, Key};

verus! {

/// The kind of shape that the next pointer press starts.
#[derive(Clone, Copy, Debug, PartialEq, Eq, Structural)]
pub enum DrawMode {
    Arrow,
    ArrowFilled,
    Line,
    RectBorder,
    RectFilled,
    RectBlurred,
    Text,
}

/// A shape: two points (where the pointer went down, and where it is or was let
/// go), or for text the caret, the content and the anchor.
pub enum DrawnItem {
    Arrow(Pos2, Pos2),
    ArrowFilled(Pos2, Pos2),
    Line(Pos2, Pos2),
    RectBorder(Pos2, Pos2),
    RectFilled(Pos2, Pos2),
    RectBlurred(Pos2, Pos2),
    Text(Cursor, Vec<char>, Pos2),
}

impl Clone for DrawnItem {
    fn clone(&self) -> Self {
        match self {
            DrawnItem::Arrow(a, b) => DrawnItem::Arrow(*a, *b),
            DrawnItem::ArrowFilled(a, b) => DrawnItem::ArrowFilled(*a, *b),
            DrawnItem::Line(a, b) => DrawnItem::Line(*a, *b),
            DrawnItem::RectBorder(a, b) => DrawnItem::RectBorder(*a, *b),
            DrawnItem::RectFilled(a, b) => DrawnItem::RectFilled(*a, *b),
            DrawnItem::RectBlurred(a, b) => DrawnItem::RectBlurred(*a, *b),
            DrawnItem::Text(c, t, a) => DrawnItem::Text(*c, t.clone(), *a),
        }
    }
}

/// Which handle of the selection rectangle is dragged; `Idle` when none is.
#[derive(Clone, Copy, Debug, PartialEq, Eq, Structural)]
pub enum BoundaryResize {
    Idle,
    Top,
    TopLeft,
    TopRight,
    Right,
    Bottom,
    BottomLeft,
    BottomRight,
    Left,
}

/// Width of the band along each edge of the selection in which a press resizes it.
pub const EDGE_MARGIN: usize = 10;

/// Side of the square at each corner of the selection in which a press resizes it.
pub const CORNER_MARGIN: usize = 20;

/// The color a border is drawn in, magenta unless chosen otherwise.
#[derive(Clone, Copy, Debug, PartialEq, Eq, Structural)]
pub struct BorderColor {
    pub r: u8,
    pub g: u8,
    pub b: u8,
    pub a: u8,
}

impl Default for BorderColor {
    fn default() -> (c: Self)
        ensures
            c == (BorderColor { r: 255, g: 0, b: 255, a: 255 }),
    {
        BorderColor { r: 255, g: 0, b: 255, a: 255 }
    }
}

impl BorderColor {
    pub open spec fn rgba_spec(&self) -> Color {
        (self.r, self.g, self.b, self.a)
    }

    /// The color as an RGBA tuple.
    pub fn rgba(&self) -> (c: Color)
        ensures
            c == self.rgba_spec(),
    {
        (self.r, self.g, self.b, self.a)
    }
}

pub open spec fn sat_sub(a: int, b: int) -> int {
    if a >= b {
        a - b
    } else {
        0
    }
}

/// The handle under the pointer at `(x, y)` for the selection from `p0` (top left)
/// to `p1` (bottom right). The corner squares are tried first (top left, top
/// right, bottom left, bottom right), then the edge bands (top, right, bottom,
/// left), so a corner wins where it overlaps an edge.
pub open spec fn resize_zone(p0: Pos2, p1: Pos2, x: int, y: int) -> BoundaryResize {
    let (x0, y0, x1, y1) = (p0.0 as int, p0.1 as int, p1.0 as int, p1.1 as int);
    let c = CORNER_MARGIN as int;
    let e = EDGE_MARGIN as int;
    if x0 < x < x0 + c && y0 < y < y0 + c {
        BoundaryResize::TopLeft
    } else if x1 - c < x < x1 && y0 < y < y0 + c {
        BoundaryResize::TopRight
    } else if x0 < x < x0 + c && sat_sub(y1, c) < y < y1 {
        BoundaryResize::BottomLeft
    } else if x1 - c < x < x1 && sat_sub(y1, c) < y < y1 {
        BoundaryResize::BottomRight
    } else if x0 < x < x1 && sat_sub(y0, e) <= y <= y0 + e {
        BoundaryResize::Top
    } else if y0 < y < y1 && sat_sub(x1, e) <= x <= x1 + e {
        BoundaryResize::Right
    } else if x0 < x < x1 && sat_sub(y1, e) <= y <= y1 + e {
        BoundaryResize::Bottom
    } else if y0 < y < y1 && sat_sub(x0, e) <= x <= x0 + e {
        BoundaryResize::Left
    } else {
        BoundaryResize::Idle
    }
}

/// The selection corners after dragging handle `r` to `(x, y)`.
pub open spec fn resized(r: BoundaryResize, p0: Pos2, p1: Pos2, x: usize, y: usize) -> (Pos2, Pos2) {
    match r {
        BoundaryResize::Idle => (p0, p1),
        BoundaryResize::Top => ((p0.0, y), p1),
        BoundaryResize::TopLeft => ((x, y), p1),
        BoundaryResize::TopRight => ((p0.0, y), (x, p1.1)),
        BoundaryResize::Right => (p0, (x, p1.1)),
        BoundaryResize::Bottom => (p0, (p1.0, y)),
        BoundaryResize::BottomLeft => ((x, p0.1), (p1.0, y)),
        BoundaryResize::BottomRight => (p0, (x, y)),
        BoundaryResize::Left => ((x, p0.1), p1),
    }
}

/// The draw mode that creates shapes of the kind of `item`.
pub open spec fn mode_of(item: DrawnItem) -> DrawMode {
    match item {
        DrawnItem::Arrow(..) => DrawMode::Arrow,
        DrawnItem::ArrowFilled(..) => DrawMode::ArrowFilled,
        DrawnItem::Line(..) => DrawMode::Line,
        DrawnItem::RectBorder(..) => DrawMode::RectBorder,
        DrawnItem::RectFilled(..) => DrawMode::RectFilled,
        DrawnItem::RectBlurred(..) => DrawMode::RectBlurred,
        DrawnItem::Text(..) => DrawMode::Text,
    }
}

/// `item` with its second point moved to `p`; text has no second point and stays.
pub open spec fn with_end(item: DrawnItem, p: Pos2) -> DrawnItem {
    match item {
        DrawnItem::Arrow(a, _) => DrawnItem::Arrow(a, p),
        DrawnItem::ArrowFilled(a, _) => DrawnItem::ArrowFilled(a, p),
        DrawnItem::Line(a, _) => DrawnItem::Line(a, p),
        DrawnItem::RectBorder(a, _) => DrawnItem::RectBorder(a, p),
        DrawnItem::RectFilled(a, _) => DrawnItem::RectFilled(a, p),
        DrawnItem::RectBlurred(a, _) => DrawnItem::RectBlurred(a, p),
        DrawnItem::Text(..) => item,
    }
}

/// `item` is the shape a press at `p` starts in draw mode `mode`: a shape of zero
/// length at `p`, or an empty text anchored at `p` with its caret at the start.
pub open spec fn is_started(item: DrawnItem, mode: DrawMode, p: Pos2) -> bool {
    match mode {
        DrawMode::Arrow => item == DrawnItem::Arrow(p, p),
        DrawMode::ArrowFilled => item == DrawnItem::ArrowFilled(p, p),
        DrawMode::Line => item == DrawnItem::Line(p, p),
        DrawMode::RectBorder => item == DrawnItem::RectBorder(p, p),
        DrawMode::RectFilled => item == DrawnItem::RectFilled(p, p),
        DrawMode::RectBlurred => item == DrawnItem::RectBlurred(p, p),
        DrawMode::Text => match item {
            DrawnItem::Text(c, t, a) => {
                &&& c == (Cursor {
                    global_chars_offset_from_beginning: 0,
                    global_lines_offset_from_beginning: 0,
                    px_coordinates: (0, 0),
                })
                &&& t@.len() == 0
                &&& a == p
            },
            _ => false,
        },
    }
}

/// The shape with its fill style switched: an open arrow and a filled one swap, a
/// bordered rectangle becomes filled, a filled or blurred rectangle becomes
/// bordered, and lines and text stay as they are.
pub open spec fn toggled(item: DrawnItem) -> DrawnItem {
    match item {
        DrawnItem::Arrow(a, b) => DrawnItem::ArrowFilled(a, b),
        DrawnItem::ArrowFilled(a, b) => DrawnItem::Arrow(a, b),
        DrawnItem::RectBorder(a, b) => DrawnItem::RectFilled(a, b),
        DrawnItem::RectFilled(a, b) => DrawnItem::RectBorder(a, b),
        DrawnItem::RectBlurred(a, b) => DrawnItem::RectBorder(a, b),
        _ => item,
    }
}

/// The draw mode that key `key` selects outside text editing.
pub open spec fn key_mode(key: Key) -> Option<DrawMode> {
    match key {
        Key::Letter(0) => Some(DrawMode::Arrow),
        Key::Letter(25) => Some(DrawMode::ArrowFilled),
        Key::Letter(11) => Some(DrawMode::Line),
        Key::Letter(17) => Some(DrawMode::RectBorder),
        Key::Letter(15) => Some(DrawMode::RectFilled),
        Key::Letter(1) => Some(DrawMode::RectBlurred),
        Key::Letter(19) => Some(DrawMode::Text),
        _ => None,
    }
}

/// The draw mode a key selects: `a` arrow, `z` filled arrow, `l` line, `r`
/// bordered rectangle, `p` filled rectangle, `b` blurred rectangle, `t` text.
pub fn mode_for_key(key: Key) -> (m: Option<DrawMode>)
    ensures
        m == key_mode(key),
{
    match key {
        Key::Letter(0) => Some(DrawMode::Arrow),
        Key::Letter(25) => Some(DrawMode::ArrowFilled),
        Key::Letter(11) => Some(DrawMode::Line),
        Key::Letter(17) => Some(DrawMode::RectBorder),
        Key::Letter(15) => Some(DrawMode::RectFilled),
        Key::Letter(1) => Some(DrawMode::RectBlurred),
        Key::Letter(19) => Some(DrawMode::Text),
        _ => None,
    }
}

fn item_mode(item: &DrawnItem) -> (m: DrawMode)
    ensures
        m == mode_of(*item),
{
    match item {
        DrawnItem::Arrow(..) => DrawMode::Arrow,
        DrawnItem::ArrowFilled(..) => DrawMode::ArrowFilled,
        DrawnItem::Line(..) => DrawMode::Line,
        DrawnItem::RectBorder(..) => DrawMode::RectBorder,
        DrawnItem::RectFilled(..) => DrawMode::RectFilled,
        DrawnItem::RectBlurred(..) => DrawMode::RectBlurred,
        DrawnItem::Text(..) => DrawMode::Text,
    }
}

fn move_end(item: DrawnItem, p: Pos2) -> (r: DrawnItem)
    ensures
        r == with_end(item, p),
{
    match item {
        DrawnItem::Arrow(a, _) => DrawnItem::Arrow(a, p),
        DrawnItem::ArrowFilled(a, _) => DrawnItem::ArrowFilled(a, p),
        DrawnItem::Line(a, _) => DrawnItem::Line(a, p),
        DrawnItem::RectBorder(a, _) => DrawnItem::RectBorder(a, p),
        DrawnItem::RectFilled(a, _) => DrawnItem::RectFilled(a, p),
        DrawnItem::RectBlurred(a, _) => DrawnItem::RectBlurred(a, p),
        DrawnItem::Text(c, t, a) => DrawnItem::Text(c, t, a),
    }
}

/// Toggling the fill of a bordered rectangle twice gives back the bordered
/// rectangle, toggling an arrow twice gives back the arrow, and toggling a blurred
/// rectangle gives a bordered one.
pub proof fn lemma_toggle_laws(p0: Pos2, p1: Pos2)
    ensures
        toggled(toggled(DrawnItem::RectBorder(p0, p1))) == DrawnItem::RectBorder(p0, p1),
        toggled(toggled(DrawnItem::Arrow(p0, p1))) == DrawnItem::Arrow(p0, p1),
        toggled(toggled(DrawnItem::ArrowFilled(p0, p1))) == DrawnItem::ArrowFilled(p0, p1),
        toggled(DrawnItem::RectBlurred(p0, p1)) == DrawnItem::RectBorder(p0, p1),
{
}

/// A corner wins over the edges it joins: a pointer in the top left corner square
/// resizes from that corner, even where it lies in the top and left edge bands too;
/// and a pointer in the bottom right corner square that is not in a top corner
/// square resizes from the bottom right corner.
pub proof fn lemma_corner_priority(p0: Pos2, p1: Pos2, x: int, y: int)
    ensures
        p0.0 < x < p0.0 + CORNER_MARGIN && p0.1 < y < p0.1 + CORNER_MARGIN ==> resize_zone(
            p0,
            p1,
            x,
            y,
        ) == BoundaryResize::TopLeft,
        p1.0 - CORNER_MARGIN < x < p1.0 && sat_sub(p1.1 as int, CORNER_MARGIN as int) < y < p1.1
            && !(p0.1 < y < p0.1 + CORNER_MARGIN) && !(p0.0 < x < p0.0 + CORNER_MARGIN)
            ==> resize_zone(p0, p1, x, y) == BoundaryResize::BottomRight,
{
}

/// The interaction state over a captured image: the pristine capture and the
/// working copy drawn on, the selection corners `p0` (top left) and `p1` (bottom
/// right), and the state of drawing.
pub struct Screenshot {
    pub original_screenshot: Vec<u8>,
    pub modified_screenshot: Vec<u8>,
    pub p0: Pos2,
    pub p1: Pos2,
    pub width: usize,
    pub height: usize,
    pub boundary_resize_on_press: BoundaryResize,
    pub draw_mode: Option<DrawMode>,
    pub drawing_item: Option<DrawnItem>,
    pub drawn_items: Vec<DrawnItem>,
    pub border_color: BorderColor,
    pub mouse_coordinates: Option<Pos2>,
}

impl Screenshot {
    /// The state at the start: the selection covers the whole `width` by `height`
    /// view, nothing is drawn, no mode is chosen and the pointer is not yet seen.
    pub fn new(screenshot: Vec<u8>, width: usize, height: usize, border_color: BorderColor) -> (s: Self)
        ensures
            s.original_screenshot@ == screenshot@,
            s.modified_screenshot@ == screenshot@,
            s.p0 == (0usize, 0usize),
            s.p1 == (width, height),
            s.width == width,
            s.height == height,
            s.boundary_resize_on_press == BoundaryResize::Idle,
            s.draw_mode == None::<DrawMode>,
            s.drawing_item == None::<DrawnItem>,
            s.drawn_items@ == Seq::<DrawnItem>::empty(),
            s.border_color == border_color,
            s.mouse_coordinates == None::<Pos2>,
    {
        let modified = copy_bytes(&screenshot);
        Screenshot {
            original_screenshot: screenshot,
            modified_screenshot: modified,
            p0: (0, 0),
            p1: (width, height),
            width,
            height,
            boundary_resize_on_press: BoundaryResize::Idle,
            draw_mode: None,
            drawing_item: None,
            drawn_items: Vec::new(),
            border_color,
            mouse_coordinates: None,
        }
    }

    /// Starts over for a view of a new size, keeping the capture and the color.
    pub fn resize_viewport(&mut self, width: usize, height: usize)
        ensures
            final(self).original_screenshot@ == old(self).original_screenshot@,
            final(self).modified_screenshot@ == old(self).original_screenshot@,
            final(self).p0 == (0usize, 0usize),
            final(self).p1 == (width, height),
            final(self).width == width,
            final(self).height == height,
            final(self).boundary_resize_on_press == BoundaryResize::Idle,
            final(self).draw_mode == None::<DrawMode>,
            final(self).drawing_item == None::<DrawnItem>,
            final(self).drawn_items@ == Seq::<DrawnItem>::empty(),
            final(self).border_color == old(self).border_color,
            final(self).mouse_coordinates == None::<Pos2>,
    {
        let mut original: Vec<u8> = Vec::new();
        std::mem::swap(&mut original, &mut self.original_screenshot);
        *self = Screenshot::new(original, width, height, self.border_color);
    }

    /// The handle under the last known pointer position, or none if the pointer
    /// has not been seen.
    pub fn what_resize_opt(&self) -> (r: BoundaryResize)
        ensures
            r == match self.mouse_coordinates {
                Some(p) => resize_zone(self.p0, self.p1, p.0 as int, p.1 as int),
                None => BoundaryResize::Idle,
            },
    {
        match self.mouse_coordinates {
            Some((x, y)) => {
                let (x0, y0) = self.p0;
                let (x1, y1) = self.p1;
                if x > x0 && x - x0 < CORNER_MARGIN && y > y0 && y - y0 < CORNER_MARGIN {
                    BoundaryResize::TopLeft
                } else if x < x1 && x1 - x < CORNER_MARGIN && y > y0 && y - y0 < CORNER_MARGIN {
                    BoundaryResize::TopRight
                } else if x > x0 && x - x0 < CORNER_MARGIN && y > y1.saturating_sub(CORNER_MARGIN)
                    && y < y1 {
                    BoundaryResize::BottomLeft
                } else if x < x1 && x1 - x < CORNER_MARGIN && y > y1.saturating_sub(CORNER_MARGIN)
                    && y < y1 {
                    BoundaryResize::BottomRight
                } else if x > x0 && x < x1 && y >= y0.saturating_sub(EDGE_MARGIN) && (y <= y0
                    || y - y0 <= EDGE_MARGIN) {
                    BoundaryResize::Top
                } else if y > y0 && y < y1 && x >= x1.saturating_sub(EDGE_MARGIN) && (x <= x1
                    || x - x1 <= EDGE_MARGIN) {
                    BoundaryResize::Right
                } else if x > x0 && x < x1 && y >= y1.saturating_sub(EDGE_MARGIN) && (y <= y1
                    || y - y1 <= EDGE_MARGIN) {
                    BoundaryResize::Bottom
                } else if y > y0 && y < y1 && x >= x0.saturating_sub(EDGE_MARGIN) && (x <= x0
                    || x - x0 <= EDGE_MARGIN) {
                    BoundaryResize::Left
                } else {
                    BoundaryResize::Idle
                }
            },
            None => BoundaryResize::Idle,
        }
    }

    /// Records the pointer at `(x, y)`. While a handle is dragged the selection
    /// follows the pointer; otherwise a shape of the current mode being drawn gets
    /// its second point there.
    pub fn on_mouse_move(&mut self, x: usize, y: usize)
        ensures
            final(self).mouse_coordinates == Some((x, y)),
            (final(self).p0, final(self).p1) == resized(
                old(self).boundary_resize_on_press,
                old(self).p0,
                old(self).p1,
                x,
                y,
            ),
            final(self).drawing_item == match old(self).drawing_item {
                Some(item) => if old(self).boundary_resize_on_press == BoundaryResize::Idle
                    && old(self).draw_mode == Some(mode_of(item)) {
                    Some(with_end(item, (x, y)))
                } else {
                    Some(item)
                },
                None => None,
            },
            final(self).boundary_resize_on_press == old(self).boundary_resize_on_press,
            final(self).draw_mode == old(self).draw_mode,
            final(self).drawn_items == old(self).drawn_items,
            final(self).original_screenshot == old(self).original_screenshot,
            final(self).modified_screenshot == old(self).modified_screenshot,
            final(self).width == old(self).width,
            final(self).height == old(self).height,
            final(self).border_color == old(self).border_color,
    {
        self.mouse_coordinates = Some((x, y));
        match self.boundary_resize_on_press {
            BoundaryResize::Idle => {
                let item = self.drawing_item.take();
                match item {
                    Some(item) => {
                        let matches = match self.draw_mode {
                            Some(mode) => mode == item_mode(&item),
                            None => false,
                        };
                        if matches {
                            self.drawing_item = Some(move_end(item, (x, y)));
                        } else {
                            self.drawing_item = Some(item);
                        }
                    },
                    None => {},
                }
            },
            BoundaryResize::Top => {
                self.p0.1 = y;
            },
            BoundaryResize::TopLeft => {
                self.p0.1 = y;
                self.p0.0 = x;
            },
            BoundaryResize::TopRight => {
                self.p0.1 = y;
                self.p1.0 = x;
            },
            BoundaryResize::Right => {
                self.p1.0 = x;
            },
            BoundaryResize::Bottom => {
                self.p1.1 = y;
            },
            BoundaryResize::BottomLeft => {
                self.p1.1 = y;
                self.p0.0 = x;
            },
            BoundaryResize::BottomRight => {
                self.p1.1 = y;
                self.p1.0 = x;
            },
            BoundaryResize::Left => {
                self.p0.0 = x;
            },
        }
    }

    /// A press at the last pointer position: on a handle it starts resizing;
    /// elsewhere, with a draw mode chosen, it starts a new shape there.
    pub fn on_mouse_pressed(&mut self)
        ensures
            match old(self).mouse_coordinates {
                None => final(self).boundary_resize_on_press == old(
                    self,
                ).boundary_resize_on_press && final(self).drawing_item == old(self).drawing_item,
                Some(p) => {
                    let zone = resize_zone(old(self).p0, old(self).p1, p.0 as int, p.1 as int);
                    &&& final(self).boundary_resize_on_press == zone
                    &&& if zone == BoundaryResize::Idle && old(self).draw_mode is Some {
                        final(self).drawing_item matches Some(item) && is_started(
                            item,
                            old(self).draw_mode->Some_0,
                            p,
                        )
                    } else {
                        final(self).drawing_item == old(self).drawing_item
                    }
                },
            },
            final(self).mouse_coordinates == old(self).mouse_coordinates,
            final(self).p0 == old(self).p0,
            final(self).p1 == old(self).p1,
            final(self).draw_mode == old(self).draw_mode,
            final(self).drawn_items == old(self).drawn_items,
            final(self).original_screenshot == old(self).original_screenshot,
            final(self).modified_screenshot == old(self).modified_screenshot,
            final(self).width == old(self).width,
            final(self).height == old(self).height,
            final(self).border_color == old(self).border_color,
    {
        if let Some((x, y)) = self.mouse_coordinates {
            self.boundary_resize_on_press = self.what_resize_opt();
            if self.boundary_resize_on_press == BoundaryResize::Idle {
                match self.draw_mode {
                    Some(DrawMode::Arrow) => {
                        self.drawing_item = Some(DrawnItem::Arrow((x, y), (x, y)));
                    },
                    Some(DrawMode::ArrowFilled) => {
                        self.drawing_item = Some(DrawnItem::ArrowFilled((x, y), (x, y)));
                    },
                    Some(DrawMode::Line) => {
                        self.drawing_item = Some(DrawnItem::Line((x, y), (x, y)));
                    },
                    Some(DrawMode::RectBorder) => {
                        self.drawing_item = Some(DrawnItem::RectBorder((x, y), (x, y)));
                    },
                    Some(DrawMode::RectBlurred) => {
                        self.drawing_item = Some(DrawnItem::RectBlurred((x, y), (x, y)));
                    },
                    Some(DrawMode::Text) => {
                        self.drawing_item = Some(
                            DrawnItem::Text(Cursor::default(), Vec::new(), (x, y)),
                        );
                    },
                    Some(DrawMode::RectFilled) => {
                        self.drawing_item = Some(DrawnItem::RectFilled((x, y), (x, y)));
                    },
                    None => {},
                }
            }
        }
    }

    /// A release ends any resize. A shape of the current mode being drawn (other
    /// than text) gets its second point at the pointer and joins the drawn shapes,
    /// and the draw mode ends; a shape of another kind only ends the draw mode.
    pub fn on_mouse_released(&mut self)
        ensures
            final(self).boundary_resize_on_press == BoundaryResize::Idle,
            match (old(self).drawing_item, old(self).mouse_coordinates) {
                (Some(item), Some(p)) => if old(self).draw_mode == Some(mode_of(item)) {
                    if item is Text {
                        &&& final(self).drawing_item == old(self).drawing_item
                        &&& final(self).draw_mode == old(self).draw_mode
                        &&& final(self).drawn_items@ == old(self).drawn_items@
                    } else {
                        &&& final(self).drawing_item == None::<DrawnItem>
                        &&& final(self).draw_mode == None::<DrawMode>
                        &&& final(self).drawn_items@ == old(self).drawn_items@.push(
                            with_end(item, p),
                        )
                    }
                } else {
                    &&& final(self).drawing_item == old(self).drawing_item
                    &&& final(self).draw_mode == None::<DrawMode>
                    &&& final(self).drawn_items@ == old(self).drawn_items@
                },
                _ => {
                    &&& final(self).drawing_item == old(self).drawing_item
                    &&& final(self).draw_mode == old(self).draw_mode
                    &&& final(self).drawn_items@ == old(self).drawn_items@
                },
            },
            final(self).mouse_coordinates == old(self).mouse_coordinates,
            final(self).p0 == old(self).p0,
            final(self).p1 == old(self).p1,
            final(self).original_screenshot == old(self).original_screenshot,
            final(self).modified_screenshot == old(self).modified_screenshot,
            final(self).width == old(self).width,
            final(self).height == old(self).height,
            final(self).border_color == old(self).border_color,
    {
        self.boundary_resize_on_press = BoundaryResize::Idle;
        if let Some(p) = self.mouse_coordinates {
            let item = self.drawing_item.take();
            match item {
                Some(item) => {
                    let kind = item_mode(&item);
                    let matches = match self.draw_mode {
                        Some(mode) => mode == kind,
                        None => false,
                    };
                    if matches && kind != DrawMode::Text {
                        self.drawn_items.push(move_end(item, p));
                        self.draw_mode = None;
                    } else {
                        self.drawing_item = Some(item);
                        if !matches {
                            self.draw_mode = None;
                        }
                    }
                },
                None => {},
            }
        }
    }

    /// Cancels drawing: the draw mode ends and a shape still being drawn is
    /// discarded; the drawn shapes stay.
    pub fn cancel_drawing(&mut self)
        ensures
            final(self).draw_mode == None::<DrawMode>,
            final(self).drawing_item == None::<DrawnItem>,
            final(self).drawn_items == old(self).drawn_items,
            final(self).boundary_resize_on_press == old(self).boundary_resize_on_press,
            final(self).mouse_coordinates == old(self).mouse_coordinates,
            final(self).p0 == old(self).p0,
            final(self).p1 == old(self).p1,
            final(self).original_screenshot == old(self).original_screenshot,
            final(self).modified_screenshot == old(self).modified_screenshot,
            final(self).width == old(self).width,
            final(self).height == old(self).height,
            final(self).border_color == old(self).border_color,
    {
        self.draw_mode = None;
        self.drawing_item = None;
    }

    /// Switches the fill style of the most recently drawn shape; with no shape
    /// drawn nothing changes.
    pub fn toggle_filling_latest(&mut self)
        ensures
            old(self).drawn_items@.len() == 0 ==> final(self).drawn_items@ == old(
                self,
            ).drawn_items@,
            old(self).drawn_items@.len() > 0 ==> final(self).drawn_items@ == old(
                self,
            ).drawn_items@.drop_last().push(toggled(old(self).drawn_items@.last())),
            final(self).drawing_item == old(self).drawing_item,
            final(self).draw_mode == old(self).draw_mode,
            final(self).boundary_resize_on_press == old(self).boundary_resize_on_press,
            final(self).mouse_coordinates == old(self).mouse_coordinates,
            final(self).p0 == old(self).p0,
            final(self).p1 == old(self).p1,
            final(self).original_screenshot == old(self).original_screenshot,
            final(self).modified_screenshot == old(self).modified_screenshot,
            final(self).width == old(self).width,
            final(self).height == old(self).height,
            final(self).border_color == old(self).border_color,
    {
        if let Some(item) = self.drawn_items.pop() {
            let filled_item = self.toggle_item_filling(item);
            self.drawn_items.push(filled_item);
        }
    }

    /// The shape with its fill style switched.
    pub fn toggle_item_filling(&self, draw_item: DrawnItem) -> (r: DrawnItem)
        ensures
            r == toggled(draw_item),
    {
        match draw_item {
            DrawnItem::Arrow(p0, p1) => DrawnItem::ArrowFilled(p0, p1),
            DrawnItem::ArrowFilled(p0, p1) => DrawnItem::Arrow(p0, p1),
            DrawnItem::RectBorder(p0, p1) => DrawnItem::RectFilled(p0, p1),
            DrawnItem::RectFilled(p0, p1) => DrawnItem::RectBorder(p0, p1),
            DrawnItem::RectBlurred(p0, p1) => DrawnItem::RectBorder(p0, p1),
            other => other,
        }
    }

    /// A key press while a text is edited: escape or return commits the text being
    /// drawn to the drawn shapes and ends the draw mode; any other key edits the
    /// text at its caret.
    pub fn handle_input_text_keypress(&mut self, key: Key, shift: bool)
        requires
            !(key == Key::Escape || key == Key::Return) ==> (old(self).drawing_item matches Some(
                DrawnItem::Text(c, t, _),
            ) ==> c.global_chars_offset_from_beginning <= t@.len() && t@.len() + 4 <= usize::MAX),
        ensures
            (key == Key::Escape || key == Key::Return) ==> {
                &&& final(self).draw_mode == None::<DrawMode>
                &&& match old(self).drawing_item {
                    Some(DrawnItem::Text(c, t, a)) => {
                        &&& final(self).drawing_item == None::<DrawnItem>
                        &&& final(self).drawn_items@ == old(self).drawn_items@.push(
                            DrawnItem::Text(c, t, a),
                        )
                    },
                    _ => {
                        &&& final(self).drawing_item == old(self).drawing_item
                        &&& final(self).drawn_items@ == old(self).drawn_items@
                    },
                }
            },
            !(key == Key::Escape || key == Key::Return) ==> {
                &&& final(self).draw_mode == old(self).draw_mode
                &&& final(self).drawn_items@ == old(self).drawn_items@
                &&& match old(self).drawing_item {
                    Some(DrawnItem::Text(c, t, a)) => match final(self).drawing_item {
                        Some(DrawnItem::Text(c2, t2, a2)) => {
                            &&& a2 == a
                            &&& (t2@, c2.global_chars_offset_from_beginning as int) == edited(
                                t@,
                                c.global_chars_offset_from_beginning as int,
                                key,
                                shift,
                            )
                            &&& c2.global_lines_offset_from_beginning
                                == c.global_lines_offset_from_beginning
                            &&& c2.px_coordinates == c.px_coordinates
                        },
                        _ => false,
                    },
                    _ => final(self).drawing_item == old(self).drawing_item,
                }
            },
            final(self).boundary_resize_on_press == old(self).boundary_resize_on_press,
            final(self).mouse_coordinates == old(self).mouse_coordinates,
            final(self).p0 == old(self).p0,
            final(self).p1 == old(self).p1,
            final(self).original_screenshot == old(self).original_screenshot,
            final(self).modified_screenshot == old(self).modified_screenshot,
            final(self).width == old(self).width,
            final(self).height == old(self).height,
            final(self).border_color == old(self).border_color,
    {
        let item = self.drawing_item.take();
        if key == Key::Escape || key == Key::Return {
            match item {
                Some(DrawnItem::Text(c, t, a)) => {
                    self.drawn_items.push(DrawnItem::Text(c, t, a));
                },
                other => {
                    self.drawing_item = other;
                },
            }
            self.draw_mode = None;
        } else {
            match item {
                Some(DrawnItem::Text(c, t, a)) => {
                    let mut cursor = c;
                    let mut content = t;
                    handle_keycode_key_press(&mut content, key, shift, &mut cursor);
                    self.drawing_item = Some(DrawnItem::Text(cursor, content, a));
                },
                other => {
                    self.drawing_item = other;
                },
            }
        }
    }
}

} // verus!
