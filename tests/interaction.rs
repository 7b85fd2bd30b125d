use birdy::annotation::{mode_for_key, BorderColor, BoundaryResize, DrawMode, DrawnItem, Screenshot};
use birdy::keycode_to_text::{handle_keycode_key_press, virtual_to_char, Cursor, Key};
use birdy::text::{draw_cursor, update_cusror_position_text, Glyph};

const MAGENTA: (u8, u8, u8, u8) = (255, 0, 255, 255);

fn screen(width: usize, height: usize) -> Screenshot {
    let mut bytes = vec![0u8; width * height * 4];
    for i in 0..width * height {
        bytes[i * 4 + 3] = 255;
    }
    Screenshot::new(bytes, width, height, BorderColor::default())
}

fn pixel(canvas: &[u8], width: usize, x: usize, y: usize) -> (u8, u8, u8, u8) {
    let o = (y * width + x) * 4;
    (canvas[o], canvas[o + 1], canvas[o + 2], canvas[o + 3])
}

fn redraw(s: &mut Screenshot) {
    s.prepare_frame();
    let items: Vec<DrawnItem> = s.drawn_items.clone();
    for item in &items {
        s.draw_draw_item(item, (None, None), (None, None));
    }
    if let Some(item) = s.drawing_item.clone() {
        s.draw_draw_item(&item, (None, None), (None, None));
    }
}

fn as_line(item: &DrawnItem) -> Option<((usize, usize), (usize, usize))> {
    match item {
        DrawnItem::Line(a, b) => Some((*a, *b)),
        _ => None,
    }
}

#[test]
fn corner_wins_over_edges() {
    let mut s = screen(300, 300);
    s.p0 = (10, 10);
    s.p1 = (200, 200);
    s.on_mouse_move(15, 15);
    assert_eq!(s.what_resize_opt(), BoundaryResize::TopLeft);
    s.on_mouse_move(100, 12);
    assert_eq!(s.what_resize_opt(), BoundaryResize::Top);
    s.on_mouse_move(195, 195);
    assert_eq!(s.what_resize_opt(), BoundaryResize::BottomRight);
    s.on_mouse_move(100, 100);
    assert_eq!(s.what_resize_opt(), BoundaryResize::Idle);
}

#[test]
fn pointer_not_seen_resizes_nothing() {
    let s = screen(50, 50);
    assert_eq!(s.what_resize_opt(), BoundaryResize::Idle);
}

#[test]
fn dragging_a_handle_moves_the_selection() {
    let mut s = screen(300, 300);
    s.p0 = (10, 10);
    s.p1 = (200, 200);
    s.on_mouse_move(15, 15);
    s.on_mouse_pressed();
    assert_eq!(s.boundary_resize_on_press, BoundaryResize::TopLeft);
    s.on_mouse_move(30, 40);
    assert_eq!((s.p0, s.p1), ((30, 40), (200, 200)));
    s.on_mouse_released();
    assert_eq!(s.boundary_resize_on_press, BoundaryResize::Idle);
    s.on_mouse_move(60, 60);
    assert_eq!(s.p0, (30, 40));
}

#[test]
fn line_scenario_end_to_end() {
    let mut s = screen(200, 200);
    // keep the selection's handles away from the press
    s.p0 = (30, 30);
    s.p1 = (190, 190);
    s.draw_mode = Some(DrawMode::Line);
    s.on_mouse_move(10, 10);
    s.on_mouse_pressed();
    s.on_mouse_move(10, 10);
    s.on_mouse_move(110, 10);
    s.on_mouse_released();
    assert_eq!(s.drawn_items.len(), 1);
    assert_eq!(as_line(&s.drawn_items[0]), Some(((10, 10), (110, 10))));
    assert!(s.drawing_item.is_none());
    assert_eq!(s.draw_mode, None);
    redraw(&mut s);
    let w = 200;
    for x in 10..110 {
        assert_eq!(pixel(&s.modified_screenshot, w, x, 9), MAGENTA);
    }
    assert_ne!(pixel(&s.modified_screenshot, w, 9, 9), MAGENTA);
    assert_ne!(pixel(&s.modified_screenshot, w, 110, 9), MAGENTA);
    assert_ne!(pixel(&s.modified_screenshot, w, 50, 10), MAGENTA);
    assert_ne!(pixel(&s.modified_screenshot, w, 50, 8), MAGENTA);
}

#[test]
fn redraw_borders_and_darkens_outside() {
    let mut s = screen(50, 50);
    s.p0 = (10, 10);
    s.p1 = (40, 40);
    redraw(&mut s);
    let w = 50;
    assert_eq!(pixel(&s.modified_screenshot, w, 20, 10), MAGENTA);
    assert_eq!(pixel(&s.modified_screenshot, w, 20, 11), MAGENTA);
    assert_eq!(pixel(&s.modified_screenshot, w, 20, 12), (0, 0, 0, 255));
    assert_eq!(pixel(&s.modified_screenshot, w, 5, 5), (0, 0, 0, 100));
    assert_eq!(pixel(&s.modified_screenshot, w, 41, 20), (0, 0, 0, 100));
    assert_eq!(pixel(&s.modified_screenshot, w, 40, 20), (0, 0, 0, 255));
    let mut frame = vec![0u8; 50 * 50 * 4];
    s.present(&mut frame);
    assert_eq!(frame, s.modified_screenshot);
    let mut small = vec![1u8; 8];
    s.present(&mut small);
    assert_eq!(small, vec![1u8; 8]);
}

#[test]
fn release_with_other_kind_only_ends_mode() {
    let mut s = screen(300, 300);
    s.p0 = (100, 100);
    s.p1 = (250, 250);
    s.draw_mode = Some(DrawMode::Arrow);
    s.on_mouse_move(20, 20);
    s.on_mouse_pressed();
    s.draw_mode = Some(DrawMode::Line);
    s.on_mouse_move(50, 20);
    s.on_mouse_released();
    assert_eq!(s.draw_mode, None);
    assert!(s.drawn_items.is_empty());
    assert!(matches!(s.drawing_item, Some(DrawnItem::Arrow((20, 20), (20, 20)))));
}

#[test]
fn toggles_follow_the_pairing() {
    let mut s = screen(10, 10);
    s.drawn_items.push(DrawnItem::RectBorder((1, 1), (5, 5)));
    s.toggle_filling_latest();
    assert!(matches!(s.drawn_items[0], DrawnItem::RectFilled((1, 1), (5, 5))));
    s.toggle_filling_latest();
    assert!(matches!(s.drawn_items[0], DrawnItem::RectBorder((1, 1), (5, 5))));
    s.drawn_items.push(DrawnItem::Arrow((1, 2), (3, 4)));
    s.toggle_filling_latest();
    assert!(matches!(s.drawn_items[1], DrawnItem::ArrowFilled((1, 2), (3, 4))));
    s.toggle_filling_latest();
    assert!(matches!(s.drawn_items[1], DrawnItem::Arrow((1, 2), (3, 4))));
    let blurred = s.toggle_item_filling(DrawnItem::RectBlurred((0, 0), (9, 9)));
    assert!(matches!(blurred, DrawnItem::RectBorder((0, 0), (9, 9))));
    let line = s.toggle_item_filling(DrawnItem::Line((0, 0), (9, 9)));
    assert!(matches!(line, DrawnItem::Line((0, 0), (9, 9))));
}

#[test]
fn toggling_with_nothing_drawn_is_a_no_op() {
    let mut s = screen(10, 10);
    s.toggle_filling_latest();
    assert!(s.drawn_items.is_empty());
}

#[test]
fn bordered_rect_toggled_twice_draws_the_same() {
    let mut a = screen(40, 40);
    a.p0 = (0, 0);
    a.p1 = (40, 40);
    a.drawn_items.push(DrawnItem::RectBorder((5, 5), (30, 30)));
    let mut b = screen(40, 40);
    b.drawn_items.push(DrawnItem::RectBorder((5, 5), (30, 30)));
    b.toggle_filling_latest();
    b.toggle_filling_latest();
    redraw(&mut a);
    redraw(&mut b);
    assert_eq!(a.modified_screenshot, b.modified_screenshot);
}

#[test]
fn text_mode_press_starts_empty_text() {
    let mut s = screen(300, 300);
    s.p0 = (100, 100);
    s.p1 = (250, 250);
    s.draw_mode = Some(DrawMode::Text);
    s.on_mouse_move(20, 30);
    s.on_mouse_pressed();
    s.on_mouse_move(60, 60);
    s.on_mouse_released();
    assert_eq!(s.draw_mode, Some(DrawMode::Text));
    match &s.drawing_item {
        Some(DrawnItem::Text(c, t, a)) => {
            assert_eq!(*c, Cursor::default());
            assert!(t.is_empty());
            assert_eq!(*a, (20, 30));
        },
        _ => panic!("no text started"),
    }
    s.handle_input_text_keypress(Key::Letter(7), true, );
    s.handle_input_text_keypress(Key::Letter(8), false);
    s.handle_input_text_keypress(Key::Return, false);
    assert_eq!(s.draw_mode, None);
    assert!(s.drawing_item.is_none());
    match &s.drawn_items[0] {
        DrawnItem::Text(c, t, _) => {
            assert_eq!(t.iter().collect::<String>(), "Hi");
            assert_eq!(c.global_chars_offset_from_beginning, 2);
        },
        _ => panic!("no text committed"),
    }
}

#[test]
fn key_editing_splices_at_caret() {
    let mut content: Vec<char> = "ab".chars().collect();
    let mut cursor = Cursor { global_chars_offset_from_beginning: 1, ..Cursor::default() };
    handle_keycode_key_press(&mut content, Key::Letter(2), true, &mut cursor);
    assert_eq!(content.iter().collect::<String>(), "aCb");
    assert_eq!(cursor.global_chars_offset_from_beginning, 2);
    handle_keycode_key_press(&mut content, Key::Tab, false, &mut cursor);
    assert_eq!(content.iter().collect::<String>(), "aC    b");
    assert_eq!(cursor.global_chars_offset_from_beginning, 6);
    handle_keycode_key_press(&mut content, Key::Back, false, &mut cursor);
    assert_eq!(content.iter().collect::<String>(), "aC   b");
    assert_eq!(cursor.global_chars_offset_from_beginning, 5);
    handle_keycode_key_press(&mut content, Key::Escape, false, &mut cursor);
    assert_eq!(content.iter().collect::<String>(), "aC   b");
    let mut cursor0 = Cursor::default();
    handle_keycode_key_press(&mut content, Key::Back, false, &mut cursor0);
    assert_eq!(content.iter().collect::<String>(), "aC   b");
    assert_eq!(cursor0.global_chars_offset_from_beginning, 0);
}

#[test]
fn keys_map_to_characters() {
    assert_eq!(virtual_to_char(Key::Letter(0), false), Some('a'));
    assert_eq!(virtual_to_char(Key::Letter(25), true), Some('Z'));
    assert_eq!(virtual_to_char(Key::Digit(0), false), Some('0'));
    assert_eq!(virtual_to_char(Key::Digit(9), true), Some('9'));
    assert_eq!(virtual_to_char(Key::Apostrophe, false), Some('\''));
    assert_eq!(virtual_to_char(Key::Back, false), None);
    assert_eq!(virtual_to_char(Key::Letter(26), false), None);
    assert_eq!(mode_for_key(Key::Letter(0)), Some(DrawMode::Arrow));
    assert_eq!(mode_for_key(Key::Letter(25)), Some(DrawMode::ArrowFilled));
    assert_eq!(mode_for_key(Key::Letter(19)), Some(DrawMode::Text));
    assert_eq!(mode_for_key(Key::Letter(2)), None);
}

fn glyph(x: usize, y: usize, width: usize, parent: char) -> Glyph {
    Glyph { x, y, width, height: 20, parent }
}

#[test]
fn caret_follows_preceding_glyph() {
    let glyphs = vec![glyph(100, 200, 12, 'a'), glyph(112, 200, 0, ' '), glyph(127, 200, 12, 'b')];
    assert_eq!(update_cusror_position_text(&glyphs, 0, (100, 210)), (100, 210));
    assert_eq!(update_cusror_position_text(&glyphs, 1, (100, 210)), (112, 210));
    assert_eq!(update_cusror_position_text(&glyphs, 2, (100, 210)), (127, 210));
    assert_eq!(update_cusror_position_text(&glyphs, 9, (100, 210)), (100, 210));
    assert_eq!(update_cusror_position_text(&glyphs, 1, (150, 210)), (150, 210));
}

#[test]
fn caret_is_drawn_on_current_line() {
    let content: Vec<char> = "ab\ncd".chars().collect();
    let layout = vec![
        glyph(10, 20, 8, 'a'),
        glyph(18, 20, 8, 'b'),
        glyph(26, 20, 0, '\n'),
        glyph(10, 50, 8, 'c'),
        glyph(18, 50, 8, 'd'),
    ];
    let mut cursor = Cursor {
        global_chars_offset_from_beginning: 4,
        global_lines_offset_from_beginning: 1,
        px_coordinates: (0, 0),
    };
    let mut canvas = vec![0u8; 100 * 100 * 4];
    draw_cursor(&mut canvas, 100, &mut cursor, &layout, &content, (10, 60), MAGENTA);
    // one character into the second line: right of the glyph at that offset,
    // moved from the last glyph's row to the anchor's
    assert_eq!(cursor.px_coordinates, (18, 30));
    assert_eq!(pixel(&canvas, 100, 19, 59), MAGENTA);
    assert_eq!(pixel(&canvas, 100, 18, 30), MAGENTA);
    assert_eq!(pixel(&canvas, 100, 20, 30), (0, 0, 0, 0));
    assert_eq!(pixel(&canvas, 100, 18, 60), (0, 0, 0, 0));
    let mut far = Cursor { px_coordinates: (0, 0), ..cursor };
    let mut tiny = vec![0u8; 4 * 4 * 4];
    draw_cursor(&mut tiny, 4, &mut far, &layout, &content, (10, 60), MAGENTA);
    assert_eq!(tiny, vec![0u8; 64]);
}

#[test]
fn cropping_leaves_out_the_border() {
    let mut s = screen(10, 10);
    for i in 0..s.modified_screenshot.len() {
        s.modified_screenshot[i] = i as u8;
    }
    let image = s.get_cropped_image().unwrap();
    assert_eq!((image.width, image.height), (6, 6));
    assert_eq!(image.bytes.len(), 6 * 6 * 4);
    assert_eq!(image.bytes[0], s.modified_screenshot[(2 * 10 + 2) * 4]);
    let full = s.get_full_image();
    assert_eq!(full.bytes, s.modified_screenshot);
    s.p1 = (3, 3);
    assert!(s.get_cropped_image().is_none());
}

#[test]
fn viewport_resize_starts_over() {
    let mut s = screen(10, 10);
    s.drawn_items.push(DrawnItem::Line((1, 1), (5, 5)));
    s.draw_mode = Some(DrawMode::Line);
    s.resize_viewport(8, 6);
    assert_eq!((s.p0, s.p1, s.width, s.height), ((0, 0), (8, 6), 8, 6));
    assert!(s.drawn_items.is_empty());
    assert_eq!(s.draw_mode, None);
    assert_eq!(s.original_screenshot.len(), 400);
}

#[test]
fn cancel_discards_shape_in_progress() {
    let mut s = screen(300, 300);
    s.p0 = (100, 100);
    s.p1 = (250, 250);
    s.drawn_items.push(DrawnItem::Line((1, 1), (5, 5)));
    s.draw_mode = Some(DrawMode::RectFilled);
    s.on_mouse_move(20, 20);
    s.on_mouse_pressed();
    assert!(s.drawing_item.is_some());
    s.cancel_drawing();
    assert!(s.drawing_item.is_none());
    assert_eq!(s.draw_mode, None);
    assert_eq!(s.drawn_items.len(), 1);
}

#[test]
fn blurred_item_writes_area_back_opaque() {
    let mut s = Screenshot::new(vec![0u8; 20 * 20 * 4], 20, 20, BorderColor::default());
    let item = DrawnItem::RectBlurred((6, 6), (0, 0));
    let area = birdy::blur::take_blur_area(&s.modified_screenshot, 0, 0, 6, 6, 20).unwrap();
    let mut blurred = birdy::blur::BlurArea { pixels: vec![[7, 8, 9]; 36], ..area };
    s.draw_blurred_item(&item, &blurred);
    assert_eq!(pixel(&s.modified_screenshot, 20, 0, 0), (7, 8, 9, 255));
    assert_eq!(pixel(&s.modified_screenshot, 20, 5, 5), (7, 8, 9, 255));
    assert_eq!(pixel(&s.modified_screenshot, 20, 6, 6), (0, 0, 0, 0));
    // an area that does not belong to the item changes nothing
    let before = s.modified_screenshot.clone();
    blurred.x0 = 1;
    s.draw_blurred_item(&item, &blurred);
    assert_eq!(s.modified_screenshot, before);
    let line = DrawnItem::Line((0, 0), (6, 6));
    blurred.x0 = 0;
    s.draw_blurred_item(&line, &blurred);
    assert_eq!(s.modified_screenshot, before);
}

#[test]
fn redraw_keeps_shapes_and_is_repeatable() {
    let mut s = screen(60, 60);
    s.p0 = (5, 5);
    s.p1 = (50, 50);
    s.drawn_items.push(DrawnItem::RectFilled((10, 10), (20, 20)));
    s.draw_mode = Some(DrawMode::Line);
    s.on_mouse_move(30, 30);
    s.on_mouse_pressed();
    s.on_mouse_move(40, 30);
    redraw(&mut s);
    let first = s.modified_screenshot.clone();
    redraw(&mut s);
    assert_eq!(s.modified_screenshot, first);
    assert_eq!(s.drawn_items.len(), 1);
    assert!(matches!(s.drawing_item, Some(DrawnItem::Line((30, 30), (40, 30)))));
    assert_eq!(s.draw_mode, Some(DrawMode::Line));
}

#[test]
fn commit_keys_need_no_text() {
    let mut s = screen(10, 10);
    s.draw_mode = Some(DrawMode::Text);
    s.handle_input_text_keypress(Key::Escape, false);
    assert_eq!(s.draw_mode, None);
    assert!(s.drawn_items.is_empty());
}
