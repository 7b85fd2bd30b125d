use birdy::arrow::{draw_arrow_bordered, draw_arrow_filled};
use birdy::blend::blend;
use birdy::blur::{put_blur_area, take_blur_area};
use birdy::canvas::put_pixel;
use birdy::circle::draw_circle_filled;
use birdy::line::draw_line;
use birdy::rectangle::{draw_rect_bordered, draw_rect_filled, draw_rect_outlined};
use birdy::text::{convert_rgba, draw_text, subpixel_to_rgba, RasterGlyph};
use birdy::triangle::draw_triangle_filled;

const RED: (u8, u8, u8, u8) = (255, 0, 0, 255);

fn blank(width: usize, height: usize) -> Vec<u8> {
    vec![0u8; width * height * 4]
}

fn pixel(canvas: &[u8], width: usize, x: usize, y: usize) -> (u8, u8, u8, u8) {
    let o = (y * width + x) * 4;
    (canvas[o], canvas[o + 1], canvas[o + 2], canvas[o + 3])
}

fn set_pixels(canvas: &[u8], width: usize) -> Vec<(usize, usize)> {
    let mut out = Vec::new();
    for i in 0..canvas.len() / 4 {
        if canvas[i * 4 + 3] != 0 {
            out.push((i % width, i / width));
        }
    }
    out
}

#[test]
fn put_pixel_writes_one_pixel() {
    let mut c = blank(4, 4);
    put_pixel(&mut c, 4, 2, 1, (1, 2, 3, 4));
    assert_eq!(pixel(&c, 4, 2, 1), (1, 2, 3, 4));
    assert_eq!(set_pixels(&c, 4), vec![(2, 1)]);
}

#[test]
fn line_interpolates_and_steps_one_row_up() {
    let mut c = blank(10, 10);
    draw_line(&mut c, 2, 3, 8, 5, 10, RED);
    assert_eq!(
        set_pixels(&c, 10),
        vec![(2, 2), (3, 2), (4, 2), (5, 3), (6, 3), (7, 3)]
    );
}

#[test]
fn line_is_symmetric() {
    let cases = [((2, 3), (8, 5)), ((1, 1), (4, 9)), ((7, 2), (0, 2)), ((3, 8), (9, 0)), ((5, 5), (1, 1))];
    for (p, q) in cases {
        let mut a = blank(10, 10);
        let mut b = blank(10, 10);
        draw_line(&mut a, p.0, p.1, q.0, q.1, 10, RED);
        draw_line(&mut b, q.0, q.1, p.0, p.1, 10, RED);
        assert_eq!(a, b);
    }
}

#[test]
fn steep_line_walks_rows() {
    let mut c = blank(10, 10);
    draw_line(&mut c, 4, 1, 4, 5, 10, RED);
    assert_eq!(set_pixels(&c, 10), vec![(3, 1), (3, 2), (3, 3), (3, 4)]);
}

#[test]
fn degenerate_line_draws_nothing() {
    let mut c = blank(10, 10);
    draw_line(&mut c, 4, 4, 4, 4, 10, RED);
    assert!(set_pixels(&c, 10).is_empty());
}

#[test]
fn filled_rect_covers_half_open_box() {
    let mut c = blank(10, 10);
    draw_rect_filled(&mut c, 7, 6, 2, 3, 10, RED);
    let got = set_pixels(&c, 10);
    assert_eq!(got.len(), 5 * 3);
    for (x, y) in got {
        assert!((2..7).contains(&x) && (3..6).contains(&y));
    }
    assert_eq!(pixel(&c, 10, 2, 3), RED);
    assert_eq!(pixel(&c, 10, 7, 5), (0, 0, 0, 0));
}

#[test]
fn bordered_rect_draws_two_pixel_bands() {
    let mut c = blank(10, 10);
    draw_rect_bordered(&mut c, 1, 1, 9, 9, 10, RED);
    assert_eq!(pixel(&c, 10, 5, 1), RED);
    assert_eq!(pixel(&c, 10, 5, 2), RED);
    assert_eq!(pixel(&c, 10, 5, 3), (0, 0, 0, 0));
    assert_eq!(pixel(&c, 10, 7, 5), RED);
    assert_eq!(pixel(&c, 10, 8, 5), RED);
    assert_eq!(pixel(&c, 10, 5, 7), RED);
    assert_eq!(pixel(&c, 10, 1, 5), RED);
    assert_eq!(pixel(&c, 10, 5, 5), (0, 0, 0, 0));
    assert_eq!(pixel(&c, 10, 9, 5), (0, 0, 0, 0));
}

#[test]
fn outlined_rect_draws_one_pixel_lines() {
    let mut c = blank(10, 10);
    draw_rect_outlined(&mut c, 2, 2, 8, 8, 10, RED);
    // the top edge is written one row above it
    assert_eq!(pixel(&c, 10, 4, 1), RED);
    assert_eq!(pixel(&c, 10, 4, 2), (0, 0, 0, 0));
    assert_eq!(pixel(&c, 10, 4, 7), RED);
    assert_eq!(pixel(&c, 10, 5, 5), (0, 0, 0, 0));
}

#[test]
fn circle_membership() {
    let mut c = blank(100, 100);
    draw_circle_filled(&mut c, 50, 50, 10, 100, RED);
    assert_eq!(pixel(&c, 100, 50, 60), RED);
    assert_eq!(pixel(&c, 100, 50, 61), (0, 0, 0, 0));
    assert_eq!(pixel(&c, 100, 40, 50), RED);
    assert_eq!(pixel(&c, 100, 56, 58), RED);
    assert_eq!(pixel(&c, 100, 58, 58), (0, 0, 0, 0));
    for (x, y) in set_pixels(&c, 100) {
        let (dx, dy) = (x as i64 - 50, y as i64 - 50);
        assert!(dx * dx + dy * dy <= 100);
    }
}

#[test]
fn triangle_fills_scanlines() {
    let mut c = blank(10, 10);
    draw_triangle_filled(&mut c, (0, 0), (4, 0), (0, 4), 10, RED);
    let got = set_pixels(&c, 10);
    assert_eq!(got.len(), 5 + 4 + 3 + 2);
    assert_eq!(pixel(&c, 10, 4, 0), RED);
    assert_eq!(pixel(&c, 10, 1, 3), RED);
    assert_eq!(pixel(&c, 10, 2, 3), (0, 0, 0, 0));
    assert_eq!(pixel(&c, 10, 0, 4), (0, 0, 0, 0));
}

#[test]
fn short_arrow_draws_nothing() {
    let mut c = blank(20, 20);
    draw_arrow_bordered(&mut c, 5, 5, 7, 6, (Some(1), Some(1)), (Some(1), Some(9)), 20, RED);
    assert!(set_pixels(&c, 20).is_empty());
}

#[test]
fn arrow_draws_thick_shaft_and_known_wings() {
    let mut c = blank(80, 40);
    draw_arrow_bordered(&mut c, 10, 20, 60, 20, (Some(20), Some(5)), (None, Some(35)), 80, RED);
    assert_eq!(pixel(&c, 80, 30, 18), RED);
    assert_eq!(pixel(&c, 80, 30, 19), RED);
    assert_eq!(pixel(&c, 80, 30, 20), RED);
    assert_eq!(pixel(&c, 80, 30, 21), (0, 0, 0, 0));
    // the wing from (20, 5) is drawn, the one with an unknown coordinate is not
    assert!(set_pixels(&c, 80).iter().any(|&(_, y)| y < 10));
    assert!(!set_pixels(&c, 80).iter().any(|&(_, y)| y > 25));
}

#[test]
fn filled_arrow_fills_head() {
    let mut c = blank(80, 40);
    draw_arrow_filled(&mut c, 10, 20, 60, 20, (Some(40), Some(10)), (Some(40), Some(30)), 80, RED);
    assert_eq!(pixel(&c, 80, 45, 15), RED);
    assert_eq!(pixel(&c, 80, 45, 25), RED);
    let mut open = blank(80, 40);
    draw_arrow_bordered(&mut open, 10, 20, 60, 20, (Some(40), Some(10)), (Some(40), Some(30)), 80, RED);
    assert_eq!(pixel(&open, 80, 45, 15), (0, 0, 0, 0));
}

#[test]
fn blend_identity() {
    let bg = (10, 20, 30, 200);
    assert_eq!(blend(bg, (200, 100, 50, 200)), (200, 100, 50, 200));
    assert_eq!(blend(bg, (200, 100, 50, 0)), (10, 20, 30, 200));
    assert_eq!(blend((1, 2, 3, 255), (9, 8, 7, 255)), (9, 8, 7, 255));
}

#[test]
fn blend_formula_value() {
    assert_eq!(blend((100, 100, 100, 255), (200, 0, 50, 51)), (120, 80, 90, 255));
    assert_eq!(blend((5, 5, 5, 0), (200, 0, 50, 51)), (0, 0, 0, 0));
    // a foreground more opaque than the background overshoots and is cut off
    assert_eq!(blend((255, 0, 0, 100), (0, 255, 0, 200)), (0, 255, 0, 100));
}

#[test]
fn blur_area_too_small_is_skipped() {
    let c = blank(20, 20);
    assert!(take_blur_area(&c, 2, 2, 6, 10, 20).is_none());
    assert!(take_blur_area(&c, 2, 2, 10, 6, 20).is_none());
    assert!(take_blur_area(&c, 2, 2, 10, 30, 20).is_none());
}

#[test]
fn blur_area_round_trip_makes_opaque() {
    let mut c = blank(20, 20);
    for i in 0..c.len() {
        c[i] = (i % 251) as u8;
    }
    let area = take_blur_area(&c, 12, 9, 4, 3, 20).unwrap();
    assert_eq!((area.x0, area.y0, area.width, area.height), (4, 3, 8, 6));
    let o = (3 * 20 + 4) * 4;
    assert_eq!(area.pixels[0], [c[o], c[o + 1], c[o + 2]]);
    let before = c.clone();
    put_blur_area(&mut c, 20, &area);
    assert_eq!(c[o + 3], 255);
    assert_eq!(&c[o..o + 3], &before[o..o + 3]);
    assert_eq!(c[3], before[3]);
}

#[test]
fn coverage_mixes_colors() {
    assert_eq!(convert_rgba((255, 0, 51, 0), (0, 0, 100, 0), (200, 100, 200, 0)), vec![200, 0, 120, 255]);
    let out = subpixel_to_rgba(&vec![255, 0, 0, 0, 0, 0], (10, 20, 30, 255), (0, 0, 0, 255));
    assert_eq!(out, vec![10, 0, 0, 255, 0, 0, 0, 255]);
}

#[test]
fn text_glyphs_are_copied_later_on_top() {
    let mut c = blank(10, 10);
    let a = RasterGlyph { x: 1, y: 1, width: 2, height: 2, bitmap: vec![9; 16] };
    let b = RasterGlyph { x: 2, y: 2, width: 1, height: 1, bitmap: vec![7, 7, 7, 7] };
    draw_text(&mut c, 10, &vec![a, b]);
    assert_eq!(pixel(&c, 10, 1, 1), (9, 9, 9, 9));
    assert_eq!(pixel(&c, 10, 2, 2), (7, 7, 7, 7));
    assert_eq!(set_pixels(&c, 10).len(), 4);
}

#[test]
fn blended_circle_composites_over_pixels() {
    let mut c = vec![0u8; 30 * 30 * 4];
    for i in 0..30 * 30 {
        c[i * 4] = 100;
        c[i * 4 + 1] = 100;
        c[i * 4 + 2] = 100;
        c[i * 4 + 3] = 255;
    }
    birdy::circle::draw_circle_blended(&mut c, 15, 15, 5, 30, (200, 0, 50, 51));
    assert_eq!(pixel(&c, 30, 15, 20), (120, 80, 90, 255));
    assert_eq!(pixel(&c, 30, 15, 21), (100, 100, 100, 255));
    assert_eq!(pixel(&c, 30, 19, 19), (100, 100, 100, 255));
}

#[test]
fn short_filled_arrow_draws_nothing() {
    let mut c = blank(20, 20);
    draw_arrow_filled(&mut c, 5, 5, 5, 5, (None, None), (None, None), 20, RED);
    assert!(set_pixels(&c, 20).is_empty());
    draw_arrow_filled(&mut c, 5, 5, 7, 7, (Some(1), Some(1)), (Some(1), Some(9)), 20, RED);
    assert!(set_pixels(&c, 20).is_empty());
}

#[test]
fn shown_glyphs_skip_breaks_spaces_and_far_right() {
    assert!(birdy::text::glyph_shown(36, 10));
    assert!(!birdy::text::glyph_shown(0, 10));
    assert!(!birdy::text::glyph_shown(958, 10));
    assert!(!birdy::text::glyph_shown(36, 1920));
    assert!(birdy::text::glyph_shown(36, 1919));
}
