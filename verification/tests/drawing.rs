//! Images: pixels, the pixel font, blended text, rulers and timers.

use emskin::effects::bitmap_font::{draw_text, glyph, label_width};
use emskin::effects::glyphs::{blend_glyphs, draw_text_onto, to_dots, AlphaRule, GlyphRect, Ink};
use emskin::effects::measure::{
    render_label, render_left_ruler, render_top_ruler, tick_length, MeasureElement, MeasureOverlay,
};
use emskin::effects::pixels::{fill_image, fill_rect, fill_span, new_image, put_pixel};
use emskin::effects::recorder::{render_timer_label, RecorderLayout, RecorderOverlay};
use emskin::geometry::{Point, Rect, Size};

const A: [u8; 4] = [1, 2, 3, 4];
const B: [u8; 4] = [9, 8, 7, 6];

fn pixel(data: &[u8], w: i32, x: i32, y: i32) -> [u8; 4] {
    let o = ((y * w + x) * 4) as usize;
    [data[o], data[o + 1], data[o + 2], data[o + 3]]
}

/// The lit pixels of an image as text.
fn picture(data: &[u8], w: i32, h: i32, lit: [u8; 4]) -> Vec<String> {
    (0..h)
        .map(|y| {
            (0..w)
                .map(|x| if pixel(data, w, x, y) == lit { '#' } else { '.' })
                .collect()
        })
        .collect()
}

#[test]
fn pixels_stand_row_by_row() {
    let mut data = new_image(3, 2, &A);
    put_pixel(&mut data, 3, 2, 1, 1, &B);
    put_pixel(&mut data, 3, 2, 3, 0, &B);
    put_pixel(&mut data, 3, 2, -1, 0, &B);
    assert_eq!(picture(&data, 3, 2, B), ["...", ".#."]);
}

#[test]
fn rectangles_are_clipped() {
    let mut data = new_image(4, 3, &A);
    fill_rect(&mut data, 4, 3, -1, 1, 3, 9, B);
    assert_eq!(picture(&data, 4, 3, B), ["....", "##..", "##.."]);
    fill_rect(&mut data, 4, 3, 5, 0, 3, 3, B);
    assert_eq!(picture(&data, 4, 3, B), ["....", "##..", "##.."]);
}

#[test]
fn images_are_filled_pixel_by_pixel() {
    let mut data = vec![0u8; 10];
    fill_image(&mut data, &A);
    assert_eq!(data, [1, 2, 3, 4, 1, 2, 3, 4, 0, 0]);
}

#[test]
fn spans_clear_the_rest_of_their_row() {
    let mut data = new_image(3, 2, &A);
    fill_span(&mut data, 3, 2, 1, 1, &[B]);
    assert_eq!(pixel(&data, 3, 0, 0), A);
    assert_eq!(pixel(&data, 3, 0, 1), [0; 4]);
    assert_eq!(pixel(&data, 3, 1, 1), B);
    assert_eq!(pixel(&data, 3, 2, 1), [0; 4]);
}

#[test]
fn the_font_has_digits_and_marks() {
    assert_eq!(glyph('1'), Some([0x00, 0x42, 0x7F, 0x40, 0x00]));
    assert_eq!(glyph('-'), Some([0x08; 5]));
    assert_eq!(glyph('a'), None);
    assert_eq!(label_width(""), 0);
    assert_eq!(label_width("7"), 5);
    assert_eq!(label_width("01:23"), 29);
}

#[test]
fn text_is_drawn_column_by_column() {
    let mut data = new_image(11, 7, &A);
    draw_text(&mut data, Size { w: 11, h: 7 }, Point { x: 0, y: 0 }, "1:", &B);
    assert_eq!(
        picture(&data, 11, 7, B),
        [
            "..#........",
            ".##.....#..",
            "..#.....#..",
            "..#........",
            "..#.....#..",
            "..#.....#..",
            ".###.......",
        ]
    );
}

#[test]
fn unknown_characters_leave_their_place_empty() {
    let mut data = new_image(11, 7, &A);
    draw_text(&mut data, Size { w: 11, h: 7 }, Point { x: 0, y: 0 }, "x-", &B);
    assert_eq!(picture(&data, 11, 7, B)[3], "......#####");
}

#[test]
fn text_is_clipped_to_the_image() {
    let mut data = new_image(3, 3, &A);
    draw_text(&mut data, Size { w: 3, h: 3 }, Point { x: -1, y: -3 }, "-", &B);
    assert_eq!(picture(&data, 3, 3, B), ["###", "...", "..."]);
}

fn dot(x: i32, y: i32, a: u8) -> GlyphRect {
    GlyphRect { x, y, w: 1, h: 1, ink: Ink { r: 200, g: 100, b: 50, a } }
}

#[test]
fn opaque_ink_replaces_and_empty_ink_leaves() {
    let mut data = new_image(2, 1, &[10, 20, 30, 40]);
    blend_glyphs(&mut data, 2, 1, &[dot(0, 0, 255), dot(1, 0, 0)], 0, 0, AlphaRule::Over);
    assert_eq!(data, [50, 100, 200, 255, 10, 20, 30, 40]);
}

#[test]
fn half_ink_is_mixed() {
    let mut data = new_image(1, 1, &[0, 0, 0, 0]);
    blend_glyphs(&mut data, 1, 1, &[dot(0, 0, 51)], 0, 0, AlphaRule::Over);
    assert_eq!(data, [10, 20, 40, 51]);
    let mut opaque = new_image(1, 1, &[0, 0, 0, 0]);
    blend_glyphs(&mut opaque, 1, 1, &[dot(0, 0, 51)], 0, 0, AlphaRule::Opaque);
    assert_eq!(opaque, [10, 20, 40, 255]);
}

#[test]
fn text_is_moved_by_its_origin_and_clipped() {
    let wide = GlyphRect { w: 3, h: 2, ..dot(0, 0, 255) };
    let mut data = new_image(3, 2, &[0; 4]);
    blend_glyphs(&mut data, 3, 2, &[wide], -1, 1, AlphaRule::Over);
    assert_eq!(picture(&data, 3, 2, [50, 100, 200, 255]), ["...", "##."]);
    assert_eq!(to_dots(&[wide]), [dot(0, 0, 255)]);
}

#[test]
fn short_images_are_left_alone_beyond_their_end() {
    let mut data = vec![0u8; 6];
    blend_glyphs(&mut data, 2, 1, &[dot(0, 0, 255), dot(1, 0, 255)], 0, 0, AlphaRule::Over);
    assert_eq!(data, [50, 100, 200, 255, 0, 0]);
}

#[test]
fn text_without_glyphs_leaves_the_image() {
    let mut fonts = cosmic_text::FontSystem::new();
    let mut cache = cosmic_text::SwashCache::new();
    let mut buffer = cosmic_text::Buffer::new(&mut fonts, cosmic_text::Metrics::new(13.0, 15.0));
    let mut data = new_image(4, 4, &A);
    draw_text_onto(&mut data, 4, 4, 0, 0, &B, &mut buffer, &mut fonts, &mut cache);
    assert_eq!(data, new_image(4, 4, &A));
}

#[test]
fn ticks_are_longer_at_round_positions() {
    assert_eq!(tick_length(0), 10);
    assert_eq!(tick_length(200), 10);
    assert_eq!(tick_length(150), 6);
    assert_eq!(tick_length(10), 3);
    assert_eq!(tick_length(-100), 10);
}

const FG: [u8; 4] = [180, 100, 255, 255];
const BG: [u8; 4] = [35, 25, 25, 220];

#[test]
fn the_label_shows_coordinates() {
    let label = render_label(-1, 7);
    assert_eq!(label.size, Size { w: 6 + 29, h: 13 });
    let rows = picture(&label.data, label.size.w, label.size.h, FG);
    // The minus sign stands in the fourth row of the text.
    assert!(rows[6].starts_with("...#####."));
    assert_eq!(pixel(&label.data, label.size.w, 0, 0), BG);
}

#[test]
fn the_top_ruler_has_an_edge_ticks_and_numbers() {
    let ruler = render_top_ruler(130);
    assert_eq!(ruler.size, Size { w: 130, h: 22 });
    let rows = picture(&ruler.data, 130, 22, FG);
    assert!(rows[21].chars().all(|c| c == '#'));
    let column = |x: usize| -> String { rows.iter().map(|r| r.chars().nth(x).unwrap()).collect() };
    assert_eq!(column(10).matches('#').count(), 4);
    assert_eq!(column(50).matches('#').count(), 7);
    assert_eq!(column(100).matches('#').count(), 11);
    assert_eq!(column(5).matches('#').count(), 1);
    // "100" stands from column 102 on.
    assert_eq!(&rows[3][102..107], ".##..");
}

#[test]
fn numbers_that_do_not_fit_are_left_out() {
    let ruler = render_top_ruler(119);
    let rows = picture(&ruler.data, 119, 22, FG);
    assert_eq!(&rows[3][102..107], ".....");
}

#[test]
fn the_left_ruler_is_the_top_one_turned() {
    let ruler = render_left_ruler(130);
    assert_eq!(ruler.size, Size { w: 22, h: 130 });
    let rows = picture(&ruler.data, 22, 130, FG);
    assert!(rows.iter().all(|r| r.ends_with('#')));
    assert_eq!(rows[10].matches('#').count(), 4);
    assert_eq!(rows[100].matches('#').count(), 11);
    // "100" stands from row 102 on, in columns 2 to 18.
    assert_eq!(&rows[103][2..7], ".##..");
}

#[test]
fn measuring_follows_the_cursor() {
    let canvas = Rect { x: 0, y: 28, w: 200, h: 100 };
    let phys = Rect { x: 0, y: 56, w: 400, h: 200 };
    let mut overlay = MeasureOverlay::new();
    let at = Some(Point { x: 10, y: 40 });
    let cursor_phys = Point { x: 20, y: 80 };
    assert!(overlay.build_elements(at, canvas, cursor_phys, phys).is_empty());
    overlay.set_enabled(true);
    assert!(overlay.build_elements(None, canvas, cursor_phys, phys).is_empty());
    assert_eq!(
        overlay.build_elements(at, canvas, cursor_phys, phys),
        [
            MeasureElement::CursorLabel { at: Point { x: 18, y: 48 } },
            MeasureElement::Line(Rect { x: 0, y: 80, w: 400, h: 1 }),
            MeasureElement::Line(Rect { x: 20, y: 56, w: 1, h: 200 }),
            MeasureElement::TopRuler,
            MeasureElement::LeftRuler,
        ]
    );
    assert_eq!(overlay.last_pos, Some(Point { x: 10, y: 12 }));
    assert_eq!(overlay.lines_commit, 1);
    overlay.build_elements(at, canvas, cursor_phys, phys);
    assert_eq!(overlay.lines_commit, 1);
}

#[test]
fn the_label_flips_at_the_edges() {
    let canvas = Rect { x: 0, y: 0, w: 200, h: 100 };
    let mut overlay = MeasureOverlay::new();
    overlay.set_enabled(true);
    let cursor = Point { x: 195, y: 95 };
    let elements = overlay.build_elements(Some(cursor), canvas, cursor, canvas);
    // "195, 95" is 41 pixels wide; its label is 47 by 13.
    assert_eq!(
        elements[0],
        MeasureElement::CursorLabel { at: Point { x: 195 - 8 - 47, y: 95 - 8 - 13 } }
    );
}

#[test]
fn the_timer_shows_minutes_and_seconds() {
    let short = render_timer_label(83);
    assert_eq!(short.size, Size { w: 8 + 29, h: 15 });
    let long = render_timer_label(6000);
    assert_eq!(long.size, Size { w: 8 + 35, h: 15 });
    // A one stands at the start of the second digit.
    let rows = picture(&short.data, 37, 15, [240, 240, 240, 255]);
    assert_eq!(&rows[4][10..15], "..#..");
}

#[test]
fn the_indicator_stands_in_the_corner() {
    let canvas = Rect { x: 0, y: 28, w: 1000, h: 500 };
    let mut overlay = RecorderOverlay::new();
    assert_eq!(overlay.paint(0, canvas), None);
    overlay.set_active(Some(5_000_000_000));
    assert!(overlay.is_enabled());
    assert_eq!(
        overlay.paint(6_500_000_000, canvas),
        Some(RecorderLayout {
            dot: Rect { x: 1000 - 16 - 37 - 20, y: 45, w: 12, h: 12 },
            label_at: Point { x: 1000 - 16 - 37, y: 44 },
        })
    );
    assert_eq!(overlay.last_seconds, Some(1));
    assert_eq!(overlay.dot_commit, 1);
    overlay.paint(6_900_000_000, canvas);
    assert_eq!(overlay.dot_commit, 1);
    overlay.paint(7_000_000_000, canvas);
    assert_eq!(overlay.dot_commit, 2);
    overlay.set_active(None);
    assert_eq!(overlay.last_seconds, None);
}

#[test]
fn the_indicator_is_placed_at_the_end_of_the_range() {
    let mut overlay = RecorderOverlay::new();
    let far = Rect { x: i32::MAX, y: i32::MAX, w: 1, h: 1 };
    assert_eq!(overlay.paint(0, far), None);
    overlay.set_active(Some(0));
    let canvas = Rect { x: i32::MIN, y: i32::MAX - 17, w: 36 + 37, h: 1 };
    assert_eq!(
        overlay.paint(0, canvas),
        Some(RecorderLayout {
            dot: Rect { x: i32::MIN, y: i32::MAX, w: 12, h: 12 },
            label_at: Point { x: i32::MIN + 20, y: i32::MAX - 1 },
        })
    );
}

#[test]
fn the_label_is_placed_at_the_end_of_the_range() {
    let mut overlay = MeasureOverlay::new();
    let cursor = Point { x: i32::MAX, y: i32::MAX };
    let far = Rect { x: -1, y: -1, w: i32::MAX, h: i32::MAX };
    assert!(overlay.build_elements(Some(cursor), far, cursor, far).is_empty());
    overlay.set_enabled(true);
    let canvas = Rect { x: i32::MAX - 9, y: i32::MAX - 9, w: 9, h: 9 };
    let elements = overlay.build_elements(Some(cursor), canvas, cursor, canvas);
    // "9, 9" is 23 pixels wide; its label is 29 by 13.
    assert_eq!(
        elements[0],
        MeasureElement::CursorLabel { at: Point { x: i32::MAX - 37, y: i32::MAX - 21 } }
    );
}
