//! Text drawn in a font that is made here: its only letter is a box.

use cosmic_text::{Attrs, Buffer, FontSystem, Metrics, Shaping, SwashCache, Weight};
use emskin::bar::{draw_text, pill_ink, WorkspaceEntry};
use emskin::effects::glyphs::{
    count_levels, draw_dots, draw_label_text, draw_text_onto, find_fonts, has_one_direction,
    label_ink, text_ink, Ink,
};
use emskin::geometry::Rect;

fn words(out: &mut Vec<u8>, values: &[u16]) {
    for value in values {
        out.extend_from_slice(&value.to_be_bytes());
    }
}

/// A font of a thousand units per em in which `A` fills its square.
fn box_font() -> Vec<u8> {
    let mut cmap = Vec::new();
    words(&mut cmap, &[0, 1, 3, 1, 0, 12, 4, 32, 0, 4, 4, 1, 0]);
    words(&mut cmap, &[65, 0xffff, 0, 65, 0xffff, 0xffc0, 1, 0, 0]);
    let mut glyf = Vec::new();
    words(&mut glyf, &[1, 0, 0, 1000, 1000, 3, 0, 0x0101, 0x0101]);
    words(&mut glyf, &[0, 0, 1000, 0, 0, 1000, 0, 0xfc18, 0]);
    let mut head = Vec::new();
    words(&mut head, &[1, 0, 1, 0, 0, 0, 0x5f0f, 0x3cf5, 0, 1000, 0, 0, 0, 0, 0, 0, 0, 0]);
    words(&mut head, &[0, 0, 1000, 1000, 0, 8, 2, 1, 0]);
    let mut hhea = Vec::new();
    words(&mut hhea, &[1, 0, 1000, 0, 0, 1000, 0, 0, 1000, 1, 0, 0, 0, 0, 0, 0, 0, 2]);
    let mut hmtx = Vec::new();
    words(&mut hmtx, &[1000, 0, 1000, 0]);
    let mut loca = Vec::new();
    words(&mut loca, &[0, 0, 0, 0, 0, 36]);
    let mut maxp = Vec::new();
    words(&mut maxp, &[1, 0, 2, 4, 1, 0, 0, 2, 0, 0, 0, 0, 0, 0, 0, 0]);
    let mut name = Vec::new();
    words(&mut name, &[0, 2, 30, 3, 1, 0x409, 1, 6, 0, 3, 1, 0x409, 6, 6, 0]);
    words(&mut name, &[0x42, 0x6f, 0x78, 0]);
    let tables: [(&[u8; 4], Vec<u8>); 8] = [
        (b"cmap", cmap),
        (b"glyf", glyf),
        (b"head", head),
        (b"hhea", hhea),
        (b"hmtx", hmtx),
        (b"loca", loca),
        (b"maxp", maxp),
        (b"name", name),
    ];
    let mut font = Vec::new();
    words(&mut font, &[1, 0, 8, 128, 3, 0]);
    let mut offset: u32 = 12 + 16 * 8;
    for (tag, table) in &tables {
        let length = table.len() as u32;
        font.extend_from_slice(*tag);
        font.extend_from_slice(&[0; 4]);
        font.extend_from_slice(&offset.to_be_bytes());
        font.extend_from_slice(&length.to_be_bytes());
        offset += (length + 3) / 4 * 4;
    }
    for (_, table) in &tables {
        font.extend_from_slice(table);
        while font.len() % 4 != 0 {
            font.push(0);
        }
    }
    font
}

/// A font system without a font.
fn no_fonts() -> FontSystem {
    let mut fonts = FontSystem::new();
    let ids: Vec<_> = fonts.db().faces().map(|face| face.id).collect();
    for id in ids {
        fonts.db_mut().remove_face(id);
    }
    fonts
}

/// A font system with the box font alone.
fn box_fonts() -> FontSystem {
    let mut fonts = no_fonts();
    fonts.db_mut().load_font_data(box_font());
    assert_eq!(fonts.db().faces().count(), 1);
    fonts
}

/// A text of ten pixels that is not shaped yet.
fn text(text: &str) -> Buffer {
    let mut buffer = Buffer::new_empty(Metrics::new(10.0, 10.0));
    buffer.set_size(Some(100.0), Some(100.0));
    buffer.set_text(text, &Attrs::new().weight(Weight::MEDIUM), Shaping::Advanced, None);
    buffer
}

const PAPER: [u8; 4] = [7, 8, 9, 255];

fn paper() -> Vec<u8> {
    PAPER.repeat(30 * 30)
}

fn pixel(data: &[u8], x: usize, y: usize) -> [u8; 4] {
    let at = (y * 30 + x) * 4;
    [data[at], data[at + 1], data[at + 2], data[at + 3]]
}

#[test]
fn text_is_drawn_in_its_color() {
    let mut fonts = box_fonts();
    let mut cache = SwashCache::new();
    let mut data = paper();
    let fg = [10, 20, 30, 255];
    draw_text_onto(&mut data, 30, 30, 4, 5, &fg, &mut text("A"), &mut fonts, &mut cache);
    assert_eq!(pixel(&data, 9, 10), fg);
    assert_eq!(pixel(&data, 2, 10), PAPER);
    assert_eq!(pixel(&data, 20, 10), PAPER);
    assert_eq!(pixel(&data, 9, 2), PAPER);
    assert_eq!(pixel(&data, 9, 20), PAPER);
}

#[test]
fn labels_are_drawn_opaque() {
    let mut fonts = box_fonts();
    let mut cache = SwashCache::new();
    let mut data = paper();
    draw_label_text(&mut data, 30, 30, 3, &[1, 2, 3, 4], &mut text("AA"), &mut fonts, &mut cache);
    assert_eq!(pixel(&data, 8, 8), [1, 2, 3, 255]);
    assert_eq!(pixel(&data, 18, 8), [1, 2, 3, 255]);
    assert_eq!(pixel(&data, 26, 8), PAPER);
}

#[test]
fn texts_of_pills_take_the_color_of_their_state() {
    let mut fonts = box_fonts();
    let mut cache = SwashCache::new();
    let mut entry = WorkspaceEntry {
        handle: 1,
        id: 1,
        name: String::new(),
        active: true,
        hit_rect: Rect { x: -8, y: 0, w: 20, h: 30 },
    };
    let mut data = paper();
    draw_text(&mut data, 30, 30, &entry, &mut text("A"), &mut fonts, &mut cache);
    assert_eq!(pixel(&data, 9, 9), [0x2e, 0x1e, 0x1e, 0xff]);
    assert_eq!(pixel(&data, 2, 9), PAPER);
    entry.active = false;
    draw_text(&mut data, 30, 30, &entry, &mut text("A"), &mut fonts, &mut cache);
    assert_eq!(pixel(&data, 9, 9), [0xf5, 0xe0, 0xdc, 0xff]);
    let ink = Ink { r: 1, g: 2, b: 3, a: 255 };
    draw_dots(&mut data, 30, 30, 15, 15, ink, &mut text("A"), &mut fonts, &mut cache);
    assert_eq!(pixel(&data, 20, 20), [3, 2, 1, 255]);
}

#[test]
fn colors_of_texts_are_given_from_blue_to_red() {
    assert_eq!(text_ink(&[1, 2, 3, 4]), Ink { r: 3, g: 2, b: 1, a: 4 });
    assert_eq!(label_ink(&[1, 2, 3, 4]), Ink { r: 3, g: 2, b: 1, a: 255 });
    assert_eq!(pill_ink(true), Ink { r: 0x1e, g: 0x1e, b: 0x2e, a: 0xff });
    assert_eq!(pill_ink(false), Ink { r: 0xdc, g: 0xe0, b: 0xf5, a: 0xff });
}

#[test]
fn fonts_are_looked_for_before_a_text_is_drawn() {
    assert!(find_fonts(&text("A"), &mut box_fonts()));
    let mut fonts = no_fonts();
    assert!(!find_fonts(&text("A"), &mut fonts));
    let mut cache = SwashCache::new();
    let mut data = paper();
    draw_text_onto(&mut data, 30, 30, 4, 5, &[0; 4], &mut text("A"), &mut fonts, &mut cache);
    draw_label_text(&mut data, 30, 30, 3, &[0; 4], &mut text("A"), &mut fonts, &mut cache);
    assert_eq!(data, paper());
}

#[test]
fn paragraphs_of_a_line_need_one_direction() {
    let one = |line: &str| has_one_direction(&line.chars().collect::<Vec<char>>());
    assert!(one("") && one("abc") && one("a\u{2029}b\u{85}c\u{1c}"));
    assert!(one("\u{5d0}\u{5d1} a"));
    assert!(!one("a\u{2029}\u{5d0}"));
    assert!(!one("\u{5d0}\na"));
    assert!(one("\u{6f22}\u{2029}\u{5b57}\u{fe0f}"));
    assert!(find_fonts(&text("A\u{6f22}\u{2029}\u{5b57}"), &mut box_fonts()));
    assert!(!find_fonts(&text("a\u{2029}\u{5d0}"), &mut box_fonts()));
}

#[test]
fn texts_in_several_paragraphs_are_drawn() {
    let mut fonts = box_fonts();
    let mut cache = SwashCache::new();
    let mut data = paper();
    let fg = [10, 20, 30, 255];
    let line = "A\u{2029}\u{6f22}";
    draw_text_onto(&mut data, 30, 30, 4, 5, &fg, &mut text(line), &mut fonts, &mut cache);
    assert_eq!(pixel(&data, 9, 10), fg);
}

#[test]
fn levels_are_counted_where_they_open() {
    let count = |line: &str| count_levels(&line.chars().collect::<Vec<char>>());
    assert_eq!(count(""), 0);
    assert_eq!(count("a\u{202c}\u{2069}\u{200f}"), 0);
    assert_eq!(count("\u{202a}\u{202b}\u{202d}\u{202e}a\u{2066}\u{2067}\u{2068}"), 7);
}

#[test]
fn texts_that_are_nested_too_deep_are_not_drawn() {
    let mut fonts = box_fonts();
    let mut cache = SwashCache::new();
    let fg = [10, 20, 30, 255];
    for opening in ["\u{202b}", "\u{202a}", "\u{2067}"] {
        let deep = opening.repeat(62) + "A";
        assert!(!find_fonts(&text(&deep), &mut fonts));
        let mut data = paper();
        draw_text_onto(&mut data, 30, 30, 4, 5, &fg, &mut text(&deep), &mut fonts, &mut cache);
        draw_label_text(&mut data, 30, 30, 3, &[0; 4], &mut text(&deep), &mut fonts, &mut cache);
        assert_eq!(data, paper());
        let nested = opening.repeat(61) + "A";
        assert!(find_fonts(&text(&nested), &mut fonts));
        draw_text_onto(&mut data, 30, 30, 4, 5, &fg, &mut text(&nested), &mut fonts, &mut cache);
        assert!(data != paper());
    }
}

#[test]
fn another_text_is_drawn_otherwise() {
    let mut fonts = box_fonts();
    let mut cache = SwashCache::new();
    let fg = [10, 20, 30, 255];
    let mut one = paper();
    draw_text_onto(&mut one, 30, 30, 0, 0, &fg, &mut text("A"), &mut fonts, &mut cache);
    let mut two = paper();
    draw_text_onto(&mut two, 30, 30, 0, 0, &fg, &mut text("AA"), &mut fonts, &mut cache);
    assert_eq!(pixel(&one, 15, 5), PAPER);
    assert_eq!(pixel(&two, 15, 5), fg);
}
