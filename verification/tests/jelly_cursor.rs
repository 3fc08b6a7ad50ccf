//! The jelly cursor: colors and the state of its animation.

use emskin::effects::jelly_cursor::{
    lighter_bgra, parse_hex_color, AnimState, JellyCursor, Progress, COLOR_ALPHA, DURATION,
};
use emskin::geometry::Rect;

const MILLI: u64 = 1_000_000;

fn rect(x: i32, y: i32, w: i32, h: i32) -> Rect {
    Rect { x, y, w, h }
}

#[test]
fn parses_hex_colors() {
    assert_eq!(parse_hex_color("#cba6f7"), Some([0xf7, 0xa6, 0xcb, COLOR_ALPHA]));
    assert_eq!(parse_hex_color("cba6f7"), Some([0xf7, 0xa6, 0xcb, COLOR_ALPHA]));
    assert_eq!(parse_hex_color("#cba6f780"), Some([0xf7, 0xa6, 0xcb, 0x80]));
    assert_eq!(parse_hex_color("not-a-color"), None);
    assert_eq!(parse_hex_color("#abc"), None);
}

#[test]
fn colors_may_be_surrounded_by_white_space() {
    assert_eq!(parse_hex_color("  #CBA6F7 \n"), Some([0xf7, 0xa6, 0xcb, COLOR_ALPHA]));
    assert_eq!(parse_hex_color("\tcba6f780"), Some([0xf7, 0xa6, 0xcb, 0x80]));
}

#[test]
fn malformed_colors_are_not_parsed() {
    assert_eq!(parse_hex_color("##CBA6F7"), None);
    assert_eq!(parse_hex_color("# CBA6F7"), None);
    assert_eq!(parse_hex_color("+1+2+3"), None);
    assert_eq!(parse_hex_color("a\u{e9}abc"), None);
    assert_eq!(parse_hex_color(""), None);
    assert_eq!(parse_hex_color("-1-2-3"), None);
}

#[test]
fn lighter_moves_halfway_to_white() {
    let lit = lighter_bgra([0, 0, 0, 0xff]);
    assert_eq!(lit[0], 127);
    assert_eq!(lit[3], 0xff);
}

#[test]
fn lighter_keeps_white() {
    assert_eq!(lighter_bgra([255, 254, 1, 7]), [255, 254, 128, 7]);
}

#[test]
fn set_color_hex_updates_solid_and_light() {
    let mut jc = JellyCursor::new();
    jc.set_color_hex("#000000");
    assert_eq!(jc.color_solid, [0, 0, 0, COLOR_ALPHA]);
    assert_eq!(jc.color_light, lighter_bgra([0, 0, 0, COLOR_ALPHA]));
}

#[test]
fn malformed_colors_are_ignored() {
    let mut jc = JellyCursor::new();
    jc.set_color_hex("#zzz");
    assert_eq!(jc.color_solid, [0xeb, 0xdc, 0x89, 0xc8]);
}

#[test]
fn update_with_none_sets_idle() {
    let mut jc = JellyCursor::new();
    jc.update(Some(rect(10, 10, 8, 16)), 0);
    assert!(matches!(jc.state, AnimState::Primed(_)));
    jc.update(None, 50 * MILLI);
    assert!(matches!(jc.state, AnimState::Idle));
    // Re-entry after Idle: no animation.
    jc.update(Some(rect(30, 30, 8, 16)), 100 * MILLI);
    assert!(matches!(jc.state, AnimState::Primed(_)));
}

#[test]
fn update_with_changed_rect_seeds_animation() {
    let mut jc = JellyCursor::new();
    jc.update(Some(rect(0, 0, 8, 16)), 0);
    jc.update(Some(rect(20, 0, 8, 16)), 10 * MILLI);
    assert!(matches!(jc.state, AnimState::Animating { .. }));
}

#[test]
fn update_mid_flight_retargets_without_stalling() {
    let mut jc = JellyCursor::new();
    jc.update(Some(rect(0, 0, 8, 16)), 0);
    jc.update(Some(rect(20, 0, 8, 16)), 10 * MILLI);
    jc.update(Some(rect(40, 0, 8, 16)), 15 * MILLI);
    match jc.state {
        AnimState::Animating { from, to, .. } => {
            assert_eq!(from.x, 20, "from = {:?}", from);
            assert_eq!(to.x, 40, "to = {:?}", to);
        }
        _ => panic!("expected Animating"),
    }
}

#[test]
fn the_same_place_again_changes_nothing() {
    let mut jc = JellyCursor::new();
    jc.update(Some(rect(0, 0, 8, 16)), 0);
    jc.update(Some(rect(20, 0, 8, 16)), 10);
    let before = jc.state;
    jc.update(Some(rect(20, 0, 8, 16)), 99);
    assert_eq!(jc.state, before);
}

#[test]
fn a_movement_ends_after_its_time() {
    let mut jc = JellyCursor::new();
    jc.update(Some(rect(0, 0, 8, 16)), 0);
    jc.update(Some(rect(20, 0, 8, 16)), 10);
    assert_eq!(
        jc.progress(10 + DURATION / 2),
        Some(Progress { elapsed: DURATION / 2, from: rect(0, 0, 8, 16), to: rect(20, 0, 8, 16) })
    );
    assert_eq!(jc.progress(10 + DURATION), None);
    assert!(!jc.pre_paint(9 + DURATION));
    assert!(jc.post_paint());
    assert!(jc.pre_paint(10 + DURATION));
    assert_eq!(jc.state, AnimState::Primed(rect(20, 0, 8, 16)));
    assert!(!jc.post_paint());
}

#[test]
fn turned_off_it_ignores_the_caret() {
    let mut jc = JellyCursor::new();
    jc.update(Some(rect(0, 0, 8, 16)), 0);
    jc.set_enabled(false);
    assert_eq!(jc.state, AnimState::Idle);
    jc.update(Some(rect(0, 0, 8, 16)), 1);
    assert_eq!(jc.state, AnimState::Idle);
}
