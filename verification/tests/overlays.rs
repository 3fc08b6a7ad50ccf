//! Overlays: their order, the skeleton, the workspace buttons, splash and trail.

use emskin::effects::chain::{EffectChain, Report};
use emskin::effects::cursor_trail::{CursorTrail, TrailStep};
use emskin::effects::skeleton::{
    color_for, render_text, Corners, PartColor, PlacedLabel, SkeletonOverlay, SkeletonRect,
    FLASH_DURATION,
};
use emskin::effects::jelly_cursor::AnimState;
use emskin::effects::splash::{
    SplashLabel, SplashLayout, SplashPhase, SplashScreen, SplashSolid,
};
use emskin::effects::state::{EffectsState, Overlay};
use emskin::effects::workspace_bar::{
    button_text, pill_metrics, title_size, BarItem, BarLabel, BarPicture, WorkspaceBar,
};
use emskin::geometry::{Point, Rect, Size};

fn names<'a>(chain: &EffectChain<&'a str>) -> Vec<&'a str> {
    chain.links.iter().map(|l| l.effect).collect()
}

#[test]
fn higher_overlays_come_first_and_equals_keep_their_order() {
    let mut chain = EffectChain::new();
    chain.register("skeleton", 85);
    chain.register("splash", 95);
    chain.register("bar", 90);
    chain.register("recorder", 90);
    assert_eq!(names(&chain), ["splash", "bar", "recorder", "skeleton"]);
    assert_eq!(chain.active(&[true, false, false, true]), [0, 3]);
}

#[test]
fn overlays_that_are_done_leave() {
    let mut chain = EffectChain::new();
    chain.register("splash", 95);
    chain.register("jelly", 77);
    let quiet = Report { active: true, wants_frame: false, done: false };
    let over = Report { active: true, wants_frame: false, done: true };
    let hidden = Report { active: false, wants_frame: true, done: false };
    assert!(!chain.post_paint(&[over, hidden]).want_redraw);
    assert_eq!(names(&chain), ["jelly"]);
    assert!(!chain.post_paint(&[quiet]).want_redraw);
    assert!(chain.post_paint(&[Report { wants_frame: true, ..quiet }]).want_redraw);
}

fn part(kind: &str, label: &str, x: i32, y: i32, w: i32, h: i32) -> SkeletonRect {
    SkeletonRect {
        kind: kind.to_string(),
        label: label.to_string(),
        rect: Rect { x, y, w, h },
        selected: false,
    }
}

#[test]
fn parts_have_the_color_of_their_kind() {
    assert_eq!(color_for("frame", false), PartColor::Frame);
    assert_eq!(color_for("tab-line", false), PartColor::Header);
    assert_eq!(color_for("mini-buffer", false), PartColor::Echo);
    assert_eq!(color_for("something", false), PartColor::Other);
    assert_eq!(color_for("frame", true), PartColor::Selected);
}

#[test]
fn labels_tell_kind_place_and_size() {
    assert_eq!(render_text(&part("window", "", 1, -2, 30, 40)), "window (1,-2) 30x40");
    assert_eq!(render_text(&part("window", "*a*", 0, 0, 3, 4)), "window *a* (0,0) 3x4");
}

#[test]
fn nested_parts_are_drawn_further_in() {
    let mut overlay = SkeletonOverlay::new();
    let stale = overlay.set_rects(vec![
        part("frame", "", 0, 0, 800, 600),
        part("window", "", 0, 0, 400, 600),
        part("mode-line", "", 0, 580, 400, 20),
        part("header-line", "", 0, 0, 400, 3),
    ]);
    assert_eq!(stale, [0, 1, 2, 3]);
    let drawn: Vec<Rect> = overlay.entries.iter().map(|e| e.draw_rect).collect();
    assert_eq!(drawn[0], Rect { x: 0, y: 0, w: 800, h: 600 });
    assert_eq!(drawn[1], Rect { x: 2, y: 2, w: 396, h: 596 });
    assert_eq!(drawn[2], Rect { x: 4, y: 584, w: 392, h: 12 });
    // A third of three pixels is all that a thin part can give.
    assert_eq!(drawn[3], Rect { x: 1, y: 1, w: 398, h: 1 });
}

#[test]
fn insets_are_limited() {
    let mut overlay = SkeletonOverlay::new();
    let nested: Vec<SkeletonRect> = (0..7).map(|_| part("chrome", "", 0, 0, 100, 100)).collect();
    overlay.set_rects(nested);
    assert_eq!(overlay.entries[6].draw_rect, Rect { x: 8, y: 8, w: 84, h: 84 });
}

#[test]
fn parts_on_their_own_may_reach_beyond_the_range() {
    let mut overlay = SkeletonOverlay::new();
    overlay.set_rects(vec![
        part("frame", "", 0, 0, 8, 6),
        part("window", "", i32::MAX, i32::MAX, 30, 40),
    ]);
    assert_eq!(overlay.entries[1].draw_rect, Rect { x: i32::MAX, y: i32::MAX, w: 30, h: 40 });
}

#[test]
fn unchanged_labels_are_not_rendered_again() {
    let mut overlay = SkeletonOverlay::new();
    overlay.set_rects(vec![part("frame", "", 0, 0, 8, 6), part("window", "", 0, 0, 8, 6)]);
    let stale = overlay.set_rects(vec![part("frame", "", 0, 0, 8, 6), part("window", "", 0, 0, 8, 7)]);
    assert_eq!(stale, [1]);
    let mut selected = part("frame", "", 0, 0, 8, 6);
    selected.selected = true;
    assert_eq!(overlay.set_rects(vec![selected]), [0]);
    assert_eq!(overlay.entries.len(), 1);
}

fn corners(tl: (i32, i32), br: (i32, i32)) -> Corners {
    Corners { tl: Point { x: tl.0, y: tl.1 }, br: Point { x: br.0, y: br.1 } }
}

#[test]
fn a_click_on_a_label_makes_its_part_flash() {
    let mut overlay = SkeletonOverlay::new();
    overlay.set_rects(vec![part("frame", "", 0, 0, 8, 6), part("window", "", 0, 0, 8, 6)]);
    overlay.label_rendered(0, Size { w: 50, h: 20 });
    overlay.label_rendered(1, Size { w: 60, h: 20 });
    overlay.set_enabled(true);
    let places = [corners((0, 0), (8, 6)), corners((1, 1), (7, 5))];
    let scene = overlay.build_elements(0, &places);
    assert_eq!(
        scene.labels,
        [
            PlacedLabel { entry: 0, at: Point { x: 12, y: 12 } },
            PlacedLabel { entry: 1, at: Point { x: 12, y: 33 } },
        ]
    );
    assert_eq!(scene.solids.len(), 8);
    assert_eq!(scene.solids[1].rect, Rect { x: 0, y: 5, w: 8, h: 1 });
    assert_eq!(scene.solids[3].rect, Rect { x: 7, y: 0, w: 1, h: 6 });

    assert_eq!(overlay.click_at(Point { x: 20, y: 33 }, 100), Some(1));
    assert_eq!(overlay.click_at(Point { x: 20, y: 53 }, 100), None);
    assert_eq!(overlay.entries[1].flash_until, Some(800_000_100));
    assert_eq!(overlay.entries[0].flash_until, None);
    let flashing = overlay.build_elements(101, &places);
    assert_eq!(flashing.solids.len(), 9);
    assert_eq!(flashing.solids[8].rect, Rect { x: 1, y: 1, w: 6, h: 4 });
    assert_eq!(flashing.solids[8].edge, None);
    let last = overlay.build_elements(99 + FLASH_DURATION, &places);
    assert_eq!(last.solids.len(), 9);
    let over = overlay.build_elements(100 + FLASH_DURATION, &places);
    assert_eq!(over.solids.len(), 8);

    overlay.set_enabled(false);
    assert_eq!(overlay.click_at(Point { x: 20, y: 33 }, 100), None);
    assert!(overlay.build_elements(0, &places).solids.is_empty());
}

fn item(id: u64, name: &str) -> BarItem {
    BarItem { id, name: name.to_string() }
}

#[test]
fn the_bar_shows_from_two_workspaces_on() {
    let mut bar = WorkspaceBar::new();
    let first = bar.update(&[item(1, "one")], 1);
    assert_eq!(first.buttons, [0]);
    assert!(first.title && !first.bar_changed);
    assert!(!bar.visible());
    assert_eq!(bar.height(), 0);
    let second = bar.update(&[item(1, "one"), item(2, "two")], 1);
    assert_eq!(second.buttons, [1]);
    assert!(second.bar_changed && !second.title);
    assert_eq!(bar.height(), 28);
    let switched = bar.update(&[item(1, "one"), item(2, "two")], 2);
    assert_eq!(switched.buttons, [0, 1]);
    assert!(switched.title);
    assert_eq!(bar.last_title, "two");
}

#[test]
fn buttons_stand_side_by_side_and_can_be_hit() {
    let mut bar = WorkspaceBar::new();
    bar.update(&[item(1, ""), item(7, "")], 7);
    bar.button_rendered(0, pill_metrics(Size { w: 8, h: 15 }, false).size);
    bar.button_rendered(1, pill_metrics(Size { w: 8, h: 15 }, true).size);
    bar.place_buttons();
    assert_eq!(bar.buttons[0].hit_rect, Rect { x: 6, y: 4, w: 12, h: 20 });
    assert_eq!(bar.buttons[1].hit_rect, Rect { x: 24, y: 4, w: 20, h: 20 });
    assert_eq!(bar.click_at(Point { x: 17, y: 10 }), Some(1));
    assert_eq!(bar.click_at(Point { x: 18, y: 10 }), None);
    assert_eq!(bar.click_at(Point { x: 43, y: 23 }), Some(7));
    assert_eq!(bar.click_at(Point { x: 43, y: 24 }), None);
}

#[test]
fn pills_and_titles_have_room_around_their_text() {
    let active = pill_metrics(Size { w: 8, h: 15 }, true);
    assert_eq!(active.size, Size { w: 20, h: 20 });
    assert_eq!(active.text_at, Point { x: 6, y: 2 });
    assert_eq!(pill_metrics(Size { w: 8, h: 25 }, false).text_at, Point { x: 2, y: -2 });
    assert_eq!(title_size(Size { w: 30, h: 14 }), Size { w: 32, h: 16 });
    assert_eq!(button_text(12), "12");
}

#[test]
fn an_empty_title_has_no_picture() {
    let mut bar = WorkspaceBar::new();
    assert!(bar.update(&[item(1, "one")], 1).title);
    bar.title_rendered(Size { w: 30, h: 16 });
    assert!(!bar.update(&[item(1, "")], 1).title);
    assert_eq!(bar.title_size, Size { w: 0, h: 0 });
}

#[test]
fn the_bar_stands_along_the_top_with_its_title_in_the_middle() {
    let mut bar = WorkspaceBar::new();
    bar.update(&[item(1, ""), item(7, "seven")], 7);
    bar.button_rendered(0, pill_metrics(Size { w: 8, h: 15 }, false).size);
    bar.button_rendered(1, pill_metrics(Size { w: 8, h: 15 }, true).size);
    bar.title_rendered(Size { w: 31, h: 17 });
    bar.place_buttons();
    let scene = bar.build_elements(Size { w: 800, h: 600 });
    assert_eq!(
        scene.labels,
        [
            BarLabel { picture: BarPicture::Button(0), x2: 12, y2: 8 },
            BarLabel { picture: BarPicture::Button(1), x2: 48, y2: 8 },
            BarLabel { picture: BarPicture::Title, x2: 769, y2: 11 },
        ]
    );
    assert_eq!(
        scene.solids,
        [Rect { x: 0, y: 0, w: 800, h: 28 }, Rect { x: 0, y: 27, w: 800, h: 1 }]
    );
    bar.update(&[item(1, "")], 1);
    let hidden = bar.build_elements(Size { w: 800, h: 600 });
    assert!(hidden.labels.is_empty() && hidden.solids.is_empty());
}

#[test]
fn the_splash_shows_the_parts_that_have_begun() {
    let mut splash = SplashScreen::new();
    let letters: Vec<Size> = (0..6).map(|i| Size { w: 10 + i, h: 60 + i }).collect();
    splash.rebuild(56, letters, Size { w: 40, h: 20 });
    let output = Size { w: 1000, h: 800 };
    let ground = SplashSolid::Ground(Rect { x: 0, y: 0, w: 1000, h: 800 });
    let first = splash.build_elements(500, output).unwrap();
    assert_eq!(
        first.labels,
        [SplashLabel::Letter { index: 0, at: Point { x: 462, y: 344 }, since: 0 }]
    );
    assert_eq!(first.solids, [ground]);

    let later = splash.build_elements(1_100_000_500, output).unwrap();
    assert_eq!(later.labels.len(), 7);
    assert_eq!(
        later.labels[2],
        SplashLabel::Letter { index: 2, at: Point { x: 483, y: 343 }, since: 860_000_000 }
    );
    assert_eq!(
        later.labels[6],
        SplashLabel::Subtitle { at: Point { x: 480, y: 423 }, since: Some(250_000_000) }
    );
    assert_eq!(
        later.solids,
        [
            ground,
            SplashSolid::Line { at: Point { x: 462, y: 415 }, full: 75, since: 400_000_000 },
            SplashSolid::Bar { at: Point { x: 462, y: 455 }, full: 75 },
        ]
    );

    splash.dismiss(1_100_000_500);
    let fading = splash.build_elements(1_100_000_600, output).unwrap();
    assert_eq!(
        fading.labels[6],
        SplashLabel::Subtitle { at: Point { x: 480, y: 423 }, since: None }
    );
    assert_eq!(fading.solids, [ground]);
    assert!(splash.build_elements(1_500_000_500, output).is_none());
    assert!(splash.is_done());
}

#[test]
fn the_splash_starts_with_its_first_frame_and_fades_once() {
    let mut splash = SplashScreen::new();
    assert_eq!(splash.begin_frame(1000), Some(SplashPhase { elapsed: 0, fading: None }));
    splash.dismiss(5000);
    splash.dismiss(9000);
    assert_eq!(splash.dismiss_time, Some(5000));
    assert_eq!(
        splash.begin_frame(400_004_999),
        Some(SplashPhase { elapsed: 400_003_999, fading: Some(399_999_999) })
    );
    assert_eq!(splash.begin_frame(400_005_000), None);
    assert!(splash.is_done());
    assert_eq!(splash.begin_frame(400_005_001), None);
}

#[test]
fn the_parts_of_the_splash_begin_one_after_the_other() {
    let at = |ms: u64| SplashPhase { elapsed: ms * 1_000_000, fading: None };
    assert!(at(0).shows_letter(0) && !at(0).shows_letter(1));
    assert!(at(600).shows_letter(5) && !at(599).shows_letter(5));
    assert!(at(701).shows_line() && !at(700).shows_line());
    assert!(at(850).shows_subtitle() && !at(849).shows_subtitle());
    assert!(at(1071).shows_bar() && !at(1070).shows_bar());
    let fading = SplashPhase { elapsed: 2_000_000_000, fading: Some(1) };
    assert!(!fading.shows_line() && !fading.shows_bar() && fading.shows_subtitle());
}

#[test]
fn the_splash_stands_in_the_middle() {
    let mut splash = SplashScreen::new();
    assert!(splash.needs_rebuild(56));
    let letters: Vec<Size> = (0..6).map(|i| Size { w: 10 + i, h: 60 + i }).collect();
    splash.rebuild(56, letters, Size { w: 40, h: 20 });
    assert!(!splash.needs_rebuild(56));
    assert_eq!((splash.total_word_w, splash.letter_h), (75, 65));
    let layout = splash.layout(Size { w: 1000, h: 800 });
    assert_eq!(
        layout,
        SplashLayout {
            word: Point { x: 462, y: 342 },
            line_y: 415,
            subtitle: Point { x: 480, y: 423 },
            bar_y: 455,
        }
    );
    assert_eq!(splash.letter_place(layout, 0), Point { x: 462, y: 344 });
    assert_eq!(splash.letter_place(layout, 2), Point { x: 462 + 21, y: 343 });
    // On a screen that is too small it hangs over evenly, rounded towards zero.
    assert_eq!(splash.layout(Size { w: 0, h: 0 }).word, Point { x: -37, y: -58 });
}

#[test]
fn the_trail_gathers_follows_and_rests() {
    let mut trail = CursorTrail::new();
    trail.set_enabled(true);
    assert_eq!(trail.pre_paint(true, 10), TrailStep::Gather);
    assert!(trail.shown(true) && !trail.shown(false) && trail.post_paint());
    assert_eq!(trail.pre_paint(true, 30), TrailStep::Follow { dt: 20 });
    trail.followed(false);
    assert!(!trail.post_paint());
    assert_eq!(trail.pre_paint(true, 30), TrailStep::Gather);
    assert_eq!(trail.pre_paint(false, 40), TrailStep::Rest);
    assert_eq!(trail.last_time, None);
    trail.set_enabled(false);
    assert!(trail.settled);
}

#[test]
fn the_splash_lies_on_top_and_the_trail_below() {
    let effects = EffectsState::default();
    let order: Vec<(Overlay, u8)> =
        effects.chain.links.iter().map(|l| (l.effect, l.position)).collect();
    assert_eq!(
        order,
        [
            (Overlay::Splash, 95),
            (Overlay::Recorder, 90),
            (Overlay::Skeleton, 85),
            (Overlay::Measure, 80),
            (Overlay::JellyCursor, 77),
            (Overlay::CursorTrail, 75),
        ]
    );
}

#[test]
fn another_workspace_starts_without_the_overlays_of_the_last() {
    let mut effects = EffectsState::default();
    effects.skeleton.set_enabled(true);
    effects.skeleton.set_rects(vec![part("frame", "", 0, 0, 8, 6)]);
    effects.jelly_cursor.update(Some(Rect { x: 1, y: 2, w: 3, h: 4 }), 5);
    effects.measure.set_enabled(true);
    effects.reset_on_workspace_switch(9);
    assert!(!effects.skeleton.enabled && effects.skeleton.entries.is_empty());
    assert_eq!(effects.jelly_cursor.state, AnimState::Idle);
    assert!(effects.measure.enabled);
}

fn said(active: bool, wants_frame: bool, done: bool) -> Report {
    Report { active, wants_frame, done }
}

#[test]
fn overlays_report_whether_they_run() {
    let mut effects = EffectsState::default();
    assert_eq!(
        effects.reports(),
        [
            said(true, true, false),
            said(false, false, false),
            said(false, false, false),
            said(false, false, false),
            said(true, false, false),
            said(false, false, false),
        ]
    );
    effects.splash.done = true;
    effects.recorder_overlay.set_active(Some(3));
    effects.skeleton.set_enabled(true);
    effects.measure.set_enabled(true);
    effects.cursor_trail.set_enabled(true);
    effects.cursor_trail.followed(true);
    effects.jelly_cursor.update(Some(Rect { x: 1, y: 2, w: 3, h: 4 }), 5);
    effects.jelly_cursor.update(Some(Rect { x: 90, y: 2, w: 3, h: 4 }), 6);
    assert_eq!(effects.report(Overlay::Splash), said(false, false, true));
    assert_eq!(effects.report(Overlay::Recorder), said(true, true, false));
    assert_eq!(effects.report(Overlay::Skeleton), said(true, false, false));
    assert_eq!(effects.report(Overlay::Measure), said(true, false, false));
    assert_eq!(effects.report(Overlay::JellyCursor), said(true, true, false));
    assert_eq!(effects.report(Overlay::CursorTrail), said(true, true, false));
    let reports = effects.reports();
    assert!(effects.chain.post_paint(&reports).want_redraw);
    assert_eq!(effects.chain.links.len(), 5);
}
