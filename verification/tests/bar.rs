//! The workspace bar as a client.

use emskin::bar::{
    display_names, draw_background, draw_pill, draw_text, parse_id, BarAction, BarState,
    HandleEvent, SurfaceSize, WorkspaceEntry,
};
use emskin::geometry::{Point, Rect};

#[test]
fn identifiers_are_numbers_behind_the_last_hyphen() {
    assert_eq!(parse_id("emskin-ws-3"), 3);
    assert_eq!(parse_id("12"), 12);
    assert_eq!(parse_id("a-+7"), 7);
    assert_eq!(parse_id("a-007"), 7);
    assert_eq!(parse_id("emskin-ws-"), 0);
    assert_eq!(parse_id("emskin-ws-x"), 0);
    assert_eq!(parse_id(""), 0);
    assert_eq!(parse_id("w-+"), 0);
    assert_eq!(parse_id("w-18446744073709551615"), u64::MAX);
    assert_eq!(parse_id("w-18446744073709551616"), 0);
    assert_eq!(parse_id("w-99999999999999999999999"), 0);
}

fn announce(bar: &mut BarState, handle: u64, id: &str, name: &str) {
    bar.workspace(handle);
    bar.handle_event(handle, HandleEvent::Id(id.to_string()));
    bar.handle_event(handle, HandleEvent::Name(name.to_string()));
}

fn ids(bar: &BarState) -> Vec<u64> {
    bar.workspaces.iter().map(|w| w.id).collect()
}

#[test]
fn a_batch_joins_the_workspaces_in_order() {
    let mut bar = BarState::new();
    announce(&mut bar, 10, "emskin-ws-3", "c");
    announce(&mut bar, 11, "emskin-ws-1", "a");
    assert!(bar.workspaces.is_empty());
    assert_eq!(bar.done(), BarAction::Create);
    assert_eq!(ids(&bar), [1, 3]);
    announce(&mut bar, 12, "emskin-ws-2", "b");
    announce(&mut bar, 13, "emskin-ws-2", "b2");
    assert_eq!(bar.done(), BarAction::Nothing);
    assert_eq!(ids(&bar), [1, 2, 2, 3]);
    let handles: Vec<u64> = bar.workspaces.iter().map(|w| w.handle).collect();
    assert_eq!(handles, [11, 12, 13, 10]);
}

#[test]
fn the_bar_follows_the_number_of_workspaces() {
    let mut bar = BarState::new();
    announce(&mut bar, 1, "w-1", "");
    assert_eq!(bar.done(), BarAction::Nothing);
    announce(&mut bar, 2, "w-2", "");
    assert_eq!(bar.done(), BarAction::Create);
    assert!(bar.layer && !bar.configured_once);
    bar.configure(0, 0);
    assert_eq!(bar.surface_size, Some(SurfaceSize { w: 1, h: 28 }));
    assert_eq!(bar.done(), BarAction::Draw);
    assert!(bar.removed(2));
    assert!(!bar.removed(2));
    assert_eq!(bar.done(), BarAction::Destroy);
    assert_eq!(bar.surface_size, None);
    assert!(!bar.layer);
}

#[test]
fn a_closed_surface_is_created_again() {
    let mut bar = BarState::new();
    announce(&mut bar, 1, "w-1", "");
    announce(&mut bar, 2, "w-2", "");
    bar.done();
    bar.configure(800, 28);
    bar.closed();
    assert_eq!(bar.done(), BarAction::Create);
}

#[test]
fn the_end_of_the_protocol_ends_the_bar() {
    let mut bar = BarState::new();
    announce(&mut bar, 1, "w-1", "");
    announce(&mut bar, 2, "w-2", "");
    bar.done();
    assert_eq!(bar.finished(), BarAction::Destroy);
    assert!(bar.exit_requested());
    assert!(bar.workspaces.is_empty());
}

#[test]
fn events_reach_pending_and_settled_workspaces() {
    let mut bar = BarState::new();
    announce(&mut bar, 1, "w-1", "old");
    bar.done();
    bar.handle_event(1, HandleEvent::Name("new".to_string()));
    bar.handle_event(1, HandleEvent::Active(true));
    bar.handle_event(99, HandleEvent::Active(true));
    assert_eq!(bar.workspaces[0].name, "new");
    assert!(bar.workspaces[0].active);
    bar.workspace(5);
    bar.handle_event(5, HandleEvent::Name("five".to_string()));
    assert_eq!(bar.pending_workspaces[0].name, "five");
    assert!(bar.removed(5));
    assert!(bar.pending_workspaces.is_empty());
}

fn entry(id: u64, name: &str, active: bool) -> WorkspaceEntry {
    WorkspaceEntry {
        handle: id,
        id,
        name: name.to_string(),
        active,
        hit_rect: Rect { x: 0, y: 0, w: 0, h: 0 },
    }
}

#[test]
fn nameless_workspaces_show_their_number() {
    assert_eq!(display_names(&[entry(3, "", false), entry(4, "mail", true)]), ["WS 3", "mail"]);
}

#[test]
fn pills_stand_side_by_side_and_can_be_hit() {
    let mut bar = BarState::new();
    announce(&mut bar, 1, "w-1", "a");
    announce(&mut bar, 2, "w-2", "b");
    bar.done();
    bar.place_pills(&[10, 20], 28);
    assert_eq!(bar.workspaces[0].hit_rect, Rect { x: 8, y: 3, w: 34, h: 22 });
    assert_eq!(bar.workspaces[1].hit_rect, Rect { x: 48, y: 3, w: 44, h: 22 });
    assert_eq!(bar.hit_test(Point { x: 41, y: 0 }), Some(1));
    assert_eq!(bar.hit_test(Point { x: 42, y: 10 }), None);
    assert_eq!(bar.hit_test(Point { x: 48, y: 34 }), Some(2));
    assert_eq!(bar.hit_test(Point { x: 48, y: 35 }), None);
}

#[test]
fn the_active_pill_stands_out() {
    let mut canvas = vec![0u8; 4 * 4 * 2];
    draw_background(&mut canvas);
    let mut e = entry(1, "", true);
    e.hit_rect = Rect { x: 1, y: 0, w: 2, h: 1 };
    draw_pill(&mut canvas, 4, 2, &e);
    assert_eq!(&canvas[0..12], &[0x2e, 0x1e, 0x1e, 0xff, 0xfa, 0xb4, 0x89, 0xff, 0xfa, 0xb4, 0x89, 0xff]);
    e.active = false;
    draw_pill(&mut canvas, 4, 2, &e);
    assert_eq!(&canvas[4..8], &[0x45, 0x34, 0x31, 0xff]);
}

#[test]
fn a_pill_without_text_stays_plain() {
    let mut fonts = cosmic_text::FontSystem::new();
    let mut cache = cosmic_text::SwashCache::new();
    let mut buffer = cosmic_text::Buffer::new(&mut fonts, cosmic_text::Metrics::new(13.0, 16.0));
    let mut canvas = vec![7u8; 4 * 4 * 4];
    draw_text(&mut canvas, 4, 4, &entry(1, "", false), &mut buffer, &mut fonts, &mut cache);
    assert_eq!(canvas, vec![7u8; 4 * 4 * 4]);
}
