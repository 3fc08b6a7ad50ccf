//! Cursors of X clients.
//!
//! The host shows the cursor; its icon follows from the name that the X server
//! gives the current one.

use crate::text::str_eq;
use vstd::prelude::*;

verus! {

/// An icon that the host can show.
#[derive(Debug, Clone, Copy, PartialEq, Eq, Structural)]
pub enum CursorIcon {
    Default,
    Text,
    Pointer,
    EwResize,
    NsResize,
    NwseResize,
    NeswResize,
    WResize,
    EResize,
    NResize,
    SResize,
    Wait,
    Progress,
    Crosshair,
    Move,
    NotAllowed,
    Help,
    ContextMenu,
    Cell,
    Alias,
    Copy,
    NoDrop,
}

/// The icon for an X cursor name. Names without an icon of their own, those of
/// the plain arrow among them, get the default one.
pub open spec fn icon_for(name: Seq<char>) -> CursorIcon {
    if name == "xterm"@ || name == "text"@ || name == "ibeam"@ {
        CursorIcon::Text
    } else if name == "hand"@ || name == "hand1"@ || name == "hand2"@ || name == "pointer"@ || name == "pointing_hand"@ {
        CursorIcon::Pointer
    } else if name == "sb_h_double_arrow"@ || name == "h_double_arrow"@ || name == "ew-resize"@ || name == "col-resize"@ {
        CursorIcon::EwResize
    } else if name == "sb_v_double_arrow"@ || name == "v_double_arrow"@ || name == "ns-resize"@ || name == "row-resize"@ {
        CursorIcon::NsResize
    } else if name == "top_left_corner"@ || name == "nw-resize"@ || name == "nwse-resize"@ || name == "size_fdiag"@ {
        CursorIcon::NwseResize
    } else if name == "top_right_corner"@ || name == "ne-resize"@ || name == "nesw-resize"@ || name == "size_bdiag"@ {
        CursorIcon::NeswResize
    } else if name == "left_side"@ || name == "w-resize"@ {
        CursorIcon::WResize
    } else if name == "right_side"@ || name == "e-resize"@ {
        CursorIcon::EResize
    } else if name == "top_side"@ || name == "n-resize"@ {
        CursorIcon::NResize
    } else if name == "bottom_side"@ || name == "s-resize"@ {
        CursorIcon::SResize
    } else if name == "watch"@ || name == "wait"@ {
        CursorIcon::Wait
    } else if name == "left_ptr_watch"@ || name == "progress"@ || name == "half-busy"@ {
        CursorIcon::Progress
    } else if name == "crosshair"@ || name == "cross"@ || name == "tcross"@ {
        CursorIcon::Crosshair
    } else if name == "fleur"@ || name == "move"@ || name == "grab"@ || name == "grabbing"@ || name == "closedhand"@ || name == "dnd-move"@ {
        CursorIcon::Move
    } else if name == "crossed_circle"@ || name == "not-allowed"@ || name == "forbidden"@ || name == "circle"@ || name == "X_cursor"@ {
        CursorIcon::NotAllowed
    } else if name == "question_arrow"@ || name == "help"@ || name == "whats_this"@ {
        CursorIcon::Help
    } else if name == "context-menu"@ {
        CursorIcon::ContextMenu
    } else if name == "plus"@ || name == "cell"@ {
        CursorIcon::Cell
    } else if name == "dnd-link"@ || name == "alias"@ || name == "link"@ {
        CursorIcon::Alias
    } else if name == "dnd-copy"@ || name == "copy"@ {
        CursorIcon::Copy
    } else if name == "dnd-no-drop"@ || name == "no-drop"@ {
        CursorIcon::NoDrop
    } else {
        CursorIcon::Default
    }
}

/// The icon for an X cursor name.
pub fn map_cursor_name(name: &str) -> (r: CursorIcon)
    ensures
        r == icon_for(name@),
{
    if str_eq(name, "xterm") || str_eq(name, "text") || str_eq(name, "ibeam") {
        CursorIcon::Text
    } else if str_eq(name, "hand") || str_eq(name, "hand1") || str_eq(name, "hand2") || str_eq(name, "pointer") || str_eq(name, "pointing_hand") {
        CursorIcon::Pointer
    } else if str_eq(name, "sb_h_double_arrow") || str_eq(name, "h_double_arrow") || str_eq(name, "ew-resize") || str_eq(name, "col-resize") {
        CursorIcon::EwResize
    } else if str_eq(name, "sb_v_double_arrow") || str_eq(name, "v_double_arrow") || str_eq(name, "ns-resize") || str_eq(name, "row-resize") {
        CursorIcon::NsResize
    } else if str_eq(name, "top_left_corner") || str_eq(name, "nw-resize") || str_eq(name, "nwse-resize") || str_eq(name, "size_fdiag") {
        CursorIcon::NwseResize
    } else if str_eq(name, "top_right_corner") || str_eq(name, "ne-resize") || str_eq(name, "nesw-resize") || str_eq(name, "size_bdiag") {
        CursorIcon::NeswResize
    } else if str_eq(name, "left_side") || str_eq(name, "w-resize") {
        CursorIcon::WResize
    } else if str_eq(name, "right_side") || str_eq(name, "e-resize") {
        CursorIcon::EResize
    } else if str_eq(name, "top_side") || str_eq(name, "n-resize") {
        CursorIcon::NResize
    } else if str_eq(name, "bottom_side") || str_eq(name, "s-resize") {
        CursorIcon::SResize
    } else if str_eq(name, "watch") || str_eq(name, "wait") {
        CursorIcon::Wait
    } else if str_eq(name, "left_ptr_watch") || str_eq(name, "progress") || str_eq(name, "half-busy") {
        CursorIcon::Progress
    } else if str_eq(name, "crosshair") || str_eq(name, "cross") || str_eq(name, "tcross") {
        CursorIcon::Crosshair
    } else if str_eq(name, "fleur") || str_eq(name, "move") || str_eq(name, "grab") || str_eq(name, "grabbing") || str_eq(name, "closedhand") || str_eq(name, "dnd-move") {
        CursorIcon::Move
    } else if str_eq(name, "crossed_circle") || str_eq(name, "not-allowed") || str_eq(name, "forbidden") || str_eq(name, "circle") || str_eq(name, "X_cursor") {
        CursorIcon::NotAllowed
    } else if str_eq(name, "question_arrow") || str_eq(name, "help") || str_eq(name, "whats_this") {
        CursorIcon::Help
    } else if str_eq(name, "context-menu") {
        CursorIcon::ContextMenu
    } else if str_eq(name, "plus") || str_eq(name, "cell") {
        CursorIcon::Cell
    } else if str_eq(name, "dnd-link") || str_eq(name, "alias") || str_eq(name, "link") {
        CursorIcon::Alias
    } else if str_eq(name, "dnd-copy") || str_eq(name, "copy") {
        CursorIcon::Copy
    } else if str_eq(name, "dnd-no-drop") || str_eq(name, "no-drop") {
        CursorIcon::NoDrop
    } else {
        CursorIcon::Default
    }
}

/// What is known of the cursor of the X display.
#[derive(Debug, Clone, Copy, PartialEq, Eq, Structural)]
pub struct X11CursorTracker {
    /// The atom of the last cursor's name; zero for a cursor without a name.
    pub last_atom: u32,
    /// An icon to show, not handed out yet.
    pub pending: Option<CursorIcon>,
    /// The connection is gone.
    pub broken: bool,
}

impl X11CursorTracker {
    pub fn new() -> (r: X11CursorTracker)
        ensures
            r == (X11CursorTracker { last_atom: 0, pending: None, broken: false }),
    {
        X11CursorTracker { last_atom: 0, pending: None, broken: false }
    }

    /// The cursor changed to the one named by `atom`. Gives whether the name is
    /// to be looked up and reported to [`Self::resolved`]: not where it is the
    /// same as before, nor where the cursor has no name.
    pub fn cursor_notify(&mut self, atom: u32) -> (r: bool)
        ensures
            r == (atom != old(self).last_atom && atom != 0),
            *final(self) == if atom == old(self).last_atom {
                *old(self)
            } else if atom == 0 {
                X11CursorTracker {
                    last_atom: 0,
                    pending: Some(CursorIcon::Default),
                    ..*old(self)
                }
            } else {
                X11CursorTracker { last_atom: atom, ..*old(self) }
            },
    {
        if atom == self.last_atom {
            return false;
        }
        self.last_atom = atom;
        if atom == 0 {
            self.pending = Some(CursorIcon::Default);
            return false;
        }
        true
    }

    /// The name of the current cursor; `None` where it could not be looked up.
    pub fn resolved(&mut self, name: Option<&str>)
        ensures
            *final(self) == (X11CursorTracker {
                pending: Some(
                    match name {
                        Some(n) => icon_for(n@),
                        None => CursorIcon::Default,
                    },
                ),
                ..*old(self)
            }),
    {
        self.pending = Some(
            match name {
                Some(n) => map_cursor_name(n),
                None => CursorIcon::Default,
            },
        );
    }

    /// The connection is gone: there is nothing to poll any more.
    pub fn connection_lost(&mut self)
        ensures
            *final(self) == (X11CursorTracker { broken: true, ..*old(self) }),
    {
        self.broken = true;
    }

    /// Hands out the icon to show, if it changed.
    pub fn take_pending(&mut self) -> (r: Option<CursorIcon>)
        ensures
            r == old(self).pending,
            *final(self) == (X11CursorTracker { pending: None, ..*old(self) }),
    {
        let icon = self.pending;
        self.pending = None;
        icon
    }
}

/// Each name has its icon: an icon is shown for its own names alone, and a name
/// that has an icon does not get the default one.
pub proof fn names_have_their_icons(name: &str, r: CursorIcon)
    requires
        call_ensures(map_cursor_name, (name,), r),
    ensures
        r == CursorIcon::Text ==> name@ == "xterm"@ || name@ == "text"@ || name@ == "ibeam"@,
        r == CursorIcon::Pointer ==> name@ == "hand"@ || name@ == "hand1"@ || name@ == "hand2"@ || name@ == "pointer"@ || name@ == "pointing_hand"@,
        r == CursorIcon::EwResize ==> name@ == "sb_h_double_arrow"@ || name@ == "h_double_arrow"@ || name@ == "ew-resize"@ || name@ == "col-resize"@,
        r == CursorIcon::NsResize ==> name@ == "sb_v_double_arrow"@ || name@ == "v_double_arrow"@ || name@ == "ns-resize"@ || name@ == "row-resize"@,
        r == CursorIcon::NwseResize ==> name@ == "top_left_corner"@ || name@ == "nw-resize"@ || name@ == "nwse-resize"@ || name@ == "size_fdiag"@,
        r == CursorIcon::NeswResize ==> name@ == "top_right_corner"@ || name@ == "ne-resize"@ || name@ == "nesw-resize"@ || name@ == "size_bdiag"@,
        r == CursorIcon::WResize ==> name@ == "left_side"@ || name@ == "w-resize"@,
        r == CursorIcon::EResize ==> name@ == "right_side"@ || name@ == "e-resize"@,
        r == CursorIcon::NResize ==> name@ == "top_side"@ || name@ == "n-resize"@,
        r == CursorIcon::SResize ==> name@ == "bottom_side"@ || name@ == "s-resize"@,
        r == CursorIcon::Wait ==> name@ == "watch"@ || name@ == "wait"@,
        r == CursorIcon::Progress ==> name@ == "left_ptr_watch"@ || name@ == "progress"@ || name@ == "half-busy"@,
        r == CursorIcon::Crosshair ==> name@ == "crosshair"@ || name@ == "cross"@ || name@ == "tcross"@,
        r == CursorIcon::Move ==> name@ == "fleur"@ || name@ == "move"@ || name@ == "grab"@ || name@ == "grabbing"@ || name@ == "closedhand"@ || name@ == "dnd-move"@,
        r == CursorIcon::NotAllowed ==> name@ == "crossed_circle"@ || name@ == "not-allowed"@ || name@ == "forbidden"@ || name@ == "circle"@ || name@ == "X_cursor"@,
        r == CursorIcon::Help ==> name@ == "question_arrow"@ || name@ == "help"@ || name@ == "whats_this"@,
        r == CursorIcon::ContextMenu ==> name@ == "context-menu"@,
        r == CursorIcon::Cell ==> name@ == "plus"@ || name@ == "cell"@,
        r == CursorIcon::Alias ==> name@ == "dnd-link"@ || name@ == "alias"@ || name@ == "link"@,
        r == CursorIcon::Copy ==> name@ == "dnd-copy"@ || name@ == "copy"@,
        r == CursorIcon::NoDrop ==> name@ == "dnd-no-drop"@ || name@ == "no-drop"@,
        r == CursorIcon::Default ==> {
            &&& name@ != "xterm"@
            &&& name@ != "text"@
            &&& name@ != "ibeam"@
            &&& name@ != "hand"@
            &&& name@ != "hand1"@
            &&& name@ != "hand2"@
            &&& name@ != "pointer"@
            &&& name@ != "pointing_hand"@
            &&& name@ != "sb_h_double_arrow"@
            &&& name@ != "h_double_arrow"@
            &&& name@ != "ew-resize"@
            &&& name@ != "col-resize"@
            &&& name@ != "sb_v_double_arrow"@
            &&& name@ != "v_double_arrow"@
            &&& name@ != "ns-resize"@
            &&& name@ != "row-resize"@
            &&& name@ != "top_left_corner"@
            &&& name@ != "nw-resize"@
            &&& name@ != "nwse-resize"@
            &&& name@ != "size_fdiag"@
            &&& name@ != "top_right_corner"@
            &&& name@ != "ne-resize"@
            &&& name@ != "nesw-resize"@
            &&& name@ != "size_bdiag"@
            &&& name@ != "left_side"@
            &&& name@ != "w-resize"@
            &&& name@ != "right_side"@
            &&& name@ != "e-resize"@
            &&& name@ != "top_side"@
            &&& name@ != "n-resize"@
            &&& name@ != "bottom_side"@
            &&& name@ != "s-resize"@
            &&& name@ != "watch"@
            &&& name@ != "wait"@
            &&& name@ != "left_ptr_watch"@
            &&& name@ != "progress"@
            &&& name@ != "half-busy"@
            &&& name@ != "crosshair"@
            &&& name@ != "cross"@
            &&& name@ != "tcross"@
            &&& name@ != "fleur"@
            &&& name@ != "move"@
            &&& name@ != "grab"@
            &&& name@ != "grabbing"@
            &&& name@ != "closedhand"@
            &&& name@ != "dnd-move"@
            &&& name@ != "crossed_circle"@
            &&& name@ != "not-allowed"@
            &&& name@ != "forbidden"@
            &&& name@ != "circle"@
            &&& name@ != "X_cursor"@
            &&& name@ != "question_arrow"@
            &&& name@ != "help"@
            &&& name@ != "whats_this"@
            &&& name@ != "context-menu"@
            &&& name@ != "plus"@
            &&& name@ != "cell"@
            &&& name@ != "dnd-link"@
            &&& name@ != "alias"@
            &&& name@ != "link"@
            &&& name@ != "dnd-copy"@
            &&& name@ != "copy"@
            &&& name@ != "dnd-no-drop"@
            &&& name@ != "no-drop"@
        },
{
}

/// A cursor that is the same as before asks for nothing. A new one is looked up
/// and its icon shown; one without a name, or whose name is not found, shows the
/// default icon. An icon is handed out once.
pub proof fn cursors_are_followed(
    t: &mut X11CursorTracker,
    atom: u32,
    look: bool,
    found: &mut X11CursorTracker,
    name: &str,
    icon: CursorIcon,
    lost: &mut X11CursorTracker,
    taken: &mut X11CursorTracker,
    shown: Option<CursorIcon>,
    broken: &mut X11CursorTracker,
)
    requires
        call_ensures(X11CursorTracker::cursor_notify, (t, atom), look),
        call_ensures(X11CursorTracker::resolved, (found, Some(name)), ()),
        call_ensures(map_cursor_name, (name,), icon),
        call_ensures(X11CursorTracker::resolved, (lost, None), ()),
        call_ensures(X11CursorTracker::take_pending, (taken,), shown),
        call_ensures(X11CursorTracker::connection_lost, (broken,), ()),
    ensures
        look <==> atom != old(t).last_atom && atom != 0,
        final(t).last_atom == atom,
        atom == old(t).last_atom ==> final(t).pending == old(t).pending,
        atom != old(t).last_atom && atom == 0 ==> final(t).pending == Some(CursorIcon::Default),
        atom != 0 ==> final(t).pending == old(t).pending,
        final(found).pending == Some(icon),
        final(found).last_atom == old(found).last_atom,
        final(lost).pending == Some(CursorIcon::Default),
        shown == old(taken).pending,
        final(taken).pending is None,
        final(taken).last_atom == old(taken).last_atom,
        final(broken).broken,
{
}

} // verus!
