//! The headless host for tests: which of its clients has the focus.

use crate::input::SurfaceId;
use crate::selection::SelectionTarget;
use crate::text::texts;
use crate::xwayland_satellite::{lock_file, lock_path, socket_path, unix_socket_path};
use vstd::prelude::*;

verus! {

/// The focus of the host. A client may set a selection only while it has the
/// focus, and the first one is to hear of it; so every new window gets the
/// focus, and gives it back with its selection.
#[derive(Debug, Clone, Copy, PartialEq, Eq, Structural)]
pub struct HostFocus {
    /// The first toplevel.
    pub primary_toplevel: Option<SurfaceId>,
}

impl HostFocus {
    /// Where the focus moves when a client sets a selection: back to the first
    /// toplevel, after a copy to the clipboard.
    pub open spec fn hands_to(
        self,
        target: SelectionTarget,
        focus: Option<SurfaceId>,
    ) -> Option<SurfaceId> {
        if target == SelectionTarget::Clipboard && focus != self.primary_toplevel {
            self.primary_toplevel
        } else {
            None
        }
    }

    pub fn new() -> (r: HostFocus)
        ensures
            r.primary_toplevel is None,
    {
        HostFocus { primary_toplevel: None }
    }

    /// A toplevel was created. Gives the surface to focus.
    pub fn new_toplevel(&mut self, surface: SurfaceId) -> (r: SurfaceId)
        ensures
            r == surface,
            final(self).primary_toplevel == if old(self).primary_toplevel is None {
                Some(surface)
            } else {
                old(self).primary_toplevel
            },
    {
        if self.primary_toplevel.is_none() {
            self.primary_toplevel = Some(surface);
        }
        surface
    }

    /// A client set a selection while `focus` had the focus. Gives the surface
    /// to focus, where the focus is to move: back to the first toplevel, after
    /// a copy to the clipboard.
    pub fn new_selection(&self, target: SelectionTarget, focus: Option<SurfaceId>) -> (r: Option<
        SurfaceId,
    >)
        ensures
            r == self.hands_to(target, focus),
    {
        match target {
            SelectionTarget::Clipboard => match self.primary_toplevel {
                Some(primary) => {
                    let has_it = match focus {
                        Some(f) => f == primary,
                        None => false,
                    };
                    if has_it {
                        None
                    } else {
                        Some(primary)
                    }
                },
                None => None,
            },
            SelectionTarget::Primary => None,
        }
    }
}

/// The files of an X display to remove at the end: its socket and its lock.
pub fn leftover_files(display: Option<u32>) -> (r: Vec<String>)
    ensures
        texts(r@) == match display {
            Some(n) => seq![socket_path(n), lock_file(n)],
            None => seq![],
        },
{
    let mut files: Vec<String> = Vec::new();
    match display {
        Some(n) => {
            files.push(unix_socket_path(n));
            files.push(lock_path(n));
        },
        None => {},
    }
    assert(texts(files@) =~= match display {
        Some(n) => seq![socket_path(n), lock_file(n)],
        None => seq![],
    });
    files
}

/// After a copy to the clipboard the first toplevel has the focus, whoever had
/// it; the primary selection moves no focus.
pub proof fn clipboard_returns_focus(host: HostFocus, focus: Option<SurfaceId>)
    requires
        host.primary_toplevel is Some,
    ensures
        (match host.hands_to(SelectionTarget::Clipboard, focus) {
            Some(surface) => Some(surface),
            None => focus,
        }) == host.primary_toplevel,
        host.hands_to(SelectionTarget::Primary, focus) is None,
{
}

/// The first toplevel stays the first; each new one gets the focus. A copy to the
/// clipboard hands the focus back to the first, where it is not there already;
/// the primary selection never moves it.
pub proof fn copies_hand_the_focus_back(
    host: &mut HostFocus,
    surface: SurfaceId,
    focused: SurfaceId,
    after: HostFocus,
    focus: Option<SurfaceId>,
    copied: Option<SurfaceId>,
    selected: Option<SurfaceId>,
)
    requires
        call_ensures(HostFocus::new_toplevel, (host, surface), focused),
        after == *final(host),
        call_ensures(
            HostFocus::new_selection,
            (&after, SelectionTarget::Clipboard, focus),
            copied,
        ),
        call_ensures(
            HostFocus::new_selection,
            (&after, SelectionTarget::Primary, focus),
            selected,
        ),
    ensures
        focused == surface,
        old(host).primary_toplevel is None ==> after.primary_toplevel == Some(surface),
        old(host).primary_toplevel is Some ==> after.primary_toplevel
            == old(host).primary_toplevel,
        focus == after.primary_toplevel ==> copied is None,
        focus != after.primary_toplevel ==> copied == after.primary_toplevel,
        selected is None,
{
}

/// What is left of an X display is its socket and its lock; without a display
/// nothing is.
pub proof fn displays_leave_two_files(
    display: Option<u32>,
    r: Vec<String>,
    socket: String,
    lock: String,
)
    requires
        call_ensures(leftover_files, (display,), r),
        display matches Some(n) ==> call_ensures(unix_socket_path, (n,), socket),
        display matches Some(n) ==> call_ensures(lock_path, (n,), lock),
    ensures
        display is None ==> r@.len() == 0,
        display is Some ==> r@.len() == 2 && r@[0]@ == socket@ && r@[1]@ == lock@,
{
    assert(texts(r@).len() == r@.len());
    if display is Some {
        assert(texts(r@)[0] == r@[0]@ && texts(r@)[1] == r@[1]@);
    }
}

} // verus!
