//! How the compositor and its children are started: files and directories,
//! keyboard layout, arguments and environment.

use crate::dbus_broker::{format_bus_address, parse_unix_bus_address, UNIX_PATH_PREFIX};
use crate::selection::{SelectionCall, SelectionState};
use crate::state::{OutgoingMessage, PendingCommand};
use crate::text::{
    before_char, decimal, push_decimal, push_text, str_eq, texts,
};
use vstd::prelude::*;

verus! {

/// A variable of a child's environment.
#[derive(Debug, Clone, PartialEq, Eq)]
pub struct EnvVar {
    pub key: String,
    pub value: String,
}

/// A list of variables as pairs of texts.
pub open spec fn vars(list: Seq<EnvVar>) -> Seq<(Seq<char>, Seq<char>)> {
    list.map_values(|v: EnvVar| (v.key@, v.value@))
}

fn push_var(list: &mut Vec<EnvVar>, key: &str, value: &str)
    ensures
        vars(final(list)@) == vars(old(list)@).push((key@, value@)),
{
    let ghost before = list@;
    list.push(EnvVar { key: key.to_owned(), value: value.to_owned() });
    assert(vars(list@) =~= vars(before).push((key@, value@)));
}

// ---------------------------------------------------------------------------
// Paths
// ---------------------------------------------------------------------------

/// A file in a directory.
pub open spec fn joined(dir: Seq<char>, name: Seq<char>) -> Seq<char> {
    if dir.len() == 0 || dir.last() == '/' {
        dir + name
    } else {
        dir + seq!['/'] + name
    }
}

/// The path of a file in a directory; `name` is relative.
pub fn join(dir: &str, name: &str) -> (r: String)
    requires
        name@.len() > 0 ==> name@[0] != '/',
    ensures
        r@ == joined(dir@, name@),
{
    let mut s = dir.to_owned();
    let chars = crate::text::chars_of(dir);
    let n: usize = chars.len();
    if n > 0 && chars[n - 1] != '/' {
        s.push('/');
    }
    s.append(name);
    assert(s@ =~= joined(dir@, name@));
    s
}

/// Where a session keeps its files: `$XDG_RUNTIME_DIR`, or `/tmp` where it is
/// not set.
pub open spec fn runtime_or_tmp(runtime: Option<Seq<char>>) -> Seq<char> {
    match runtime {
        Some(dir) => dir,
        None => "/tmp"@,
    }
}

/// The view of an optional text.
pub open spec fn opt_text(s: Option<&str>) -> Option<Seq<char>> {
    match s {
        Some(s) => Some(s@),
        None => None,
    }
}

pub fn runtime_dir(runtime: Option<&str>) -> (r: String)
    ensures
        r@ == runtime_or_tmp(opt_text(runtime)),
{
    match runtime {
        Some(dir) => dir.to_owned(),
        None => "/tmp".to_owned(),
    }
}

/// The socket that Emacs talks to, unless another one is asked for:
/// `emskin-<pid>.ipc` in the runtime directory.
pub fn default_ipc_path(runtime: Option<&str>, pid: u32) -> (r: String)
    ensures
        r@ == runtime_or_tmp(opt_text(runtime)) + "/emskin-"@ + decimal(pid as nat) + ".ipc"@,
{
    let mut s = runtime_dir(runtime);
    s.append("/emskin-");
    push_decimal(&mut s, pid as u64);
    s.append(".ipc");
    s
}

/// Where built-in files are extracted to: a directory of the process in the
/// runtime directory, so that the trees stand side by side.
pub fn embedded_dir(runtime: Option<&str>, pid: u32, subdir: &str) -> (r: String)
    ensures
        r@ == runtime_or_tmp(opt_text(runtime)) + "/emskin-"@ + decimal(pid as nat) + "/"@
            + subdir@,
{
    let mut s = runtime_dir(runtime);
    s.append("/emskin-");
    push_decimal(&mut s, pid as u64);
    s.append("/");
    s.append(subdir);
    s
}

// ---------------------------------------------------------------------------
// Keyboard and bar
// ---------------------------------------------------------------------------

/// The keyboard layout: a variant without a layout is one of the US layout.
pub fn xkb_layout(layout: &str, variant: &str) -> (r: String)
    ensures
        r@ == if layout@.len() == 0 && variant@.len() > 0 {
            "us"@
        } else {
            layout@
        },
{
    if layout.is_empty() && !variant.is_empty() {
        "us".to_owned()
    } else {
        layout.to_owned()
    }
}

/// Which workspace bar to launch.
#[derive(Debug, Clone, PartialEq, Eq)]
pub enum BarChoice {
    /// None.
    Nothing,
    /// The one that comes with the compositor.
    Auto,
    /// The program at this path.
    Explicit(String),
}

/// The bar that an argument asks for.
pub fn bar_choice(mode: &str) -> (r: BarChoice)
    ensures
        match r {
            BarChoice::Nothing => mode@ == "none"@,
            BarChoice::Auto => mode@ == "auto"@,
            BarChoice::Explicit(path) => mode@ != "none"@ && mode@ != "auto"@ && path@ == mode@,
        },
{
    proof {
        reveal_strlit("none");
        reveal_strlit("auto");
    }
    if str_eq(mode, "none") {
        BarChoice::Nothing
    } else if str_eq(mode, "auto") {
        assert("auto"@[0] != "none"@[0]);
        BarChoice::Auto
    } else {
        BarChoice::Explicit(mode.to_owned())
    }
}

/// The places to look for the bar, in order: beside the compositor's own
/// program, then the directories of the search path.
pub open spec fn bar_places(exe_dir: Option<Seq<char>>, path: Seq<Seq<char>>) -> Seq<Seq<char>> {
    (match exe_dir {
        Some(dir) => seq![joined(dir, "emskin-bar"@)],
        None => seq![],
    }) + path.map_values(|dir: Seq<char>| joined(dir, "emskin-bar"@))
}

pub fn bar_candidates(exe_dir: Option<&str>, path_dirs: &[String]) -> (r: Vec<String>)
    ensures
        texts(r@) == bar_places(opt_text(exe_dir), texts(path_dirs@)),
{
    proof {
        reveal_strlit("emskin-bar");
    }
    let mut places: Vec<String> = Vec::new();
    match exe_dir {
        Some(dir) => {
            let place = join(dir, "emskin-bar");
            push_text(&mut places, place.as_str());
        },
        None => {},
    }
    let ghost first = texts(places@);
    let ghost dirs = texts(path_dirs@);
    let ghost to_place = |dir: Seq<char>| joined(dir, "emskin-bar"@);
    assert(first =~= bar_places(opt_text(exe_dir), seq![]));
    let mut i: usize = 0;
    assert(first + dirs.take(0).map_values(to_place) =~= first);
    while i < path_dirs.len()
        invariant
            i <= path_dirs@.len(),
            dirs == texts(path_dirs@),
            to_place == (|dir: Seq<char>| joined(dir, "emskin-bar"@)),
            "emskin-bar"@.len() > 0 ==> "emskin-bar"@[0] != '/',
            texts(places@) == first + dirs.take(i as int).map_values(to_place),
        decreases path_dirs@.len() - i,
    {
        let place = join(path_dirs[i].as_str(), "emskin-bar");
        let ghost so_far = texts(places@);
        push_text(&mut places, place.as_str());
        assert(dirs[i as int] == path_dirs@[i as int]@);
        assert(first + dirs.take(i + 1).map_values(to_place) =~= so_far.push(
            joined(dirs[i as int], "emskin-bar"@),
        ));
        i += 1;
    }
    assert(dirs.take(i as int) =~= dirs);
    assert(texts(places@) =~= bar_places(opt_text(exe_dir), dirs));
    places
}

// ---------------------------------------------------------------------------
// Children
// ---------------------------------------------------------------------------

/// The arguments of the child: with built-in files to load, what makes Emacs
/// load them; then those asked for.
pub open spec fn child_args_spec(elisp_dir: Option<Seq<char>>, args: Seq<Seq<char>>) -> Seq<
    Seq<char>,
> {
    (match elisp_dir {
        Some(dir) => seq!["--directory"@, dir, "-l"@, "emskin"@],
        None => seq![],
    }) + args
}

/// The arguments of the child. `elisp_dir` is where the built-in files are, in
/// standalone mode.
pub fn child_args(elisp_dir: Option<&str>, args: &[String]) -> (r: Vec<String>)
    ensures
        texts(r@) == child_args_spec(opt_text(elisp_dir), texts(args@)),
{
    let mut all: Vec<String> = Vec::new();
    match elisp_dir {
        Some(dir) => {
            push_text(&mut all, "--directory");
            push_text(&mut all, dir);
            push_text(&mut all, "-l");
            push_text(&mut all, "emskin");
        },
        None => {},
    }
    let ghost first = texts(all@);
    assert(first =~= child_args_spec(opt_text(elisp_dir), seq![]));
    let ghost given = texts(args@);
    let mut i: usize = 0;
    assert(first + given.take(0) =~= first);
    while i < args.len()
        invariant
            i <= args@.len(),
            given == texts(args@),
            texts(all@) == first + given.take(i as int),
        decreases args@.len() - i,
    {
        push_text(&mut all, args[i].as_str());
        assert(given[i as int] == args@[i as int]@);
        assert(first + given.take(i + 1) =~= (first + given.take(i as int)).push(given[i as int]));
        i += 1;
    }
    assert(given.take(i as int) =~= given);
    assert(texts(all@) =~= child_args_spec(opt_text(elisp_dir), given));
    all
}

/// The name of an X display.
pub open spec fn x_display_name(display: u32) -> Seq<char> {
    seq![':'] + decimal(display as nat)
}

pub fn display_name(display: u32) -> (r: String)
    ensures
        r@ == x_display_name(display),
{
    let mut s = String::new();
    s.push(':');
    push_decimal(&mut s, display as u64);
    assert(s@ =~= x_display_name(display));
    s
}

/// The environment of the child: the displays it is to use, and what makes
/// programs prefer Wayland also where the host runs X.
pub open spec fn child_env_spec(socket: Seq<char>, display: u32) -> Seq<(Seq<char>, Seq<char>)> {
    seq![
        ("WAYLAND_DISPLAY"@, socket),
        ("DISPLAY"@, x_display_name(display)),
        ("XDG_SESSION_TYPE"@, "wayland"@),
        ("GDK_BACKEND"@, "wayland,x11"@),
        ("QT_QPA_PLATFORM"@, "wayland;xcb"@),
        ("SDL_VIDEODRIVER"@, "wayland"@),
        ("CLUTTER_BACKEND"@, "wayland"@),
        ("XDG_SESSION_DESKTOP"@, "emskin"@),
    ]
}

pub fn child_env(socket_name: &str, x_display: u32) -> (r: Vec<EnvVar>)
    ensures
        vars(r@) == child_env_spec(socket_name@, x_display),
{
    let mut env: Vec<EnvVar> = Vec::new();
    push_var(&mut env, "WAYLAND_DISPLAY", socket_name);
    push_var(&mut env, "DISPLAY", display_name(x_display).as_str());
    push_var(&mut env, "XDG_SESSION_TYPE", "wayland");
    push_var(&mut env, "GDK_BACKEND", "wayland,x11");
    push_var(&mut env, "QT_QPA_PLATFORM", "wayland;xcb");
    push_var(&mut env, "SDL_VIDEODRIVER", "wayland");
    push_var(&mut env, "CLUTTER_BACKEND", "wayland");
    push_var(&mut env, "XDG_SESSION_DESKTOP", "emskin");
    assert(vars(env@) =~= child_env_spec(socket_name@, x_display));
    env
}

/// The environment of the bar: it is to connect to this compositor, not to the
/// host's.
pub fn bar_env(socket_name: &str) -> (r: Vec<EnvVar>)
    ensures
        vars(r@) == seq![("WAYLAND_DISPLAY"@, socket_name@)],
{
    let mut env: Vec<EnvVar> = Vec::new();
    push_var(&mut env, "WAYLAND_DISPLAY", socket_name);
    assert(vars(env@) =~= seq![("WAYLAND_DISPLAY"@, socket_name@)]);
    env
}

/// What waits for the X display to be ready.
#[derive(Debug)]
pub struct Startup {
    /// The X display, once it is ready.
    pub xdisplay: Option<u32>,
    /// The command to run then.
    pub pending_command: Option<PendingCommand>,
}

/// What became of the X server.
#[derive(Debug, Clone, Copy, PartialEq, Eq, Structural)]
pub enum XWaylandEvent {
    /// It serves this display; whether the window manager could be started.
    Ready { display: u32, managed: bool },
    /// It did not start.
    Error,
}

/// Something to be done when the X display is ready.
#[derive(Debug)]
pub enum StartupStep {
    /// Set `$DISPLAY` for later children.
    SetDisplay(String),
    Send(OutgoingMessage),
    Select(Vec<SelectionCall>),
    /// Watch the cursor of this display.
    WatchCursor(u32),
    Spawn(PendingCommand),
}

impl Startup {
    /// With `no_spawn`, nothing is run.
    pub fn new(no_spawn: bool, command: PendingCommand) -> (r: Startup)
        ensures
            r.xdisplay is None,
            r.pending_command == if no_spawn {
                None
            } else {
                Some(command)
            },
    {
        Startup {
            xdisplay: None,
            pending_command: if no_spawn {
                None
            } else {
                Some(command)
            },
        }
    }

    /// The X display is ready. Gives the command to run now; it is given out
    /// once.
    pub fn xwayland_ready(&mut self, display: u32) -> (r: Option<PendingCommand>)
        ensures
            r == old(self).pending_command,
            *final(self) == (Startup { xdisplay: Some(display), pending_command: None }),
    {
        self.xdisplay = Some(display);
        self.pending_command.take()
    }

    /// The X server was started. Where it serves a display with a window
    /// manager, later children use that display, Emacs is told, X clients are
    /// offered what the host offers, and the command that waits is run last.
    pub fn start_xwayland(&mut self, event: XWaylandEvent, selection: &SelectionState) -> (r: Vec<
        StartupStep,
    >)
        ensures
            match event {
                XWaylandEvent::Ready { display, managed: true } => {
                    &&& *final(self) == (Startup { xdisplay: Some(display), pending_command: None })
                    &&& r@.len() == if old(self).pending_command is Some {
                        5int
                    } else {
                        4
                    }
                    &&& r@[0] matches StartupStep::SetDisplay(name) && name@ == x_display_name(
                        display,
                    )
                    &&& r@[1] == StartupStep::Send(OutgoingMessage::XWaylandReady { display })
                    &&& r@[2] matches StartupStep::Select(calls) && selection.replays(calls@)
                    &&& r@[3] == StartupStep::WatchCursor(display)
                    &&& old(self).pending_command matches Some(command) ==> r@[4]
                        == StartupStep::Spawn(command)
                },
                _ => r@ == Seq::<StartupStep>::empty() && *final(self) == *old(self),
            },
    {
        let mut steps: Vec<StartupStep> = Vec::new();
        match event {
            XWaylandEvent::Ready { display, managed } => {
                if managed {
                    steps.push(StartupStep::SetDisplay(display_name(display)));
                    steps.push(StartupStep::Send(OutgoingMessage::XWaylandReady { display }));
                    steps.push(StartupStep::Select(selection.replay()));
                    steps.push(StartupStep::WatchCursor(display));
                    match self.xwayland_ready(display) {
                        Some(command) => {
                            steps.push(StartupStep::Spawn(command));
                        },
                        None => {},
                    }
                }
            },
            XWaylandEvent::Error => {},
        }
        steps
    }
}

// ---------------------------------------------------------------------------
// The bridge to the session bus
// ---------------------------------------------------------------------------

/// Why the bridge does nothing.
#[derive(Debug, Clone, Copy, PartialEq, Eq, Structural)]
pub enum Inert {
    /// There is no session bus.
    NoBus,
    /// Its address is not a path of a socket.
    UnsupportedAddress,
}

/// The socket of the session bus, from its address.
pub fn upstream_bus(address: Option<&str>) -> (r: Result<String, Inert>)
    ensures
        match address {
            None => r == Err::<String, Inert>(Inert::NoBus),
            Some(addr) => if UNIX_PATH_PREFIX@.is_prefix_of(addr@) {
                r matches Ok(path) && path@ == before_char(
                    addr@.skip(UNIX_PATH_PREFIX@.len() as int),
                    ',',
                )
            } else {
                r == Err::<String, Inert>(Inert::UnsupportedAddress)
            },
        },
{
    match address {
        None => Err(Inert::NoBus),
        Some(addr) => match parse_unix_bus_address(addr) {
            Ok(path) => Ok(path),
            Err(_) => Err(Inert::UnsupportedAddress),
        },
    }
}

/// The directory of a session's bus: `emskin-dbus-<pid>` in the runtime
/// directory.
pub open spec fn session_dir_spec(runtime: Option<Seq<char>>, pid: u32) -> Seq<char> {
    joined(runtime_or_tmp(runtime), "emskin-dbus-"@ + decimal(pid as nat))
}

pub fn session_dir(runtime: Option<&str>, pid: u32) -> (r: String)
    ensures
        r@ == session_dir_spec(opt_text(runtime), pid),
{
    proof {
        reveal_strlit("emskin-dbus-");
    }
    let mut name = "emskin-dbus-".to_owned();
    push_decimal(&mut name, pid as u64);
    join(runtime_dir(runtime).as_str(), name.as_str())
}

/// The bridge to the session bus. Without a socket it does nothing, and
/// children reach the session bus directly.
#[derive(Debug)]
pub struct DbusBridge {
    /// The socket that children dial.
    pub listen_path: Option<String>,
    /// The directory to remove at the end.
    pub session_dir: Option<String>,
}

impl DbusBridge {
    /// A bridge that does nothing.
    pub fn new() -> (r: DbusBridge)
        ensures
            r.listen_path is None,
            r.session_dir is None,
    {
        DbusBridge { listen_path: None, session_dir: None }
    }

    /// A bridge with its socket in this directory.
    pub fn live(session_dir: String) -> (r: DbusBridge)
        ensures
            r.session_dir == Some(session_dir),
            r.listen_path matches Some(path) && path@ == joined(session_dir@, "bus.sock"@),
    {
        proof {
            reveal_strlit("bus.sock");
        }
        let path = join(session_dir.as_str(), "bus.sock");
        DbusBridge { listen_path: Some(path), session_dir: Some(session_dir) }
    }

    /// What to add to a child's environment: the bridge's address, where there
    /// is one.
    pub fn inject_env(&self) -> (r: Vec<EnvVar>)
        ensures
            vars(r@) == match self.listen_path {
                Some(path) => seq![("DBUS_SESSION_BUS_ADDRESS"@, UNIX_PATH_PREFIX@ + path@)],
                None => seq![],
            },
    {
        let mut env: Vec<EnvVar> = Vec::new();
        match &self.listen_path {
            Some(path) => {
                let address = format_bus_address(path.as_str());
                push_var(&mut env, "DBUS_SESSION_BUS_ADDRESS", address.as_str());
            },
            None => {},
        }
        assert(vars(env@) =~= match self.listen_path {
            Some(path) => seq![("DBUS_SESSION_BUS_ADDRESS"@, UNIX_PATH_PREFIX@ + path@)],
            None => seq![],
        });
        env
    }

    /// Ends the bridge. Gives the directory to remove.
    pub fn shutdown(&mut self) -> (r: Option<String>)
        ensures
            r == old(self).session_dir,
            final(self).listen_path is None,
            final(self).session_dir is None,
    {
        self.listen_path = None;
        self.session_dir.take()
    }
}

// ---------------------------------------------------------------------------
// What starting up promises
// ---------------------------------------------------------------------------

/// The path of a file starts with its directory and ends with its name, with one
/// slash between them where the directory does not end in one.
pub proof fn paths_join_with_one_slash(dir: &str, name: &str, r: String)
    requires
        call_ensures(join, (dir, name), r),
    ensures
        dir@.len() == 0 ==> r@ == name@,
        dir@.len() > 0 && dir@[dir@.len() - 1] == '/' ==> r@ == dir@ + name@,
        dir@.len() > 0 && dir@[dir@.len() - 1] != '/' ==> {
            &&& r@.len() == dir@.len() + 1 + name@.len()
            &&& r@.take(dir@.len() as int) == dir@
            &&& r@[dir@.len() as int] == '/'
            &&& r@.skip(dir@.len() as int + 1) == name@
        },
{
    if dir@.len() == 0 {
        assert(dir@ + name@ =~= name@);
    } else if dir@[dir@.len() - 1] != '/' {
        assert(r@.take(dir@.len() as int) =~= dir@);
        assert(r@.skip(dir@.len() as int + 1) =~= name@);
    }
}

/// The files of a process stand in the runtime directory, or in `/tmp` without
/// one, under its number; so do not two processes share them.
pub proof fn files_stand_in_the_runtime_directory(
    runtime: Option<&str>,
    pid: u32,
    subdir: &str,
    dir: String,
    socket: String,
    tree: String,
    bus: String,
)
    requires
        call_ensures(runtime_dir, (runtime,), dir),
        call_ensures(default_ipc_path, (runtime, pid), socket),
        call_ensures(embedded_dir, (runtime, pid, subdir), tree),
        call_ensures(session_dir, (runtime, pid), bus),
    ensures
        runtime is None ==> dir@ == "/tmp"@,
        runtime matches Some(d) ==> dir@ == d@,
        socket@ == dir@ + "/emskin-"@ + decimal(pid as nat) + ".ipc"@,
        tree@ == dir@ + "/emskin-"@ + decimal(pid as nat) + "/"@ + subdir@,
        dir@.len() > 0 && dir@[dir@.len() - 1] != '/' ==> bus@ == dir@ + seq!['/'] + (
        "emskin-dbus-"@ + decimal(pid as nat)),
{
}

/// A variant without a layout is one of the US layout; else the layout is the one
/// that is asked for.
pub proof fn variants_need_a_layout(layout: &str, variant: &str, r: String)
    requires
        call_ensures(xkb_layout, (layout, variant), r),
    ensures
        layout@.len() > 0 ==> r@ == layout@,
        layout@.len() == 0 && variant@.len() == 0 ==> r@.len() == 0,
        layout@.len() == 0 && variant@.len() > 0 ==> r@ == "us"@,
{
}

/// `none` asks for no bar, `auto` for the one that comes along, and anything else
/// is the path of one.
pub proof fn bars_are_chosen_by_name(mode: &str, r: BarChoice)
    requires
        call_ensures(bar_choice, (mode,), r),
    ensures
        r is Nothing <==> mode@ == "none"@,
        r is Auto <==> mode@ == "auto"@,
        r matches BarChoice::Explicit(path) ==> path@ == mode@,
{
    reveal_strlit("none");
    reveal_strlit("auto");
    assert("auto"@[0] != "none"@[0]);
}

/// The bar is looked for beside the compositor first, and then in each directory
/// of the search path, in order.
pub proof fn bars_are_looked_for_in_order(
    exe_dir: Option<&str>,
    path_dirs: &[String],
    r: Vec<String>,
)
    requires
        call_ensures(bar_candidates, (exe_dir, path_dirs), r),
    ensures
        ({
            let first: int = if exe_dir is Some { 1 } else { 0 };
            &&& r@.len() == first + path_dirs@.len()
            &&& exe_dir matches Some(d) ==> r@[0]@ == if d@.len() == 0 || d@.last() == '/' {
                d@ + "emskin-bar"@
            } else {
                d@ + seq!['/'] + "emskin-bar"@
            }
            &&& forall|i: int|
                0 <= i < path_dirs@.len() ==> (#[trigger] r@[first + i])@ == if path_dirs@[i]@.len()
                    == 0 || path_dirs@[i]@.last() == '/' {
                    path_dirs@[i]@ + "emskin-bar"@
                } else {
                    path_dirs@[i]@ + seq!['/'] + "emskin-bar"@
                }
        }),
{
    let all = texts(r@);
    let dirs = texts(path_dirs@);
    let first: int = if exe_dir is Some {
        1
    } else {
        0
    };
    assert(all.len() == r@.len());
    assert(dirs.len() == path_dirs@.len());
    if exe_dir is Some {
        assert(all[0] == r@[0]@);
    }
    assert forall|i: int| 0 <= i < path_dirs@.len() implies (#[trigger] r@[first + i])@ == joined(
        path_dirs@[i]@,
        "emskin-bar"@,
    ) by {
        assert(all[first + i] == r@[first + i]@);
        assert(dirs[i] == path_dirs@[i]@);
    }
}

/// The child gets the arguments that were asked for, in order; with built-in files
/// to load, what loads them comes first.
pub proof fn children_get_their_arguments(
    elisp_dir: Option<&str>,
    args: &[String],
    r: Vec<String>,
)
    requires
        call_ensures(child_args, (elisp_dir, args), r),
    ensures
        ({
            let first: int = if elisp_dir is Some { 4 } else { 0 };
            &&& r@.len() == first + args@.len()
            &&& elisp_dir matches Some(dir) ==> {
                &&& r@[0]@ == "--directory"@ && r@[1]@ == dir@
                &&& r@[2]@ == "-l"@ && r@[3]@ == "emskin"@
            }
            &&& forall|i: int| 0 <= i < args@.len() ==> (#[trigger] r@[first + i])@ == args@[i]@
        }),
{
    let all = texts(r@);
    let given = texts(args@);
    let first: int = if elisp_dir is Some {
        4
    } else {
        0
    };
    assert(all.len() == r@.len());
    assert(given.len() == args@.len());
    if elisp_dir is Some {
        assert(all[0] == r@[0]@ && all[1] == r@[1]@ && all[2] == r@[2]@ && all[3] == r@[3]@);
    }
    assert forall|i: int| 0 <= i < args@.len() implies (#[trigger] r@[first + i])@ == args@[i]@ by {
        assert(all[first + i] == r@[first + i]@);
        assert(given[i] == args@[i]@);
    }
}

/// A variable has this name and value.
pub open spec fn is_set(v: EnvVar, key: Seq<char>, value: Seq<char>) -> bool {
    v.key@ == key && v.value@ == value
}

/// Children are clients of this compositor, on its Wayland socket and its X
/// display, and prefer Wayland; the bar needs the socket alone.
pub proof fn children_are_clients_of_this_compositor(
    socket: &str,
    display: u32,
    r: Vec<EnvVar>,
    name: String,
    bar: Vec<EnvVar>,
)
    requires
        call_ensures(child_env, (socket, display), r),
        call_ensures(display_name, (display,), name),
        call_ensures(bar_env, (socket,), bar),
    ensures
        name@ == seq![':'] + decimal(display as nat),
        r@.len() == 8,
        is_set(r@[0], "WAYLAND_DISPLAY"@, socket@),
        is_set(r@[1], "DISPLAY"@, name@),
        is_set(r@[2], "XDG_SESSION_TYPE"@, "wayland"@),
        is_set(r@[3], "GDK_BACKEND"@, "wayland,x11"@),
        is_set(r@[4], "QT_QPA_PLATFORM"@, "wayland;xcb"@),
        is_set(r@[5], "SDL_VIDEODRIVER"@, "wayland"@),
        is_set(r@[6], "CLUTTER_BACKEND"@, "wayland"@),
        is_set(r@[7], "XDG_SESSION_DESKTOP"@, "emskin"@),
        bar@.len() == 1,
        is_set(bar@[0], "WAYLAND_DISPLAY"@, socket@),
{
    let all = vars(r@);
    assert(all.len() == r@.len() && vars(bar@).len() == bar@.len());
    assert(all[0] == (r@[0].key@, r@[0].value@) && all[1] == (r@[1].key@, r@[1].value@) && all[2]
        == (r@[2].key@, r@[2].value@) && all[3] == (r@[3].key@, r@[3].value@) && all[4] == (
        r@[4].key@,
        r@[4].value@,
    ) && all[5] == (r@[5].key@, r@[5].value@) && all[6] == (r@[6].key@, r@[6].value@) && all[7] == (
        r@[7].key@,
        r@[7].value@,
    ));
    assert(vars(bar@)[0] == (bar@[0].key@, bar@[0].value@));
}

/// The command that is asked for runs once, as soon as the X display is ready, and
/// not at all where nothing is to be run.
pub proof fn commands_run_once(
    no_spawn: bool,
    command: PendingCommand,
    fresh: Startup,
    s: &mut Startup,
    display: u32,
    r: Option<PendingCommand>,
    again: &mut Startup,
    other: u32,
    nothing: Option<PendingCommand>,
)
    requires
        call_ensures(Startup::new, (no_spawn, command), fresh),
        *old(s) == fresh,
        call_ensures(Startup::xwayland_ready, (s, display), r),
        *old(again) == *final(s),
        call_ensures(Startup::xwayland_ready, (again, other), nothing),
    ensures
        fresh.xdisplay is None,
        no_spawn ==> r is None,
        !no_spawn ==> r == Some(command),
        final(s).xdisplay == Some(display),
        nothing is None,
{
}

/// A display with a window manager is announced, to later children first, then to
/// Emacs; X clients are offered what the host offers, the cursor is watched, and
/// the command that waits runs last. A server that failed, or whose windows nobody
/// manages, leads to nothing, and the command goes on waiting.
pub proof fn displays_are_announced(
    s: &mut Startup,
    event: XWaylandEvent,
    selection: SelectionState,
    r: Vec<StartupStep>,
    name: String,
)
    requires
        call_ensures(Startup::start_xwayland, (s, event, &selection), r),
        event matches XWaylandEvent::Ready { display, .. } ==> call_ensures(
            display_name,
            (display,),
            name,
        ),
    ensures
        event is Error ==> r@.len() == 0 && *final(s) == *old(s),
        event matches XWaylandEvent::Ready { display, managed } ==> {
            &&& !managed ==> r@.len() == 0 && *final(s) == *old(s)
            &&& managed ==> {
                &&& final(s).xdisplay == Some(display)
                &&& final(s).pending_command is None
                &&& (r@[0] matches StartupStep::SetDisplay(n) && n@ == name@)
                &&& r@[1] == StartupStep::Send(OutgoingMessage::XWaylandReady { display })
                &&& r@[2] is Select
                &&& r@[3] == StartupStep::WatchCursor(display)
                &&& old(s).pending_command is None ==> r@.len() == 4
                &&& old(s).pending_command matches Some(command) ==> r@.len() == 5 && r@[4]
                    == StartupStep::Spawn(command)
                &&& selection.host_clipboard_mimes@.len() == 0
                    && selection.host_primary_mimes@.len() == 0 ==> r@[2]->Select_0@.len() == 0
                &&& selection.host_clipboard_mimes@.len() > 0 ==> (
                r@[2]->Select_0@[0] matches SelectionCall::SetX11(t, Some(m)) && t
                    == crate::selection::SelectionTarget::Clipboard && m@
                    == selection.host_clipboard_mimes@)
            }
        },
{
}

/// The session bus is reached by the path in its address; without one, or with
/// another kind of address, the bridge says which.
pub proof fn the_session_bus_is_a_path(address: Option<&str>, r: Result<String, Inert>)
    requires
        call_ensures(upstream_bus, (address,), r),
    ensures
        address is None ==> r == Err::<String, Inert>(Inert::NoBus),
        address matches Some(a) ==> {
            &&& r is Ok <==> "unix:path="@.is_prefix_of(a@)
            &&& r is Err ==> r == Err::<String, Inert>(Inert::UnsupportedAddress)
            &&& r matches Ok(path) ==> {
                let rest = a@.skip("unix:path="@.len() as int);
                &&& path@.is_prefix_of(rest)
                &&& !path@.contains(',')
                &&& path@.len() < rest.len() ==> rest[path@.len() as int] == ','
            }
        },
{
    if let Some(a) = address {
        crate::text::lemma_before_char_cut(a@.skip("unix:path="@.len() as int), ',');
    }
}

/// Children dial the socket of the bridge in its directory; a bridge that does
/// nothing leaves their environment alone. At the end the directory is given up
/// once, and nothing is dialled any more.
pub proof fn children_dial_the_bridge(
    dir: String,
    live: DbusBridge,
    env: Vec<EnvVar>,
    idle: DbusBridge,
    none: Vec<EnvVar>,
    ended: &mut DbusBridge,
    gone: Option<String>,
    after: DbusBridge,
    nothing: Vec<EnvVar>,
)
    requires
        call_ensures(DbusBridge::live, (dir,), live),
        call_ensures(DbusBridge::inject_env, (&live,), env),
        call_ensures(DbusBridge::new, (), idle),
        call_ensures(DbusBridge::inject_env, (&idle,), none),
        call_ensures(DbusBridge::shutdown, (ended,), gone),
        *old(ended) == live,
        after == *final(ended),
        call_ensures(DbusBridge::inject_env, (&after,), nothing),
    ensures
        none@.len() == 0,
        env@.len() == 1,
        env@[0].key@ == "DBUS_SESSION_BUS_ADDRESS"@,
        dir@.len() > 0 && dir@.last() != '/' ==> env@[0].value@ == "unix:path="@ + (dir@ + seq![
            '/',
        ] + "bus.sock"@),
        gone == Some(dir),
        nothing@.len() == 0,
        after.session_dir is None,
{
    assert(vars(none@).len() == none@.len());
    assert(vars(nothing@).len() == nothing@.len());
    assert(vars(env@).len() == env@.len());
    assert(vars(env@)[0] == (env@[0].key@, env@[0].value@));
}

} // verus!
