//! X clients through xwayland-satellite: an X display is claimed and its
//! sockets are bound first; the satellite is started with them when a client
//! connects.

use crate::launch::x_display_name;
use crate::text::{chars_of, decimal, push_decimal, push_signed, push_text, signed_decimal, texts};
use vstd::prelude::*;

verus! {

/// What serves X clients.
#[derive(Debug, Clone, Copy, PartialEq, Eq, Structural)]
pub enum XwaylandBackend {
    /// The compositor's own X window manager.
    Smithay,
    /// A satellite that is started on demand.
    Satellite,
}

impl Default for XwaylandBackend {
    fn default() -> (r: XwaylandBackend)
        ensures
            r == XwaylandBackend::Smithay,
    {
        XwaylandBackend::Smithay
    }
}

/// An ASCII letter in lower case; other characters stay.
pub open spec fn lower(c: char) -> char {
    if 'A' <= c <= 'Z' {
        ((c as u32 + 32) as u8) as char
    } else {
        c
    }
}

/// A text in lower case.
pub open spec fn lowered(s: Seq<char>) -> Seq<char> {
    s.map_values(|c: char| lower(c))
}

fn to_lower(c: char) -> (r: char)
    ensures
        r == lower(c),
{
    if 'A' <= c && c <= 'Z' {
        ((c as u32 + 32) as u8) as char
    } else {
        c
    }
}

/// Two texts agree, perhaps up to the case of ASCII letters.
pub open spec fn texts_match(a: Seq<char>, b: Seq<char>, ignore_case: bool) -> bool {
    if ignore_case {
        lowered(a) == lowered(b)
    } else {
        a == b
    }
}

fn matches_name(name: &str, input: &str, ignore_case: bool) -> (r: bool)
    ensures
        r == texts_match(name@, input@, ignore_case),
{
    let a = chars_of(name);
    let b = chars_of(input);
    if a.len() != b.len() {
        assert(lowered(name@).len() != lowered(input@).len());
        return false;
    }
    let mut i: usize = 0;
    while i < a.len()
        invariant
            i <= a@.len() == b@.len(),
            a@ == name@,
            b@ == input@,
            forall|k: int|
                0 <= k < i ==> if ignore_case {
                    lower(#[trigger] a@[k]) == lower(b@[k])
                } else {
                    a@[k] == b@[k]
                },
        decreases a@.len() - i,
    {
        let same = if ignore_case {
            to_lower(a[i]) == to_lower(b[i])
        } else {
            a[i] == b[i]
        };
        if !same {
            assert(lowered(name@)[i as int] == lower(a@[i as int]));
            assert(lowered(input@)[i as int] == lower(b@[i as int]));
            return false;
        }
        i += 1;
    }
    if ignore_case {
        assert(lowered(name@) =~= lowered(input@));
    } else {
        assert(name@ =~= input@);
    }
    true
}

impl XwaylandBackend {
    /// The backend's name.
    pub open spec fn name(self) -> Seq<char> {
        match self {
            XwaylandBackend::Smithay => "smithay"@,
            XwaylandBackend::Satellite => "satellite"@,
        }
    }

    pub fn to_string(&self) -> (r: String)
        ensures
            r@ == self.name(),
    {
        match self {
            XwaylandBackend::Smithay => "smithay".to_owned(),
            XwaylandBackend::Satellite => "satellite".to_owned(),
        }
    }

    /// The backend of this name; a text that names none is told back.
    pub fn from_str(input: &str, ignore_case: bool) -> (r: Result<XwaylandBackend, String>)
        ensures
            match r {
                Ok(b) => texts_match(b.name(), input@, ignore_case),
                Err(e) => {
                    &&& forall|other: XwaylandBackend|
                        !texts_match(#[trigger] other.name(), input@, ignore_case)
                    &&& e@ == "invalid variant: "@ + input@
                },
            },
    {
        if matches_name("smithay", input, ignore_case) {
            assert(XwaylandBackend::Smithay.name() == "smithay"@);
            return Ok(XwaylandBackend::Smithay);
        }
        if matches_name("satellite", input, ignore_case) {
            assert(XwaylandBackend::Satellite.name() == "satellite"@);
            return Ok(XwaylandBackend::Satellite);
        }
        let mut e = "invalid variant: ".to_owned();
        e.append(input);
        Err(e)
    }
}

/// No text names two backends.
pub proof fn names_are_distinct(a: XwaylandBackend, b: XwaylandBackend, s: Seq<char>, ignore_case: bool)
    requires
        texts_match(a.name(), s, ignore_case),
        texts_match(b.name(), s, ignore_case),
    ensures
        a == b,
{
    reveal_strlit("smithay");
    reveal_strlit("satellite");
    assert(lowered("smithay"@).len() == 7);
    assert(lowered("satellite"@).len() == 9);
}

/// A backend's name names it, in either way of comparing.
pub proof fn names_round_trip(b: XwaylandBackend, ignore_case: bool)
    ensures
        texts_match(b.name(), b.name(), ignore_case),
{
}

// ---------------------------------------------------------------------------
// Claiming a display
// ---------------------------------------------------------------------------

/// Why no display could be set up.
#[derive(Debug, Clone, PartialEq, Eq)]
pub enum SetupError {
    /// A file or a socket failed, with the reason.
    Io(String),
    NoFreeDisplay,
    X11DirPermissions(String),
}

impl SetupError {
    pub open spec fn text(self) -> Seq<char> {
        match self {
            SetupError::Io(e) => "io error: "@ + e@,
            SetupError::NoFreeDisplay => "no free X11 display number found"@,
            SetupError::X11DirPermissions(m) => "X11 directory: "@ + m@,
        }
    }

    /// What to tell the user.
    pub fn message(&self) -> (r: String)
        ensures
            r@ == self.text(),
    {
        match self {
            SetupError::Io(e) => {
                let mut s = "io error: ".to_owned();
                s.append(e.as_str());
                s
            },
            SetupError::NoFreeDisplay => "no free X11 display number found".to_owned(),
            SetupError::X11DirPermissions(m) => {
                let mut s = "X11 directory: ".to_owned();
                s.append(m.as_str());
                s
            },
        }
    }
}

/// A file to remove when the display is given up.
#[derive(Debug, Clone, PartialEq, Eq)]
pub struct Unlink {
    pub file: String,
}

impl Unlink {
    pub fn new(path: &str) -> (r: Unlink)
        ensures
            r.file@ == path@,
    {
        Unlink { file: path.to_owned() }
    }

    pub fn path(&self) -> (r: &str)
        ensures
            r@ == self.file@,
    {
        self.file.as_str()
    }
}

/// How many displays are looked at in a row for a free one.
pub const MAX_DISPLAY_ATTEMPTS: u32 = 50;

/// How often binding the sockets of a claimed display may fail.
pub const MAX_SOCKET_BIND_RETRIES: u32 = 50;

/// The socket of a display.
pub open spec fn socket_path(display: u32) -> Seq<char> {
    "/tmp/.X11-unix/X"@ + decimal(display as nat)
}

/// The lock file of a display.
pub open spec fn lock_file(display: u32) -> Seq<char> {
    "/tmp/.X"@ + decimal(display as nat) + "-lock"@
}

pub fn unix_socket_path(display: u32) -> (r: String)
    ensures
        r@ == socket_path(display),
{
    let mut s = "/tmp/.X11-unix/X".to_owned();
    push_decimal(&mut s, display as u64);
    s
}

pub fn lock_path(display: u32) -> (r: String)
    ensures
        r@ == lock_file(display),
{
    let mut s = "/tmp/.X".to_owned();
    push_decimal(&mut s, display as u64);
    s.append("-lock");
    s
}

/// As many spaces as are missing to a width.
pub open spec fn padding(width: nat, n: nat) -> Seq<char> {
    Seq::new(
        if n < width {
            (width - n) as nat
        } else {
            0
        },
        |i: int| ' ',
    )
}

/// What is written into the lock file: the process, right aligned in ten
/// columns, and a line feed.
pub open spec fn lock_line(pid: u32) -> Seq<char> {
    padding(10, decimal(pid as nat).len()) + decimal(pid as nat) + seq!['\n']
}

pub fn lock_contents(pid: u32) -> (r: String)
    ensures
        r@ == lock_line(pid),
{
    let mut number = String::new();
    push_decimal(&mut number, pid as u64);
    assert(number@ =~= decimal(pid as nat));
    let n: usize = chars_of(number.as_str()).len();
    let mut s = String::new();
    let mut i: usize = n;
    while i < 10
        invariant
            n == decimal(pid as nat).len(),
            n <= i,
            i <= 10 || i == n,
            s@ == Seq::new((i - n) as nat, |k: int| ' '),
        decreases 10 - i,
    {
        let ghost before = s@;
        s.push(' ');
        i += 1;
        assert(s@ =~= Seq::new((i - n) as nat, |k: int| ' '));
    }
    assert(s@ =~= padding(10, n as nat));
    s.append(number.as_str());
    s.push('\n');
    assert(s@ =~= lock_line(pid));
    s
}

/// What to do next to claim a display.
#[derive(Debug, Clone, Copy, PartialEq, Eq, Structural)]
pub enum ScanStep {
    /// Create the lock file of this display, unless it exists.
    Lock { display: u32 },
    /// Bind the sockets of this display, which is locked.
    Bind { display: u32 },
    /// The display is set up.
    Ready { display: u32 },
    /// No display was free.
    NoFreeDisplay,
    /// The last operation failed for good.
    Fail,
}

/// How the last step went.
#[derive(Debug, Clone, Copy, PartialEq, Eq, Structural)]
pub enum ScanEvent {
    /// The lock file exists already.
    LockTaken,
    /// The lock file is ours and written.
    Locked,
    /// The lock file could not be created or written.
    LockFailed,
    Bound,
    /// The sockets could not be bound. The lock is given up.
    BindFailed,
}

/// The search for a display that can be claimed.
#[derive(Debug, Clone, Copy, PartialEq, Eq, Structural)]
pub struct DisplayScan {
    /// The display that is tried now.
    pub display: u32,
    /// How many displays in a row were taken.
    pub taken: u32,
    /// How often binding failed.
    pub attempt: u32,
}

/// The search after an event, and what to do then. A taken display leads to
/// the next one, up to a limit; so does one whose sockets cannot be bound,
/// with the count of taken displays started over.
pub open spec fn scanned(s: DisplayScan, e: ScanEvent) -> (DisplayScan, ScanStep) {
    let next = (s.display + 1) as u32;
    match e {
        ScanEvent::LockTaken => if s.taken + 1 >= 50 {
            (s, ScanStep::NoFreeDisplay)
        } else {
            (
                DisplayScan { display: next, taken: (s.taken + 1) as u32, ..s },
                ScanStep::Lock { display: next },
            )
        },
        ScanEvent::Locked => (s, ScanStep::Bind { display: s.display }),
        ScanEvent::LockFailed => (s, ScanStep::Fail),
        ScanEvent::Bound => (s, ScanStep::Ready { display: s.display }),
        ScanEvent::BindFailed => if s.attempt >= 50 {
            (s, ScanStep::Fail)
        } else {
            (
                DisplayScan { display: next, taken: 0, attempt: (s.attempt + 1) as u32 },
                ScanStep::Lock { display: next },
            )
        },
    }
}

impl DisplayScan {
    /// The search has not left the range of displays.
    pub open spec fn wf(&self) -> bool {
        &&& self.taken < 50
        &&& self.attempt <= 50
        &&& self.display + (50 - self.taken) + (50 - self.attempt) * 50 <= u32::MAX
    }

    /// Starts at a display.
    pub fn new(start: u32) -> (r: (DisplayScan, ScanStep))
        requires
            start <= u32::MAX - 2550,
        ensures
            r.0.wf(),
            r.0 == (DisplayScan { display: start, taken: 0, attempt: 0 }),
            r.1 == (ScanStep::Lock { display: start }),
    {
        (
            DisplayScan { display: start, taken: 0, attempt: 0 },
            ScanStep::Lock { display: start },
        )
    }

    /// The last step went this way. Gives the next one.
    pub fn step(&mut self, event: ScanEvent) -> (r: ScanStep)
        requires
            old(self).wf(),
        ensures
            final(self).wf(),
            (*final(self), r) == scanned(*old(self), event),
    {
        match event {
            ScanEvent::LockTaken => {
                if self.taken + 1 >= MAX_DISPLAY_ATTEMPTS {
                    return ScanStep::NoFreeDisplay;
                }
                self.taken = self.taken + 1;
                self.display = self.display + 1;
                ScanStep::Lock { display: self.display }
            },
            ScanEvent::Locked => ScanStep::Bind { display: self.display },
            ScanEvent::LockFailed => ScanStep::Fail,
            ScanEvent::Bound => ScanStep::Ready { display: self.display },
            ScanEvent::BindFailed => {
                if self.attempt >= MAX_SOCKET_BIND_RETRIES {
                    return ScanStep::Fail;
                }
                self.attempt = self.attempt + 1;
                self.taken = 0;
                self.display = self.display + 1;
                ScanStep::Lock { display: self.display }
            },
        }
    }
}

/// The display that a step speaks of.
pub open spec fn step_display(s: ScanStep) -> Option<u32> {
    match s {
        ScanStep::Lock { display } => Some(display),
        ScanStep::Bind { display } => Some(display),
        ScanStep::Ready { display } => Some(display),
        _ => None,
    }
}

/// The search after a row of events.
pub open spec fn scan_all(s: DisplayScan, events: Seq<ScanEvent>) -> DisplayScan
    decreases events.len(),
{
    if events.len() == 0 {
        s
    } else {
        scanned(scan_all(s, events.drop_last()), events.last()).0
    }
}

/// A display that was taken or could not be bound is not tried again, and no
/// display before the first one is.
pub proof fn displays_are_tried_upward(s: DisplayScan, events: Seq<ScanEvent>, e: ScanEvent)
    requires
        s.wf(),
    ensures
        scan_all(s, events).wf(),
        scan_all(s, events).display >= s.display,
        step_display(scanned(scan_all(s, events), e).1) matches Some(d) ==> d >= scan_all(
            s,
            events,
        ).display,
        (e == ScanEvent::LockTaken || e == ScanEvent::BindFailed) ==> (step_display(
            scanned(scan_all(s, events), e).1,
        ) matches Some(d) ==> d > scan_all(s, events).display),
    decreases events.len(),
{
    if events.len() > 0 {
        displays_are_tried_upward(s, events.drop_last(), events.last());
    }
}

// ---------------------------------------------------------------------------
// Starting the satellite
// ---------------------------------------------------------------------------

/// How asking a satellite whether it takes sockets went.
#[derive(Debug, Clone, Copy, PartialEq, Eq, Structural)]
pub enum Probe {
    /// It could not be started.
    NotStarted,
    /// It ended with this status.
    Exited(i32),
    /// It was killed by a signal.
    Killed,
}

/// Whether a satellite can be started on demand.
pub fn test_ondemand(probe: Probe) -> (r: bool)
    ensures
        r == (probe == Probe::Exited(0)),
{
    match probe {
        Probe::Exited(status) => status == 0,
        _ => false,
    }
}

/// Sockets that wait for a client.
#[derive(Debug, Clone, Copy, PartialEq, Eq, Structural)]
pub struct X11Sockets {
    pub display: u32,
    /// None where there are no abstract sockets.
    pub abstract_fd: Option<i32>,
    pub unix_fd: i32,
}

/// How the satellite is to be started.
#[derive(Debug, Clone, PartialEq, Eq)]
pub struct SpawnConfig {
    pub binary: String,
    pub wayland_socket: String,
    pub xdg_runtime_dir: String,
}

/// A change to the environment: a variable set, or removed.
#[derive(Debug, Clone, PartialEq, Eq)]
pub struct EnvChange {
    pub key: String,
    pub value: Option<String>,
}

/// A command to run.
#[derive(Debug, Clone, PartialEq, Eq)]
pub struct SpawnCommand {
    pub program: String,
    pub args: Vec<String>,
    pub envs: Vec<EnvChange>,
}

/// The satellite's arguments: the display, then the sockets it is handed.
pub open spec fn satellite_args(sockets: X11Sockets) -> Seq<Seq<char>> {
    seq![x_display_name(sockets.display)] + (match sockets.abstract_fd {
        Some(fd) => seq!["-listenfd"@, signed_decimal(fd as int)],
        None => seq![],
    }) + seq!["-listenfd"@, signed_decimal(sockets.unix_fd as int)]
}

/// The command that starts the satellite. It is to be a client of this
/// compositor, and not to use the X display of the host.
pub fn build_spawn_command(config: &SpawnConfig, sockets: &X11Sockets) -> (r: SpawnCommand)
    ensures
        r.program@ == config.binary@,
        texts(r.args@) == satellite_args(*sockets),
        r.envs@.len() == 3,
        r.envs@[0].key@ == "WAYLAND_DISPLAY"@,
        r.envs@[0].value matches Some(v) && v@ == config.wayland_socket@,
        r.envs@[1].key@ == "XDG_RUNTIME_DIR"@,
        r.envs@[1].value matches Some(v) && v@ == config.xdg_runtime_dir@,
        r.envs@[2].key@ == "DISPLAY"@,
        r.envs@[2].value is None,
{
    let mut args: Vec<String> = Vec::new();
    let name = crate::launch::display_name(sockets.display);
    push_text(&mut args, name.as_str());
    match sockets.abstract_fd {
        Some(fd) => {
            let number = fd_text(fd);
            push_text(&mut args, "-listenfd");
            push_text(&mut args, number.as_str());
        },
        None => {},
    }
    let number = fd_text(sockets.unix_fd);
    push_text(&mut args, "-listenfd");
    push_text(&mut args, number.as_str());
    assert(texts(args@) =~= satellite_args(*sockets));
    let mut envs: Vec<EnvChange> = Vec::new();
    envs.push(
        EnvChange {
            key: "WAYLAND_DISPLAY".to_owned(),
            value: Some(config.wayland_socket.clone()),
        },
    );
    envs.push(
        EnvChange {
            key: "XDG_RUNTIME_DIR".to_owned(),
            value: Some(config.xdg_runtime_dir.clone()),
        },
    );
    envs.push(EnvChange { key: "DISPLAY".to_owned(), value: None });
    SpawnCommand { program: config.binary.clone(), args, envs }
}

fn fd_text(fd: i32) -> (r: String)
    ensures
        r@ == signed_decimal(fd as int),
{
    let mut s = String::new();
    push_signed(&mut s, fd);
    assert(s@ =~= signed_decimal(fd as int));
    s
}

/// A taken display leads to the next one, and the fiftieth in a row ends the
/// search; so does the fifty-first that cannot be bound. A display that is locked
/// is bound, one that is bound is ready, and a lock that cannot be written ends
/// the search.
pub proof fn searches_go_on_with_the_next_display(
    s: &mut DisplayScan,
    event: ScanEvent,
    r: ScanStep,
)
    requires
        call_ensures(DisplayScan::step, (s, event), r),
        old(s).taken < 50,
        old(s).attempt <= 50,
        old(s).display < u32::MAX,
    ensures
        event == ScanEvent::LockTaken && old(s).taken < 49 ==> {
            &&& r == ScanStep::Lock { display: final(s).display }
            &&& final(s).display == old(s).display + 1
            &&& final(s).taken == old(s).taken + 1
            &&& final(s).attempt == old(s).attempt
        },
        event == ScanEvent::LockTaken && old(s).taken == 49 ==> r == ScanStep::NoFreeDisplay,
        event == ScanEvent::Locked ==> r == (ScanStep::Bind { display: old(s).display })
            && *final(s) == *old(s),
        event == ScanEvent::Bound ==> r == (ScanStep::Ready { display: old(s).display }),
        event == ScanEvent::LockFailed ==> r == ScanStep::Fail,
        event == ScanEvent::BindFailed && old(s).attempt < 50 ==> {
            &&& r == ScanStep::Lock { display: final(s).display }
            &&& final(s).display == old(s).display + 1
            &&& final(s).taken == 0
            &&& final(s).attempt == old(s).attempt + 1
        },
        event == ScanEvent::BindFailed && old(s).attempt == 50 ==> r == ScanStep::Fail,
{
}

/// A search starts at the display that is asked for.
pub proof fn searches_start_where_asked(start: u32, r: (DisplayScan, ScanStep))
    requires
        call_ensures(DisplayScan::new, (start,), r),
    ensures
        r.0.display == start,
        r.0.taken == 0,
        r.0.attempt == 0,
        r.1 == (ScanStep::Lock { display: start }),
{
}

/// The files of a display are where X clients look for them.
pub proof fn displays_have_their_files(display: u32, socket: String, lock: String)
    requires
        call_ensures(unix_socket_path, (display,), socket),
        call_ensures(lock_path, (display,), lock),
    ensures
        socket@ == "/tmp/.X11-unix/X"@ + decimal(display as nat),
        lock@ == "/tmp/.X"@ + decimal(display as nat) + "-lock"@,
{
}

/// A lock file holds eleven characters: the number of the process, right aligned
/// behind spaces, and a line feed.
pub proof fn locks_name_their_process(pid: u32, r: String)
    requires
        call_ensures(lock_contents, (pid,), r),
    ensures
        r@.len() == 11,
        r@[10] == '\n',
        ({
            let n = decimal(pid as nat).len();
            &&& r@.subrange(10 - n, 10) == decimal(pid as nat)
            &&& forall|i: int| 0 <= i < 10 - n ==> r@[i] == ' '
        }),
{
    assert(vstd::arithmetic::power::pow(10, 10) == 10_000_000_000) by {
        reveal_with_fuel(vstd::arithmetic::power::pow, 11);
    }
    crate::text::lemma_decimal_length(pid as nat, 10);
    let n = decimal(pid as nat).len();
    assert(r@.subrange(10 - n, 10) =~= decimal(pid as nat));
}

/// The satellite is told its display and the sockets that it is handed, the
/// abstract one first where there is one. It is a client of this compositor and
/// does not use the display of the host.
pub proof fn satellites_are_clients_of_this_compositor(
    config: SpawnConfig,
    sockets: X11Sockets,
    r: SpawnCommand,
    name: String,
)
    requires
        call_ensures(build_spawn_command, (&config, &sockets), r),
        call_ensures(crate::launch::display_name, (sockets.display,), name),
    ensures
        r.program@ == config.binary@,
        r.args@[0]@ == name@,
        sockets.abstract_fd matches Some(fd) ==> {
            &&& r.args@.len() == 5
            &&& r.args@[1]@ == "-listenfd"@ && r.args@[2]@ == signed_decimal(fd as int)
            &&& r.args@[3]@ == "-listenfd"@
            &&& r.args@[4]@ == signed_decimal(sockets.unix_fd as int)
        },
        sockets.abstract_fd is None ==> {
            &&& r.args@.len() == 3
            &&& r.args@[1]@ == "-listenfd"@
            &&& r.args@[2]@ == signed_decimal(sockets.unix_fd as int)
        },
        r.envs@.len() == 3,
        r.envs@[0].key@ == "WAYLAND_DISPLAY"@,
        r.envs@[0].value is Some,
        r.envs@[0].value->0@ == config.wayland_socket@,
        r.envs@[1].key@ == "XDG_RUNTIME_DIR"@,
        r.envs@[1].value is Some,
        r.envs@[1].value->0@ == config.xdg_runtime_dir@,
        r.envs@[2].key@ == "DISPLAY"@,
        r.envs@[2].value is None,
{
    let all = texts(r.args@);
    assert(all.len() == r.args@.len());
    assert(all[0] == r.args@[0]@ && all[1] == r.args@[1]@ && all[2] == r.args@[2]@);
    if sockets.abstract_fd is Some {
        assert(all[3] == r.args@[3]@ && all[4] == r.args@[4]@);
    }
}

/// A satellite is started on demand only where it says, by ending well, that it
/// takes sockets.
pub proof fn only_willing_satellites_are_used(probe: Probe, r: bool)
    requires
        call_ensures(test_ondemand, (probe,), r),
    ensures
        probe matches Probe::Exited(status) ==> (r <==> status == 0),
        probe is NotStarted || probe is Killed ==> !r,
{
}

/// A backend is chosen by its name, in either case of its letters where that is
/// allowed; any other text is refused and told back.
pub proof fn backends_are_chosen_by_name(
    input: &str,
    ignore_case: bool,
    r: Result<XwaylandBackend, String>,
)
    requires
        call_ensures(XwaylandBackend::from_str, (input, ignore_case), r),
    ensures
        input@ == "smithay"@ ==> r == Ok::<XwaylandBackend, String>(XwaylandBackend::Smithay),
        input@ == "satellite"@ ==> r == Ok::<XwaylandBackend, String>(XwaylandBackend::Satellite),
        !ignore_case && input@ != "smithay"@ && input@ != "satellite"@ ==> r is Err && r->Err_0@
            == "invalid variant: "@ + input@,
        ignore_case ==> (r is Ok <==> same_but_for_case("smithay"@, input@) || same_but_for_case(
            "satellite"@,
            input@,
        )),
        ignore_case && same_but_for_case("satellite"@, input@) ==> r == Ok::<
            XwaylandBackend,
            String,
        >(XwaylandBackend::Satellite),
{
    reveal_strlit("smithay");
    reveal_strlit("satellite");
    assert(XwaylandBackend::Smithay.name() == "smithay"@);
    assert(XwaylandBackend::Satellite.name() == "satellite"@);
    assert(lowered("smithay"@).len() == 7 && lowered("satellite"@).len() == 9);
    assert(lowered(input@).len() == input@.len());
    lemma_same_but_for_case("smithay"@, input@);
    lemma_same_but_for_case("satellite"@, input@);
    if let Ok(b) = r {
        match b {
            XwaylandBackend::Smithay => {},
            XwaylandBackend::Satellite => {},
        }
    }
}

/// Two texts differ at most in the case of their ASCII letters.
pub open spec fn same_but_for_case(a: Seq<char>, b: Seq<char>) -> bool {
    a.len() == b.len() && forall|i: int|
        0 <= i < a.len() ==> #[trigger] a[i] == b[i] || ('a' <= a[i] <= 'z' && b[i] as int == a[i]
            as int - 32) || ('A' <= a[i] <= 'Z' && b[i] as int == a[i] as int + 32)
}

proof fn lemma_same_but_for_case(a: Seq<char>, b: Seq<char>)
    ensures
        same_but_for_case(a, b) <==> lowered(a) == lowered(b),
{
    assert(lowered(a).len() == a.len() && lowered(b).len() == b.len());
    assert forall|x: char, y: char| #[trigger] lower(x) == #[trigger] lower(y) <==> (x == y || (
    'a' <= x <= 'z' && y as int == x as int - 32) || ('A' <= x <= 'Z' && y as int == x as int
        + 32)) by {
        lemma_lower(x);
        lemma_lower(y);
    }
    if same_but_for_case(a, b) {
        assert forall|i: int| 0 <= i < a.len() implies lowered(a)[i] == lowered(b)[i] by {
            assert(lower(a[i]) == lower(b[i]));
        }
        assert(lowered(a) =~= lowered(b));
    }
    if lowered(a) == lowered(b) {
        assert forall|i: int| 0 <= i < a.len() implies #[trigger] a[i] == b[i] || ('a' <= a[i]
            <= 'z' && b[i] as int == a[i] as int - 32) || ('A' <= a[i] <= 'Z' && b[i] as int == a[i]
            as int + 32) by {
            assert(lowered(a)[i] == lower(a[i]));
            assert(lowered(b)[i] == lower(b[i]));
        }
    }
}

proof fn lemma_lower(c: char)
    ensures
        lower(c) as int == if 'A' <= c <= 'Z' {
            c as int + 32
        } else {
            c as int
        },
{
}

/// A backend is told by its name, and that name chooses it again.
pub proof fn told_names_choose_the_backend(
    b: XwaylandBackend,
    name: String,
    input: &str,
    ignore_case: bool,
    r: Result<XwaylandBackend, String>,
)
    requires
        call_ensures(XwaylandBackend::to_string, (&b,), name),
        input@ == name@,
        call_ensures(XwaylandBackend::from_str, (input, ignore_case), r),
    ensures
        r == Ok::<XwaylandBackend, String>(b),
        b is Smithay ==> name@ == "smithay"@,
        b is Satellite ==> name@ == "satellite"@,
{
    backends_are_chosen_by_name(input, ignore_case, r);
}

/// A failed setup is told with its reason; a file to remove is the one that it was
/// made for.
pub proof fn failed_setups_are_told(e: SetupError, r: String, path: &str, file: Unlink, told: &str)
    requires
        call_ensures(SetupError::message, (&e,), r),
        call_ensures(Unlink::new, (path,), file),
        call_ensures(Unlink::path, (&file,), told),
    ensures
        match e {
            SetupError::Io(reason) => r@ == "io error: "@ + reason@,
            SetupError::NoFreeDisplay => r@ == "no free X11 display number found"@,
            SetupError::X11DirPermissions(reason) => r@ == "X11 directory: "@ + reason@,
        },
        told@ == path@,
{
}

} // verus!
