//! Files, arguments and environment of the compositor and its children.

use emskin::launch::{
    bar_candidates, bar_choice, bar_env, child_args, child_env, default_ipc_path, embedded_dir,
    join, runtime_dir, session_dir, upstream_bus, xkb_layout, BarChoice, DbusBridge, EnvVar, Inert,
    Startup, StartupStep, XWaylandEvent,
};
use emskin::selection::{SelectionCall, SelectionState, SelectionTarget};
use emskin::state::{OutgoingMessage, PendingCommand};

fn pairs(env: Vec<EnvVar>) -> Vec<(String, String)> {
    env.into_iter().map(|v| (v.key, v.value)).collect()
}

#[test]
fn inject_env_is_noop_when_inert() {
    let bridge = DbusBridge::new();
    let dbg = format!("{:?}", bridge.inject_env());
    assert!(
        !dbg.contains("DBUS_SESSION_BUS_ADDRESS"),
        "inert bridge must not set env; got: {dbg}"
    );
}

#[test]
fn inject_env_sets_unix_path_when_live() {
    let bridge = DbusBridge {
        listen_path: Some("/run/user/1000/emskin-dbus-42/bus.sock".to_string()),
        ..DbusBridge::new()
    };
    let dbg = format!("{:?}", bridge.inject_env());
    assert!(dbg.contains("unix:path=/run/user/1000/emskin-dbus-42/bus.sock"));
}

#[test]
fn a_live_bridge_listens_in_its_directory() {
    let mut bridge = DbusBridge::live(session_dir(Some("/run/user/1000"), 42));
    assert_eq!(
        pairs(bridge.inject_env()),
        [(
            "DBUS_SESSION_BUS_ADDRESS".to_string(),
            "unix:path=/run/user/1000/emskin-dbus-42/bus.sock".to_string()
        )]
    );
    assert_eq!(bridge.shutdown().as_deref(), Some("/run/user/1000/emskin-dbus-42"));
    assert!(bridge.inject_env().is_empty());
    assert_eq!(bridge.shutdown(), None);
}

#[test]
fn the_bridge_needs_the_path_of_a_bus() {
    assert_eq!(upstream_bus(None), Err(Inert::NoBus));
    assert_eq!(upstream_bus(Some("tcp:host=x")), Err(Inert::UnsupportedAddress));
    assert_eq!(upstream_bus(Some("unix:path=/a,guid=1")), Ok("/a".to_string()));
}

#[test]
fn paths_are_joined_with_one_slash() {
    assert_eq!(join("/usr/bin", "emskin-bar"), "/usr/bin/emskin-bar");
    assert_eq!(join("/", "emskin-bar"), "/emskin-bar");
    assert_eq!(join("", "emskin-bar"), "emskin-bar");
}

#[test]
fn files_live_in_the_runtime_directory() {
    assert_eq!(runtime_dir(None), "/tmp");
    assert_eq!(default_ipc_path(Some("/run/user/1"), 7), "/run/user/1/emskin-7.ipc");
    assert_eq!(embedded_dir(None, 12, "elisp"), "/tmp/emskin-12/elisp");
    assert_eq!(session_dir(None, 3), "/tmp/emskin-dbus-3");
}

#[test]
fn a_variant_alone_is_of_the_us_layout() {
    assert_eq!(xkb_layout("", "nodeadkeys"), "us");
    assert_eq!(xkb_layout("", ""), "");
    assert_eq!(xkb_layout("de", "nodeadkeys"), "de");
}

#[test]
fn the_bar_is_chosen_by_its_argument() {
    assert_eq!(bar_choice("none"), BarChoice::Nothing);
    assert_eq!(bar_choice("auto"), BarChoice::Auto);
    assert_eq!(bar_choice("/usr/bin/waybar"), BarChoice::Explicit("/usr/bin/waybar".to_string()));
}

#[test]
fn the_bar_is_looked_for_beside_the_program_first() {
    let path = ["/a".to_string(), "/b/".to_string()];
    assert_eq!(
        bar_candidates(Some("/opt"), &path),
        ["/opt/emskin-bar", "/a/emskin-bar", "/b/emskin-bar"]
    );
    assert_eq!(bar_candidates(None, &path[..1]), ["/a/emskin-bar"]);
}

#[test]
fn standalone_loads_the_built_in_files_first() {
    let args = ["-Q".to_string()];
    assert_eq!(
        child_args(Some("/x/elisp"), &args),
        ["--directory", "/x/elisp", "-l", "emskin", "-Q"]
    );
    assert_eq!(child_args(None, &args), ["-Q"]);
}

#[test]
fn children_are_told_the_displays() {
    let env = pairs(child_env("wayland-1", 4));
    assert_eq!(env[0], ("WAYLAND_DISPLAY".to_string(), "wayland-1".to_string()));
    assert_eq!(env[1], ("DISPLAY".to_string(), ":4".to_string()));
    assert!(env.contains(&("GDK_BACKEND".to_string(), "wayland,x11".to_string())));
    assert_eq!(env.len(), 8);
    assert_eq!(
        pairs(bar_env("wayland-1")),
        [("WAYLAND_DISPLAY".to_string(), "wayland-1".to_string())]
    );
}

#[test]
fn the_command_runs_once_the_display_is_ready() {
    let command =
        PendingCommand { command: "emacs".to_string(), args: Vec::new(), standalone: false };
    let mut startup = Startup::new(false, command.clone());
    assert_eq!(startup.xwayland_ready(3), Some(command.clone()));
    assert_eq!(startup.xdisplay, Some(3));
    assert_eq!(startup.xwayland_ready(3), None);
    assert_eq!(Startup::new(true, command).xwayland_ready(1), None);
}

#[test]
fn the_x_display_is_announced_before_emacs_runs() {
    let command =
        PendingCommand { command: "emacs".to_string(), args: Vec::new(), standalone: false };
    let mut selection = SelectionState::new();
    let mimes = vec!["text/plain".to_string()];
    selection.host_selection_changed(SelectionTarget::Primary, mimes.clone(), false);

    let mut startup = Startup::new(false, command.clone());
    assert!(startup.start_xwayland(XWaylandEvent::Error, &selection).is_empty());
    let unmanaged = XWaylandEvent::Ready { display: 3, managed: false };
    assert!(startup.start_xwayland(unmanaged, &selection).is_empty());
    assert_eq!(startup.xdisplay, None);

    let ready = XWaylandEvent::Ready { display: 3, managed: true };
    let steps = startup.start_xwayland(ready, &selection);
    assert_eq!(steps.len(), 5);
    assert!(matches!(&steps[0], StartupStep::SetDisplay(name) if name == ":3"));
    assert!(matches!(
        &steps[1],
        StartupStep::Send(OutgoingMessage::XWaylandReady { display: 3 })
    ));
    let StartupStep::Select(calls) = &steps[2] else {
        panic!("no selections");
    };
    assert_eq!(calls, &[SelectionCall::SetX11(SelectionTarget::Primary, Some(mimes))]);
    assert!(matches!(&steps[3], StartupStep::WatchCursor(3)));
    assert!(matches!(&steps[4], StartupStep::Spawn(spawned) if *spawned == command));
    assert_eq!(startup.xdisplay, Some(3));
    assert_eq!(startup.start_xwayland(ready, &selection).len(), 4);
}
