//! The satellite: backends, displays and its command.

use emskin::launch::display_name;
use emskin::xwayland_satellite::{
    build_spawn_command, lock_contents, lock_path, test_ondemand, unix_socket_path, DisplayScan,
    Probe, ScanEvent, ScanStep, SetupError, SpawnConfig, Unlink, X11Sockets, XwaylandBackend,
};

#[test]
fn default_backend_is_smithay() {
    assert_eq!(XwaylandBackend::default(), XwaylandBackend::Smithay);
}

#[test]
fn value_enum_parses_lowercase_names() {
    assert_eq!(
        XwaylandBackend::from_str("smithay", true).unwrap(),
        XwaylandBackend::Smithay
    );
    assert_eq!(
        XwaylandBackend::from_str("satellite", true).unwrap(),
        XwaylandBackend::Satellite
    );
}

#[test]
fn value_enum_rejects_unknown_names() {
    assert!(XwaylandBackend::from_str("xorg", true).is_err());
    assert!(XwaylandBackend::from_str("", true).is_err());
}

#[test]
fn display_round_trips_value_enum() {
    for b in [XwaylandBackend::Smithay, XwaylandBackend::Satellite] {
        let s = b.to_string();
        assert_eq!(XwaylandBackend::from_str(&s, true).unwrap(), b);
    }
}

#[test]
fn case_counts_only_where_it_is_asked_for() {
    assert_eq!(
        XwaylandBackend::from_str("SateLLite", true),
        Ok(XwaylandBackend::Satellite)
    );
    assert_eq!(
        XwaylandBackend::from_str("SateLLite", false),
        Err("invalid variant: SateLLite".to_string())
    );
}

/// Runs a scan against a world in which `locked` displays have a lock file and
/// the sockets of `unbindable` ones cannot be bound.
fn scan(start: u32, locked: &[u32], unbindable: &[u32]) -> Result<u32, ScanStep> {
    let (mut scan, mut step) = DisplayScan::new(start);
    loop {
        let event = match step {
            ScanStep::Lock { display } => {
                if locked.contains(&display) {
                    ScanEvent::LockTaken
                } else {
                    ScanEvent::Locked
                }
            }
            ScanStep::Bind { display } => {
                if unbindable.contains(&display) {
                    ScanEvent::BindFailed
                } else {
                    ScanEvent::Bound
                }
            }
            ScanStep::Ready { display } => return Ok(display),
            other => return Err(other),
        };
        step = scan.step(event);
    }
}

#[test]
fn setup_connection_binds_free_display_and_exposes_paths() {
    let start = 100;
    let display = scan(start, &[], &[]).expect("setup_connection should succeed");
    assert!(display >= start, "display {} should be >= start {start}", display);
    assert_eq!(display_name(display), format!(":{}", display));
    assert_eq!(lock_path(display), "/tmp/.X100-lock");
    assert_eq!(unix_socket_path(display), "/tmp/.X11-unix/X100");
}

#[test]
fn setup_connection_skips_already_locked_display() {
    let start = 100;
    let display = scan(start, &[start], &[]).expect("should advance past locked display");
    assert!(display > start, "should skip locked :{start}, got :{}", display);
}

#[test]
fn a_display_that_cannot_be_bound_is_left() {
    assert_eq!(scan(5, &[6], &[5, 7]), Ok(8));
}

#[test]
fn fifty_taken_displays_are_enough() {
    let taken: Vec<u32> = (0..50).collect();
    assert_eq!(scan(0, &taken, &[]), Err(ScanStep::NoFreeDisplay));
    assert_eq!(scan(0, &taken[..49], &[]), Ok(49));
}

#[test]
fn binding_is_tried_fifty_one_times() {
    let all: Vec<u32> = (0..51).collect();
    assert_eq!(scan(0, &[], &all), Err(ScanStep::Fail));
    assert_eq!(scan(0, &[], &all[..50]), Ok(50));
}

#[test]
fn a_failing_lock_ends_the_search() {
    let (mut scan, _) = DisplayScan::new(3);
    assert_eq!(scan.step(ScanEvent::LockFailed), ScanStep::Fail);
}

#[test]
fn the_lock_holds_the_process_in_ten_columns() {
    assert_eq!(lock_contents(42), "        42\n");
    assert_eq!(lock_contents(4294967295), "4294967295\n");
}

#[test]
fn guards_know_their_file() {
    assert_eq!(Unlink::new("/tmp/.X1-lock").path(), "/tmp/.X1-lock");
}

#[test]
fn setup_errors_are_told() {
    assert_eq!(SetupError::Io("broken".to_string()).message(), "io error: broken");
    assert_eq!(SetupError::NoFreeDisplay.message(), "no free X11 display number found");
    assert_eq!(
        SetupError::X11DirPermissions("bad".to_string()).message(),
        "X11 directory: bad"
    );
}

#[test]
fn test_ondemand_true_when_binary_exits_zero() {
    assert!(test_ondemand(Probe::Exited(0)));
}

#[test]
fn test_ondemand_false_when_binary_exits_nonzero() {
    assert!(!test_ondemand(Probe::Exited(1)));
}

#[test]
fn test_ondemand_false_when_binary_missing() {
    // What starting "/nonexistent/definitely-not-a-real-binary" comes to.
    assert!(!test_ondemand(Probe::NotStarted));
}

fn spawn_config(binary: &str) -> SpawnConfig {
    SpawnConfig {
        binary: binary.to_string(),
        wayland_socket: "/run/user/1000/wayland-emskin".to_string(),
        xdg_runtime_dir: "/run/user/1000".to_string(),
    }
}

fn sockets() -> X11Sockets {
    X11Sockets { display: 100, abstract_fd: Some(11), unix_fd: 12 }
}

#[test]
fn spawn_command_argv_prefix_is_display_then_listenfds() {
    let cmd = build_spawn_command(&spawn_config("sat"), &sockets());
    let args_str = cmd.args;
    assert_eq!(args_str[0], ":100", "first arg must be :N");

    let mut saw_unix = false;
    let mut i = 1;
    while i < args_str.len() {
        if args_str[i] == "-listenfd" {
            let fd: i32 = args_str
                .get(i + 1)
                .expect("-listenfd must be followed by an fd")
                .parse()
                .expect("fd arg must be numeric");
            assert!(fd >= 0);
            saw_unix = true;
            i += 2;
        } else {
            i += 1;
        }
    }
    assert!(saw_unix, "expected at least one -listenfd argument");
    assert_eq!(args_str, [":100", "-listenfd", "11", "-listenfd", "12"]);
}

#[test]
fn spawn_command_env_sets_wayland_display_and_runtime_dir() {
    let cmd = build_spawn_command(&spawn_config("sat"), &sockets());
    let wayland = cmd
        .envs
        .iter()
        .find(|e| e.key == "WAYLAND_DISPLAY")
        .expect("WAYLAND_DISPLAY must be set");
    assert_eq!(
        wayland.value.as_deref(),
        Some("/run/user/1000/wayland-emskin"),
        "WAYLAND_DISPLAY should match spawn_config",
    );
    let runtime = cmd
        .envs
        .iter()
        .find(|e| e.key == "XDG_RUNTIME_DIR")
        .expect("XDG_RUNTIME_DIR must be set");
    assert_eq!(runtime.value.as_deref(), Some("/run/user/1000"));
}

#[test]
fn spawn_command_env_removes_display() {
    let cmd = build_spawn_command(&spawn_config("sat"), &sockets());
    let removed: bool = cmd.envs.iter().any(|e| e.key == "DISPLAY" && e.value.is_none());
    assert!(
        removed,
        "DISPLAY should be marked for removal so the child doesn't inherit host :0"
    );
}

#[test]
fn spawn_command_uses_configured_binary() {
    let cmd = build_spawn_command(&spawn_config("/opt/bin/sat"), &sockets());
    assert_eq!(cmd.program, "/opt/bin/sat", "program should be the configured binary path");
}
