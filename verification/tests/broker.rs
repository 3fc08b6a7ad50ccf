//! Connections, routing and addresses.

use emskin::broker::offset::SharedOffset;
use emskin::dbus_broker::{format_bus_address, parse_unix_bus_address};
use emskin::fcitx::is_fcitx_interface;
use std::path::PathBuf;

#[test]
fn shared_offset_round_trips() {
    let off = SharedOffset::new();
    assert_eq!(off.get(), None);
    off.set(Some((10, 20)));
    assert_eq!(off.get(), Some((10, 20)));
    off.set(None);
    assert_eq!(off.get(), None);
}

#[test]
fn parses_plain_unix_path_form() {
    let p = parse_unix_bus_address("unix:path=/run/user/1000/bus").unwrap();
    assert_eq!(PathBuf::from(p), PathBuf::from("/run/user/1000/bus"));
}

#[test]
fn parses_unix_path_with_guid_suffix() {
    let p = parse_unix_bus_address("unix:path=/run/user/1000/bus,guid=deadbeef").unwrap();
    assert_eq!(PathBuf::from(p), PathBuf::from("/run/user/1000/bus"));
}

#[test]
fn rejects_tcp_scheme() {
    assert!(parse_unix_bus_address("tcp:host=localhost,port=1234").is_err());
}

#[test]
fn format_bus_address_wraps_unix_path() {
    assert_eq!(format_bus_address("/tmp/x.sock"), "unix:path=/tmp/x.sock");
}

#[test]
fn is_fcitx_interface_matches_known_ifaces() {
    assert!(is_fcitx_interface("org.fcitx.Fcitx.InputMethod1"));
    assert!(is_fcitx_interface("org.fcitx.Fcitx.InputContext1"));
    assert!(is_fcitx_interface("org.fcitx.Fcitx.InputContext"));
}

#[test]
fn is_fcitx_interface_rejects_unrelated() {
    assert!(!is_fcitx_interface("org.freedesktop.DBus"));
    assert!(!is_fcitx_interface("org.fcitx.Fcitx.InputMethod")); // wrong: no 1
    assert!(!is_fcitx_interface(""));
}
