//! The verified core of emskin, a nested Wayland compositor that hosts Emacs
//! and embeds other programs in its windows.

pub mod bar;
pub mod broker;
pub mod bytes;
pub mod capture;
pub mod cursor_x11;
pub mod dbus;
pub mod dbus_broker;
pub mod effects;
pub mod encoder;
pub mod emez;
pub mod fcitx;
pub mod frame;
pub mod geometry;
pub mod ime;
pub mod input;
pub mod launch;
pub mod layout;
pub mod recording;
pub mod rules;
pub mod selection;
pub mod shell;
pub mod state;
pub mod text;
pub mod tick;
pub mod workspace;
pub mod x11;
pub mod xwayland_satellite;
