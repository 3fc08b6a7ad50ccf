//! DBus wire format: header parsing and message building.

pub mod encode;
pub mod errors;
pub mod exchange;
pub mod laws;
pub mod message;
