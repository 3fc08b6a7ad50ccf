//! Per-connection broker logic: a state machine that takes raw bytes from a
//! client and gives the bytes to forward to the bus, with the headers of the
//! messages among them. It does no I/O itself.

pub mod laws;
pub mod offset;
pub mod rewrite;
pub mod state;

pub use offset::SharedOffset;
pub use rewrite::apply_cursor_rewrites;
