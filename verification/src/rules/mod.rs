//! Rewrite rules for messages that pass through the broker.

pub mod cursor;
