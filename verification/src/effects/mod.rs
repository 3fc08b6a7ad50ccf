//! Visual overlays.
//!
//! What an overlay keeps and decides is here; images of text in the fonts of
//! the system and everything that takes fractions are made outside.

pub mod bitmap_font;
pub mod chain;
pub mod cursor_trail;
pub mod glyphs;
pub mod jelly_cursor;
pub mod measure;
pub mod pixels;
pub mod recorder;
pub mod skeleton;
pub mod splash;
pub mod state;
pub mod workspace_bar;
