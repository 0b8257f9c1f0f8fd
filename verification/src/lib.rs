//! The verified core of a terminal emulator: glyph packing and caching, run
//! segmentation, tab handling, terminal cell decoding and the pseudo-console
//! worker.
pub mod app;
pub mod emoji;
pub mod font;
pub mod ghostty;
pub mod ghostty_vt;
pub mod pty;
pub mod rapid;
pub mod text;
