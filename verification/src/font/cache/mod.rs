//! Caches for shaped runs and rasterized glyphs.
pub mod cache_table;
pub mod glyph_cache;
pub mod shaped_run_cache;
