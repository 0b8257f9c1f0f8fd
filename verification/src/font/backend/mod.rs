//! The side of shaping and rasterizing that needs no system call: memory
//! layout, segmentation, glyph placement and pixel composition.
pub mod analyzer;
pub mod arena;
pub mod color_rules;
pub mod face;
pub mod fallback;
pub mod glyphs;
pub mod memory;
pub mod segments;
pub mod shape;
pub mod shape_rules;
pub mod variation;
