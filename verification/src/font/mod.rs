//! Fonts: atlases, caches, style resolution and text runs.
pub mod atlas;
pub mod atlas_rules;
pub mod backend;
pub mod cache;
pub mod collection;
pub mod grid_fonts;
pub mod packing;
pub mod resolver;
pub mod setting_rules;
pub mod settings;
pub mod shared_grid;
pub mod shared_grid_set;
pub mod shaper;
pub mod types;
