//! Profiles, tabs and the workspace that holds them.
pub mod actions;
pub mod profile;
pub mod profile_registry;
pub mod shell_detection;
pub mod tab_rules;
pub mod tab_strip;
pub mod types;
pub mod workspace;
