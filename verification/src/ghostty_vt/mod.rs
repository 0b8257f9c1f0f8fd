//! The single-threaded terminal: its event queue and its input encoding.
pub mod events;
pub mod input;
pub mod types;
