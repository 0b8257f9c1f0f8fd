//! The terminal's render state: cells, styles, colours and events.
pub mod events;
pub mod types;
