//! Validation of a repacked tree against the loaded reference snapshots,
//! one module per content domain.

pub mod images;
pub mod loc;
pub mod music;
pub mod sounds;
