//! Diagnostic library for resource packs: a small key-value/list text codec
//! ("slop"), per-domain reference snapshots of an asset tree (images, sounds,
//! music, localization keys), and the validation of a repacked tree against a
//! loaded snapshot, with bounded reporting.

pub mod gen;
pub mod image_data;
pub mod input;
pub mod paths;
pub mod records;
pub mod scan;
pub mod scanner;
pub mod slop;
pub mod slopx;
pub mod static_file_data;
pub mod text;
