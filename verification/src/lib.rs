//! Mounts a partially recovered disk image so that unread ranges surface
//! as genuine I/O errors: a ddrescue-style map file is parsed into a
//! device-mapper table, and mounted devices are tracked in a small
//! registry persisted as JSON.
//!
//! The map parser (`parser`), its diagnostics (`diagnostics`), the numeric
//! conventions (`numbers`), and the device registry with its persistence
//! (`config`, `json`) are specified exactly and verified; running outside
//! tools and the process boundary belong to the surrounding binary.

pub mod config;
pub mod diagnostics;
pub mod error;
pub mod json;
pub mod mount;
pub mod numbers;
pub mod parser;
pub mod status;
pub mod text;
pub mod unmount;
pub mod wsl;

pub use parser::parse_map_string;
