//! Settings, sound profiles and runtime decisions of a desktop application
//! that plays one sound when a key goes down and another when it comes up.
//!
//! Paths are held as text with Unix path semantics; file and device I/O,
//! audio decoding and the user interface live outside this library and hand
//! it plain values.

pub mod config;
pub mod error;
pub mod icon;
pub mod input;
pub mod order;
pub mod paths;
pub mod runtime;
pub mod text;
pub mod user_dirs;
