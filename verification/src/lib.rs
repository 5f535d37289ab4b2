//! A library for flattening a nested directory tree into a single directory.
//!
//! The verified core works on plain values: relative paths, file contents as
//! bytes, and the lines of gitignore-style ignore files.  Walking the real
//! file system and writing the flattened files is left to the callers.

pub mod cli;
pub mod comment;
pub mod errors;
pub mod flatten;
pub mod rules;
