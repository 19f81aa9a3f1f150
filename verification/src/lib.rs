//! A small filesystem-access core: recursive directory listing with a
//! deterministic order, content-type-aware file reading, crash-safe file
//! writing by a temporary-file-and-rename protocol, and entry creation.
//!
//! The library holds the decision logic of these operations over plain
//! values (names, paths, bytes); the filesystem calls themselves are made
//! by the surrounding application, which feeds their results back in.

pub mod content;
pub mod creator;
pub mod errors;
pub mod fs_model;
pub mod tree;
pub mod writer;
