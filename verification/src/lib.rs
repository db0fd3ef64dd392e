//! Artifact catalog library: discovers, filters, orders, and returns a
//! consistent inventory of generated files and multi-file build modules
//! from a sandboxed directory tree, plus safe retrieval of a single
//! cataloged file's contents.
//!
//! The library itself never touches the filesystem: callers hand it raw
//! directory listings as plain values, and every cataloging decision made
//! on them is verified.

pub mod content;
pub mod flat;
pub mod model;
pub mod modules;
pub mod paths;
pub mod order;
pub mod text;
