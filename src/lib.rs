//! Process discovery and process-tree construction over a procfs snapshot.
//!
//! The library holds the decisions: which directory names are process ids,
//! how a status or stat descriptor is read, which processes match a name or
//! share a process group, how a flat list of records becomes a parent-indexed
//! tree and how that tree is drawn, and how signal names are resolved.
//! Reading the filesystem and delivering signals is left to the caller.

pub mod cli;
pub mod matcher;
pub mod pid;
pub mod process;
pub mod render;
pub mod signals;
pub mod status;
pub mod text;
pub mod tree;
