//! Snapshots of a file system tree, taken incrementally: files unchanged since the
//! previous snapshot are hard-linked to it, the rest are copied. The library holds the
//! rules: command-line parsing, the metadata file format, snapshot names and locations,
//! which directories are left out, how snapshots are listed, removed and checked, and how
//! sizes are summed and shown.
use vstd::prelude::*;

pub mod cli;
pub mod commands;
pub mod error;
pub mod filter;
pub mod location;
pub mod meta;
pub mod name;
pub mod size;
pub mod style;
pub mod tags;
pub mod text;

verus! {
}
