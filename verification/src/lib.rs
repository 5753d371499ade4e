//! Core of a fuzzy directory-navigation helper: a persisted, sorted list of
//! known directories, regex-based matching over it, bookkeeping for a
//! recursive filesystem scan, and the decision logic of the interactive
//! resolution flow. All I/O (config file, terminal, filesystem walk) is left
//! to the surrounding program; this crate holds the verified logic.

use vstd::prelude::*;

pub mod config;
pub mod flow;
pub mod matcher;
pub mod paths;
pub mod scanner;
pub mod strutil;

verus! {

/// The error kinds of the tool. `InvalidPattern` is the one this crate
/// produces itself (a pattern that does not compile as a regular expression);
/// the others classify failures that the surrounding program meets while
/// loading or saving the configuration, resolving a literal path, or walking
/// the filesystem.
#[derive(Clone, Copy, Debug, PartialEq, Eq, Structural)]
pub enum GodirError {
    ConfigCorrupt,
    IoError,
    InvalidPattern,
    InvalidPath,
    PermissionDenied,
}

} // verus!
