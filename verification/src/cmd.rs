//! The validated request the engine is constructed from.
//!
//! Argument parsing itself lives outside the library; what arrives here
//! are plain values.

use vstd::prelude::*;

use crate::path::FsPath;

verus! {

/// One run's worth of requests: the two roots, the behaviour flags, an
/// optional two-part name-rewrite rule, and the packages asked for under
/// each operation.
pub struct Args {
    /// The directory containing the packages to be stowed.
    pub stow_dir: FsPath,
    /// The directory in which the packages will be stowed.
    pub target_dir: FsPath,
    /// Enable verbose output.
    pub verbose: bool,
    /// Enable simulation mode.
    pub simulate: bool,
    /// Disable the special paths feature.
    pub no_special_paths: bool,
    /// Disable the security checks.
    pub no_security_check: bool,
    /// An optional name-rewrite rule: a pattern and its replacement, or
    /// empty for none.
    pub replace_name: Vec<String>,
    /// Packages to stow.
    pub stow: Vec<FsPath>,
    /// Packages to unstow.
    pub unstow: Vec<FsPath>,
    /// Packages to restow.
    pub restow: Vec<FsPath>,
    /// Packages to adopt.
    pub adopt: Vec<FsPath>,
}

} // verus!
