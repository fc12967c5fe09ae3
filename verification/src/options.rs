//! The immutable run configuration, as a plain value.

use vstd::prelude::*;

use crate::path::FsPath;

verus! {

/// The configuration shared read-only by every component: the two root
/// directories and the behaviour flags.
pub struct Options {
    pub stow_dir: FsPath,
    pub target_dir: FsPath,
    pub special_keywords: bool,
    pub security_check: bool,
    pub verbose: bool,
    pub simulate: bool,
}

impl Options {
    /// The default configuration over the given roots: keywords and the
    /// security check enabled, verbosity and simulation off.
    pub fn new(stow_dir: FsPath, target_dir: FsPath) -> (r: Options)
        ensures
            r.stow_dir@ == stow_dir@,
            r.target_dir@ == target_dir@,
            r.special_keywords,
            r.security_check,
            !r.verbose,
            !r.simulate,
    {
        Options {
            stow_dir,
            target_dir,
            special_keywords: true,
            security_check: true,
            verbose: false,
            simulate: false,
        }
    }
}

} // verus!
