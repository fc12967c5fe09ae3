//! A symlink-farm manager, verified.
//!
//! Packages (directory trees under a stow area) are merged into a target
//! directory by creating symlinks that mirror each package's internal
//! structure; the merge can be reversed (unstow), re-applied (restow), or
//! inverted (adopt).  The merge engine runs over an explicit model of the
//! file tree and returns the primitive filesystem mutations it decided on,
//! so that every decision the engine makes is verified.

pub mod action;
pub mod cmd;
pub mod fsmodel;
pub mod laws;
pub mod options;
pub mod path;
pub mod rename;
pub mod stower;

pub use path::get_name;
pub use path::FsPath;
