//! Core logic of a git-worktree manager: parsing the porcelain worktree
//! listing, merging local and remote branch catalogs, generating worktree
//! paths, and validating branch names and filesystem paths.
//!
//! All functions here are pure: they decide what command to run and how to
//! interpret its output, but never touch the repository or the filesystem
//! themselves.

pub mod branches;
pub mod colors;
pub mod error;
pub mod paths;
pub mod project;
pub mod strutil;
pub mod validation;
pub mod worktree;

