//! Sizes the packages installed under a JavaScript project's `node_modules`.
//!
//! The library works on a snapshot of the directory tree ([`tree::DirNode`]):
//! it finds the package roots, reads their manifests' fields, sums their disk
//! usage, merges installs of one name, and ranks the results.
pub mod tree;
pub mod package;
pub mod discover;
pub mod aggregate;
pub mod rank;
pub mod laws;
