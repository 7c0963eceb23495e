//! A minimal package-fetching library: derive the download URL and on-disk
//! locations for a named package, read the entries of a downloaded ZIP
//! archive, and turn them into a path-safe extraction plan that a caller can
//! materialize on disk. Removal is modelled as a small state machine over the
//! presence of the install directory.

pub mod archive;
pub mod errors;
pub mod materialize;
pub mod paths;
pub mod store;
