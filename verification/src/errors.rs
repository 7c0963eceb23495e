//! The error taxonomy of the package tool, and the implicit per-package
//! state that is read off the filesystem (a package is "installed" exactly
//! when its install directory exists).

use vstd::prelude::*;

verus! {

/// Everything that can go wrong while fetching, extracting or removing a
/// package. `NotFound` doubles as the normal "nothing to do" outcome of
/// `remove`, and as the hard failure of `extract` when no archive was
/// downloaded.
#[derive(Clone, Copy, Debug, PartialEq, Eq, Structural)]
pub enum PkgError {
    /// Transport failure or non-success HTTP status.
    Network,
    /// The downloaded bytes are not a readable archive, or an entry cannot
    /// be decompressed.
    ArchiveRead,
    /// A directory or file could not be created or written.
    FilesystemWrite,
    /// An archive entry's path would resolve outside the target root.
    PathTraversal,
    /// The requested package has no archive (extract) or no install
    /// directory (remove).
    NotFound,
}

impl PkgError {
    /// A short human-readable description, for callers that print errors.
    pub fn describe(&self) -> (r: &'static str)
        ensures
            r@ =~= match *self {
                PkgError::Network => "network request failed"@,
                PkgError::ArchiveRead => "could not read archive"@,
                PkgError::FilesystemWrite => "could not write to filesystem"@,
                PkgError::PathTraversal => "archive entry escapes the target directory"@,
                PkgError::NotFound => "package not found"@,
            },
    {
        match *self {
            PkgError::Network => "network request failed",
            PkgError::ArchiveRead => "could not read archive",
            PkgError::FilesystemWrite => "could not write to filesystem",
            PkgError::PathTraversal => "archive entry escapes the target directory",
            PkgError::NotFound => "package not found",
        }
    }
}

/// The implicit state of one package, inferred from directory presence.
#[derive(Clone, Copy, Debug, PartialEq, Eq, Structural)]
pub enum PkgState {
    /// No install directory exists.
    Absent,
    /// The install directory exists.
    Installed,
}

/// What `remove` reports: the tree was deleted, or there was nothing to
/// delete (a normal outcome, not a fault).
#[derive(Clone, Copy, Debug, PartialEq, Eq, Structural)]
pub enum RemoveOutcome {
    Removed,
    NotFound,
}

} // verus!
