//! Errors of the filesystem layer.

use vstd::prelude::*;

verus! {

/// Why a short file name could not be parsed.
#[derive(Clone, Copy, PartialEq, Eq, Structural, Debug)]
pub enum FilenameError {
    /// The name was empty.
    FilenameEmpty,
    /// The name holds a space.
    MisplacedPeriod,
    /// Base over eight bytes or extension over three.
    NameTooLong,
    /// A byte the format forbids.
    InvalidCharacter,
}

/// Errors the filesystem layer reports.
#[derive(Clone, Copy, PartialEq, Eq, Structural, Debug)]
pub enum FsError {
    /// No entry with the requested name.
    FileNotFound,
    /// A path component that must be a directory is not.
    NotADirectory,
    /// The path names a directory where a file is required.
    NotAFile,
    /// The cluster chain points at a bad cluster.
    BadCluster,
    /// The name is not a valid 8.3 short name.
    BadFilename(FilenameError),
}

} // verus!
