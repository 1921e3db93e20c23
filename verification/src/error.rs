//! The failures that the library reports.

use vstd::prelude::*;

verus! {

/// What went wrong, as a closed set of kinds.
#[derive(Debug)]
pub enum Error {
    /// Reading, writing or creating something failed.
    Io,
    /// The named image, archive entry or backup file is absent.
    NotFound { name: String },
    /// Content that claims one digest has another.
    HashMismatch { expected: String, actual: String },
    /// No backup directory is configured.
    Config,
    /// A place that should be writable is not.
    Permission,
    /// The bytes are no readable archive, or the archive lacks its snapshot.
    ArchiveFormat,
}

} // verus!
