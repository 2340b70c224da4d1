use vstd::prelude::*;

verus! {

/// Failures the decoder reports.
///
/// `NotFat32` is raised only by the boot-sector sanity check at open time.
/// `NotDirectory` covers both directions of a kind mismatch: descending
/// through a non-directory, and opening a non-file as a file.
/// `NotFound` means a path component matched no entry in its directory.
/// `OutOfBounds` is the read failure an in-memory byte source reports when a
/// read would run past the end of its image; the set of kinds is open so a
/// byte source may gain failure kinds of its own.
#[derive(Debug, Clone, Copy)]
#[non_exhaustive]
pub enum Error {
    NotFat32,
    NotDirectory,
    NotFound,
    OutOfBounds,
}

impl Error {
    /// A fixed human-readable description of the failure kind.
    pub fn message(&self) -> (r: &'static str)
        ensures
            self is NotFat32 ==> r@ == "not fat32"@,
            self is NotDirectory ==> r@ == "not a directory"@,
            self is NotFound ==> r@ == "not found"@,
            self is OutOfBounds ==> r@ == "read out of bounds"@,
    {
        match self {
            Error::NotFat32 => "not fat32",
            Error::NotDirectory => "not a directory",
            Error::NotFound => "not found",
            Error::OutOfBounds => "read out of bounds",
        }
    }
}

pub type Result<T, E = Error> = core::result::Result<T, E>;

} // verus!
