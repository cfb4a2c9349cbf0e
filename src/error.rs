//! The failures that the library reports.

use vstd::prelude::*;

verus! {

/// Every failure carries a human-readable reason.
#[derive(Debug, Clone, PartialEq, Eq)]
pub enum Error {
    /// A caller-supplied version string is not a semantic version.
    ParsingFailed(String),
    /// A field that the dialect requires was never found in the document.
    VersionNotFound(String),
    /// The target version is lower than the current one.
    VersionNotIncreasing(String),
    /// Reading or writing the underlying file failed.
    IoError(String),
}

pub type GradleResult<T> = Result<T, Error>;

} // verus!
