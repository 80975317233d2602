//! The failure modes of changelog operations.

use vstd::prelude::*;

verus! {

/// Why a changelog operation failed.
#[derive(Clone, Debug, PartialEq, Eq)]
pub enum Error {
    /// The changelog root does not exist.
    NotFound,
    /// The directory layout does not match the changelog schema; carries
    /// the offending directory or file name.
    Malformed(String),
    /// A release was requested while the unreleased bucket holds no entries.
    EmptyRelease,
    /// The requested release version already exists as a release bucket.
    AlreadyReleased,
    /// An underlying read, write or rename failed.
    Io,
    /// The unreleased bucket was moved into place, but restoring the empty
    /// unreleased skeleton afterwards failed; the tree needs manual repair.
    PartialMutation,
}

impl Error {
    /// A one-line description of the failure, for logging.
    pub fn message(&self) -> (r: String)
        ensures
            r@ == match self {
                Error::NotFound => "changelog directory not found"@,
                Error::Malformed(p) => "unrecognized changelog structure: "@ + p@,
                Error::EmptyRelease => "nothing to release: the unreleased bucket has no entries"@,
                Error::AlreadyReleased => "this version has already been released"@,
                Error::Io => "a file operation failed"@,
                Error::PartialMutation => "the unreleased bucket was moved but its empty skeleton could not be restored"@,
            },
    {
        match self {
            Error::NotFound => "changelog directory not found".to_owned(),
            Error::Malformed(p) => {
                let mut m = "unrecognized changelog structure: ".to_owned();
                m.append(p.as_str());
                m
            },
            Error::EmptyRelease => "nothing to release: the unreleased bucket has no entries".to_owned(),
            Error::AlreadyReleased => "this version has already been released".to_owned(),
            Error::Io => "a file operation failed".to_owned(),
            Error::PartialMutation => "the unreleased bucket was moved but its empty skeleton could not be restored".to_owned(),
        }
    }
}

} // verus!
