//! The failures of a provider that reads collections from a directory tree.

use vstd::prelude::*;
use vstd::string::*;

verus! {

/// Why a tree of photo folders could not be taken in.
#[derive(Debug)]
pub enum FsErrors {
    /// The directory at this path could not be listed.
    CannotReadDirectory(String),
    /// The file at this path could not be read.
    CannotReadFile(String),
    /// An entry of a directory could not be had, or its name is no text.
    CannotGetDirEntry,
    /// The name of a day's folder is no date.
    DateParsingFailure,
}

impl Clone for FsErrors {
    fn clone(&self) -> (copy: Self)
        ensures
            copy == *self,
    {
        match self {
            FsErrors::CannotReadDirectory(path) => FsErrors::CannotReadDirectory(path.clone()),
            FsErrors::CannotReadFile(path) => FsErrors::CannotReadFile(path.clone()),
            FsErrors::CannotGetDirEntry => FsErrors::CannotGetDirEntry,
            FsErrors::DateParsingFailure => FsErrors::DateParsingFailure,
        }
    }
}

impl FsErrors {
    /// The sentence that reports the failure.
    pub open spec fn message_spec(self) -> Seq<char> {
        match self {
            FsErrors::CannotReadDirectory(path) => "Cannot read directory: "@ + path@ + "."@,
            FsErrors::CannotReadFile(path) => "Cannot read file: "@ + path@ + "."@,
            FsErrors::CannotGetDirEntry => "Cannot get dir entry."@,
            FsErrors::DateParsingFailure => "Cannot parse date."@,
        }
    }

    /// The sentence that reports the failure.
    pub fn message(&self) -> (text: String)
        ensures
            text@ == self.message_spec(),
    {
        match self {
            FsErrors::CannotReadDirectory(path) => String::from_str("Cannot read directory: ").concat(
                path.as_str(),
            ).concat("."),
            FsErrors::CannotReadFile(path) => String::from_str("Cannot read file: ").concat(
                path.as_str(),
            ).concat("."),
            FsErrors::CannotGetDirEntry => String::from_str("Cannot get dir entry."),
            FsErrors::DateParsingFailure => String::from_str("Cannot parse date."),
        }
    }
}

} // verus!
