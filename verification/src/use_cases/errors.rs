//! The failures of a reconciliation pass.

use vstd::prelude::*;
use vstd::string::*;

verus! {

/// Why a reconciliation pass gave no result.
#[derive(Debug)]
pub enum UseCaseError {
    /// The provider of the collections failed; its report is kept.
    PhotoProvider(String),
    /// Anything else, with its report.
    Unknown(String),
}

impl UseCaseError {
    /// The sentence that reports the failure.
    pub open spec fn message_spec(self) -> Seq<char> {
        match self {
            UseCaseError::PhotoProvider(report) => "Something went wrong with PhotoProvider: "@
                + report@ + "."@,
            UseCaseError::Unknown(report) => "Unknown error: "@ + report@ + "."@,
        }
    }

    /// The sentence that reports the failure.
    pub fn message(&self) -> (text: String)
        ensures
            text@ == self.message_spec(),
    {
        match self {
            UseCaseError::PhotoProvider(report) => String::from_str(
                "Something went wrong with PhotoProvider: ",
            ).concat(report.as_str()).concat("."),
            UseCaseError::Unknown(report) => String::from_str("Unknown error: ").concat(
                report.as_str(),
            ).concat("."),
        }
    }
}

} // verus!
