//! The failures that the command line reports.

use vstd::prelude::*;
use vstd::string::*;

use crate::use_cases::errors::UseCaseError;

verus! {

/// Why the command gave no result.
#[derive(Debug)]
pub enum DriverError {
    /// The reconciliation pass failed.
    UseCase(UseCaseError),
}

impl DriverError {
    /// The sentence that reports the failure.
    pub open spec fn message_spec(self) -> Seq<char> {
        match self {
            DriverError::UseCase(cause) => "Use case error: "@ + cause.message_spec(),
        }
    }

    /// The sentence that reports the failure.
    pub fn message(&self) -> (text: String)
        ensures
            text@ == self.message_spec(),
    {
        match self {
            DriverError::UseCase(cause) => String::from_str("Use case error: ").concat(
                cause.message().as_str(),
            ),
        }
    }
}

impl From<UseCaseError> for DriverError {
    fn from(cause: UseCaseError) -> (error: DriverError)
        ensures
            error == DriverError::UseCase(cause),
    {
        DriverError::UseCase(cause)
    }
}

impl vstd::std_specs::convert::FromSpecImpl<UseCaseError> for DriverError {
    open spec fn obeys_from_spec() -> bool {
        true
    }

    open spec fn from_spec(cause: UseCaseError) -> DriverError {
        DriverError::UseCase(cause)
    }
}

} // verus!
