//! The source of the collections: for each day, what each user has.

use vstd::prelude::*;

use crate::entity::collections::{PhotoCollection, Username};
use crate::entity::day::DayKey;
use crate::interfaces::errors::FsErrors;

verus! {

/// What a provider hands over: days, and for each day the users with their
/// collections. A day or a user may occur more than once; the last occurrence
/// counts.
pub type DatedCollections = Vec<(DayKey, Vec<(Username, PhotoCollection)>)>;

/// A source of collections. It either hands over all days or fails as a whole.
pub trait PhotoProvider {
    /// Whether this provider may answer with `provided`. A provider that says
    /// nothing of its answers may answer with anything.
    open spec fn provides(&self, provided: Result<DatedCollections, FsErrors>) -> bool {
        true
    }

    /// Hands over the collections of all days, or reports why it cannot.
    fn get_date_to_photo_collections(&self) -> (provided: Result<DatedCollections, FsErrors>)
        ensures
            self.provides(provided),
    ;
}

} // verus!
