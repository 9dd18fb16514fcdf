//! The command's arguments and what the command does with them.

use vstd::prelude::*;

use crate::drivers::errors::DriverError;
use crate::drivers::photo_provider::{all_name_days, dated_of, DayFolder, PhotoProviderFs};
use crate::entity::collections::CollectionOfMissing;
use crate::interfaces::errors::FsErrors;
use crate::interfaces::photo_provider::{DatedCollections, PhotoProvider};
use crate::use_cases::errors::UseCaseError;
use crate::use_cases::use_cases::{
    is_outcome_of, missing_for_all_days, SynchronizeAllPhotosUseCase,
};

verus! {

/// Whether `outcome` is what the command makes of a tree as it was read: the
/// report over all days; or, where the tree could not be read, or the name of
/// a day folder is no date, that failure in words, as a failure of the
/// provider within the pass.
pub open spec fn is_driven_from(
    owner: Seq<char>,
    listing: Result<Vec<DayFolder>, FsErrors>,
    outcome: Result<CollectionOfMissing, DriverError>,
) -> bool {
    match listing {
        Err(failure) => outcome matches Err(
            DriverError::UseCase(UseCaseError::PhotoProvider(report)),
        ) && report@ == failure.message_spec(),
        Ok(days) => if all_name_days(days@) {
            outcome matches Ok(missing) && missing@ == missing_for_all_days(owner, dated_of(days@))
        } else {
            outcome matches Err(DriverError::UseCase(UseCaseError::PhotoProvider(report)))
                && report@ == FsErrors::DateParsingFailure.message_spec()
        },
    }
}

/// The command's arguments: the name of the owner's folders, and the path of
/// the tree.
#[derive(Debug)]
pub struct PhotoSyncCli {
    my_folder_name: String,
    path_to_photos: String,
}

impl PhotoSyncCli {
    /// The owner's label.
    pub closed spec fn owner(&self) -> Seq<char> {
        self.my_folder_name@
    }

    /// The path of the tree.
    pub closed spec fn path(&self) -> Seq<char> {
        self.path_to_photos@
    }

    /// The arguments as given.
    pub fn new(my_folder_name: &str, path_to_photos: &str) -> (cli: Self)
        ensures
            cli.owner() == my_folder_name@,
            cli.path() == path_to_photos@,
    {
        Self {
            my_folder_name: my_folder_name.to_owned(),
            path_to_photos: path_to_photos.to_owned(),
        }
    }

    /// The name of the owner's folders.
    pub fn my_folder_name(&self) -> (name: &str)
        ensures
            name@ == self.owner(),
    {
        self.my_folder_name.as_str()
    }

    /// The path of the tree.
    pub fn path_to_photos(&self) -> (path: &str)
        ensures
            path@ == self.path(),
    {
        self.path_to_photos.as_str()
    }

    /// Runs a pass over the tree that was read at the path: a provider over
    /// that tree, and the reconciliation of every day it hands over.
    pub fn sync_photos(&self, listing: Result<Vec<DayFolder>, FsErrors>) -> (outcome: Result<
        CollectionOfMissing,
        DriverError,
    >)
        ensures
            is_driven_from(self.owner(), listing, outcome),
    {
        let provider = PhotoProviderFs::new(self.path_to_photos.as_str()).with_listing(listing);
        let use_case = SynchronizeAllPhotosUseCase::new(self.my_folder_name.as_str(), provider);
        let pass = use_case.execute();
        proof {
            let provided = choose|provided: Result<DatedCollections, FsErrors>|
                use_case.provider().provides(provided) && #[trigger] is_outcome_of(
                    use_case.owner(),
                    provided,
                    pass,
                );
            assert(use_case.provider().provides(provided));
            assert(is_outcome_of(self.owner(), provided, pass));
        }
        match pass {
            Ok(missing) => Ok(missing),
            Err(cause) => Err(DriverError::from(cause)),
        }
    }
}

impl Default for PhotoSyncCli {
    fn default() -> (cli: Self)
        ensures
            cli.owner() == "My"@,
            cli.path() == "./photo_example"@,
    {
        PhotoSyncCli::new("My", "./photo_example")
    }
}

} // verus!
