//! The provider over a tree of folders: one folder for each day, in it one
//! folder for each user, in that the user's photos of the day.
//!
//! Reading the tree from disk is the caller's part. What this module takes is
//! the tree as it was read: names and the bytes of the photo files.

use vstd::prelude::*;

use crate::entity::collections::{user_pairs, PhotoCollection, PhotoId, Username};
use crate::entity::day::{lemma_year_month_day_is_plain, parsed_date, DayKey};
use crate::interfaces::errors::FsErrors;
use crate::interfaces::photo_provider::{DatedCollections, PhotoProvider};
use crate::use_cases::use_cases::dated_pairs;

verus! {

/// The SHA-256 digest of `data`, written as hexadecimal digits.
pub uninterp spec fn sha256_hex(data: Seq<u8>) -> Seq<char>;

/// Calls `sha256::digest` on a slice of bytes. Trusted: the digest depends on
/// the bytes alone, so the text that comes back is `sha256_hex` of them.
#[verifier::external_body]
fn sha256_digest(data: &[u8]) -> (hex: String)
    ensures
        hex@ == sha256_hex(data@),
{
    sha256::digest(data)
}

/// The layout of a day folder's name, in chrono's notation.
pub open spec fn day_format() -> Seq<char> {
    "%Y-%m-%d"@
}

/// The folder of one user within a day: its name, and the bytes of each photo
/// file in it.
#[derive(Debug)]
pub struct UserFolder {
    pub name: String,
    pub photos: Vec<Vec<u8>>,
}

/// The folder of one day: its name, and the user folders in it.
#[derive(Debug)]
pub struct DayFolder {
    pub name: String,
    pub users: Vec<UserFolder>,
}

/// The identities of the photos with the given contents: the digest of each.
pub open spec fn photo_set(photos: Seq<Vec<u8>>) -> Set<Seq<char>> {
    photos.map_values(|bytes: Vec<u8>| sha256_hex(bytes@)).to_set()
}

/// The users of a day folder, each with the identities of the user's photos.
pub open spec fn users_of(users: Seq<UserFolder>) -> Seq<(Seq<char>, Set<Seq<char>>)> {
    users.map_values(|user: UserFolder| (user.name@, photo_set(user.photos@)))
}

/// Whether the name of the day folder is a date.
pub open spec fn names_a_day(day: DayFolder) -> bool {
    parsed_date(day.name@, day_format()) is Some
}

/// Whether the name of every day folder is a date.
pub open spec fn all_name_days(days: Seq<DayFolder>) -> bool {
    forall|i: int| 0 <= i < days.len() ==> names_a_day(#[trigger] days[i])
}

/// The day that a day folder's name gives.
pub open spec fn day_of(day: DayFolder) -> DayKey {
    DayKey::of_parsed(parsed_date(day.name@, day_format()))->0
}

/// The days of a tree, each with its users, where every name is a date.
pub open spec fn dated_of(days: Seq<DayFolder>) -> Seq<(DayKey, Seq<(Seq<char>, Set<Seq<char>>)>)> {
    days.map_values(|day: DayFolder| (day_of(day), users_of(day.users@)))
}

/// Whether `provided` is what a tree gives: the read failure where the tree
/// could not be read; a date failure where a day folder's name is no date; and
/// else every day with its users' collections, in the order of the folders.
pub open spec fn is_collected_from(
    listing: Result<Vec<DayFolder>, FsErrors>,
    provided: Result<DatedCollections, FsErrors>,
) -> bool {
    match listing {
        Err(failure) => provided == Err::<DatedCollections, FsErrors>(failure),
        Ok(days) => if all_name_days(days@) {
            provided matches Ok(dated) && dated_pairs(dated@) == dated_of(days@)
        } else {
            provided == Err::<DatedCollections, FsErrors>(FsErrors::DateParsingFailure)
        },
    }
}

/// The provider over the tree at a path.
#[derive(Debug)]
pub struct PhotoProviderFs {
    path_to_photos: String,
    listing: Result<Vec<DayFolder>, FsErrors>,
}

impl PhotoProviderFs {
    /// The path of the tree.
    pub closed spec fn path(&self) -> Seq<char> {
        self.path_to_photos@
    }

    /// What reading the tree gave.
    pub closed spec fn listing(&self) -> Result<Vec<DayFolder>, FsErrors> {
        self.listing
    }

    /// The provider for the tree at `path_to_photos`, before anything was
    /// read: it has no days yet.
    pub fn new(path_to_photos: &str) -> (provider: Self)
        ensures
            provider.path() == path_to_photos@,
            provider.listing() matches Ok(days) && days@.len() == 0,
    {
        Self { path_to_photos: path_to_photos.to_owned(), listing: Ok(Vec::new()) }
    }

    /// The same provider with `listing` as what reading the tree gave.
    pub fn with_listing(self, listing: Result<Vec<DayFolder>, FsErrors>) -> (provider: Self)
        ensures
            provider.path() == self.path(),
            provider.listing() == listing,
    {
        Self { path_to_photos: self.path_to_photos, listing }
    }

    /// The path of the tree.
    pub fn path_to_photos(&self) -> (path: &str)
        ensures
            path@ == self.path(),
    {
        self.path_to_photos.as_str()
    }

    /// The day that the name of a day folder gives.
    pub fn get_date(dir_name: &str) -> (date: Result<DayKey, FsErrors>)
        ensures
            match date {
                Ok(day) => DayKey::of_parsed(parsed_date(dir_name@, day_format())) == Some(day),
                Err(failure) => failure == FsErrors::DateParsingFailure && parsed_date(
                    dir_name@,
                    day_format(),
                ) is None,
            },
    {
        proof {
            lemma_year_month_day_is_plain();
        }
        match DayKey::parse_from_str(dir_name, "%Y-%m-%d") {
            Some(day) => Ok(day),
            None => Err(FsErrors::DateParsingFailure),
        }
    }

    /// The identity of the photo with the given content.
    pub fn get_hash_of_photo(content: &Vec<u8>) -> (hash: String)
        ensures
            hash@ == sha256_hex(content@),
    {
        sha256_digest(content.as_slice())
    }

    /// The collection of the photos with the given contents.
    pub fn process_day(photos: &Vec<Vec<u8>>) -> (photos_of_day: PhotoCollection)
        ensures
            photos_of_day@ == photo_set(photos@),
    {
        let mut photos_of_day = PhotoCollection::new();
        let ghost hashes = photos@.map_values(|bytes: Vec<u8>| sha256_hex(bytes@));
        let mut at: usize = 0;
        while at < photos.len()
            invariant
                at <= photos.len(),
                hashes == photos@.map_values(|bytes: Vec<u8>| sha256_hex(bytes@)),
                photos_of_day@ == hashes.take(at as int).to_set(),
            decreases photos.len() - at,
        {
            let photo_hash = Self::get_hash_of_photo(&photos[at]);
            proof {
                let seen = hashes.take(at as int);
                assert(hashes.take(at + 1) =~= seen.push(photo_hash@));
                seen.lemma_push_to_set_commute(photo_hash@);
            }
            photos_of_day.insert(PhotoId::new(photo_hash.as_str()));
            at += 1;
        }
        assert(hashes.take(at as int) =~= hashes);
        photos_of_day
    }

    /// The users of one day folder with their collections.
    pub fn process_users(users: &Vec<UserFolder>) -> (collections: Vec<(Username, PhotoCollection)>)
        ensures
            user_pairs(collections@) == users_of(users@),
    {
        let mut collections: Vec<(Username, PhotoCollection)> = Vec::new();
        let mut at: usize = 0;
        while at < users.len()
            invariant
                at <= users.len(),
                user_pairs(collections@) == users_of(users@).take(at as int),
            decreases users.len() - at,
        {
            let username = Username::new(users[at].name.as_str());
            let photo_collection_for_day = Self::process_day(&users[at].photos);
            let ghost before = user_pairs(collections@);
            collections.push((username, photo_collection_for_day));
            proof {
                assert(user_pairs(collections@) =~= before.push(users_of(users@)[at as int]));
                assert(users_of(users@).take(at + 1) =~= before.push(users_of(users@)[at as int]));
            }
            at += 1;
        }
        assert(users_of(users@).take(at as int) =~= users_of(users@));
        collections
    }

    /// Every day of a tree with its users' collections. It fails where the
    /// name of a day folder is no date.
    pub fn collect(days: &Vec<DayFolder>) -> (provided: Result<DatedCollections, FsErrors>)
        ensures
            is_collected_from(Ok(*days), provided),
    {
        let mut res: DatedCollections = Vec::new();
        let mut at: usize = 0;
        while at < days.len()
            invariant
                at <= days.len(),
                forall|i: int| 0 <= i < at ==> names_a_day(#[trigger] days@[i]),
                dated_pairs(res@) == dated_of(days@).take(at as int),
            decreases days.len() - at,
        {
            let date = match Self::get_date(days[at].name.as_str()) {
                Ok(date) => date,
                Err(failure) => {
                    assert(!names_a_day(days@[at as int]));
                    return Err(failure);
                },
            };
            let photo_collections_for_day = Self::process_users(&days[at].users);
            let ghost before = dated_pairs(res@);
            res.push((date, photo_collections_for_day));
            proof {
                assert(dated_pairs(res@) =~= before.push(dated_of(days@)[at as int]));
                assert(dated_of(days@).take(at + 1) =~= before.push(dated_of(days@)[at as int]));
            }
            at += 1;
        }
        assert(dated_of(days@).take(at as int) =~= dated_of(days@));
        Ok(res)
    }
}

impl Default for PhotoProviderFs {
    fn default() -> (provider: Self)
        ensures
            provider.path() == "./photo_example"@,
            provider.listing() matches Ok(days) && days@.len() == 0,
    {
        PhotoProviderFs::new("./photo_example")
    }
}

impl PhotoProvider for PhotoProviderFs {
    open spec fn provides(&self, provided: Result<DatedCollections, FsErrors>) -> bool {
        is_collected_from(self.listing(), provided)
    }

    fn get_date_to_photo_collections(&self) -> (provided: Result<DatedCollections, FsErrors>) {
        match &self.listing {
            Ok(days) => Self::collect(days),
            Err(failure) => Err(failure.clone()),
        }
    }
}

} // verus!
