//! Reconciliation by full comparison, straight from a tree of folders: every
//! peer that has photos is compared with the owner, photo by photo.

use vstd::prelude::*;
use vstd::string::*;

use crate::drivers::photo_provider::{
    all_name_days, day_format, dated_of, names_a_day, DayFolder, PhotoProviderFs,
};
use crate::entity::assoc::{assoc_map, keys_distinct, last_wins};
use crate::entity::collections::{
    fingerprint, user_pairs, CollectionOfMissing, FriendCollections, MissingPhotos,
    PhotoCollection, Username,
};
use crate::entity::day::{lemma_year_month_day_is_plain, parsed_date, DayKey};
use crate::use_cases::use_cases::{
    lemma_missing_where_start, lemma_missing_where_step, missing_for_day, missing_where,
    owner_photos, peer_photos, report_over_days, reports_of, split_users,
};

verus! {

/// Why a tree of photo folders gave no result.
#[derive(Debug)]
pub enum Errors {
    /// The directory at this path could not be listed.
    CannotReadDirectory(String),
    /// The file at this path could not be read.
    CannotReadFile(String),
    /// An entry of a directory could not be had, or its name is no text.
    CannotGetDirEntry,
    /// The name of a day's folder is no date.
    DateParsingFailure,
}

impl Errors {
    /// The sentence that reports the failure.
    pub open spec fn message_spec(self) -> Seq<char> {
        match self {
            Errors::CannotReadDirectory(path) => "Cannot read directory: "@ + path@ + "."@,
            Errors::CannotReadFile(path) => "Cannot read file: "@ + path@ + "."@,
            Errors::CannotGetDirEntry => "Cannot get dir entry."@,
            Errors::DateParsingFailure => "Cannot parse date."@,
        }
    }

    /// The sentence that reports the failure.
    pub fn message(&self) -> (text: String)
        ensures
            text@ == self.message_spec(),
    {
        match self {
            Errors::CannotReadDirectory(path) => String::from_str("Cannot read directory: ").concat(
                path.as_str(),
            ).concat("."),
            Errors::CannotReadFile(path) => String::from_str("Cannot read file: ").concat(
                path.as_str(),
            ).concat("."),
            Errors::CannotGetDirEntry => String::from_str("Cannot get dir entry."),
            Errors::DateParsingFailure => String::from_str("Cannot parse date."),
        }
    }
}

/// The symmetric difference of two sets of photos: what one of them has and
/// the other lacks.
pub open spec fn symmetric_difference(a: Set<Seq<char>>, b: Set<Seq<char>>) -> Set<Seq<char>> {
    a.difference(b).union(b.difference(a))
}

/// Whether the two collections differ in any photo.
pub fn is_different(collection_a: &PhotoCollection, collection_b: &PhotoCollection) -> (differ:
    bool)
    ensures
        differ == (symmetric_difference(collection_a@, collection_b@) != Set::<Seq<char>>::empty()),
        differ == (collection_a@ != collection_b@),
{
    let same = collection_a.is_subset(collection_b) && collection_b.is_subset(collection_a);
    proof {
        let a = collection_a@;
        let b = collection_b@;
        if same {
            assert(a =~= b);
            assert(symmetric_difference(a, b) =~= Set::<Seq<char>>::empty());
        } else {
            if a.subset_of(b) {
                let token = choose|token: Seq<char>| b.contains(token) && !a.contains(token);
                assert(symmetric_difference(a, b).contains(token));
            } else {
                let token = choose|token: Seq<char>| a.contains(token) && !b.contains(token);
                assert(symmetric_difference(a, b).contains(token));
            }
        }
    }
    !same
}

/// What one day reports when every peer is compared in full: under the label
/// of each peer that has photos that the owner lacks, those photos.
pub open spec fn missing_exact(
    owner: Set<Seq<char>>,
    peers: Map<Seq<char>, Set<Seq<char>>>,
) -> Map<Seq<char>, Set<Seq<char>>> {
    missing_where(|peer: Set<Seq<char>>| true, owner, peers)
}

/// What the comparison by fingerprint reports, the full comparison reports
/// too. Both report the same where the owner has no photos, and where no peer
/// that differs from the owner has the owner's fingerprint.
pub proof fn lemma_fingerprint_report_within_exact(
    owner: Set<Seq<char>>,
    peers: Map<Seq<char>, Set<Seq<char>>>,
)
    ensures
        missing_for_day(owner, peers).submap_of(missing_exact(owner, peers)),
        owner == Set::<Seq<char>>::empty() || (forall|name: Seq<char>|
            peers.dom().contains(name) && peers[name] != owner ==> fingerprint(#[trigger] peers[name])
                != fingerprint(owner)) ==> missing_for_day(owner, peers) == missing_exact(
            owner,
            peers,
        ),
{
    if owner == Set::<Seq<char>>::empty() || (forall|name: Seq<char>|
        peers.dom().contains(name) && peers[name] != owner ==> fingerprint(#[trigger] peers[name])
            != fingerprint(owner)) {
        assert forall|name: Seq<char>| #[trigger]
            missing_exact(owner, peers).dom().contains(name) implies missing_for_day(
            owner,
            peers,
        ).dom().contains(name) by {
            if peers[name] == owner {
                assert(peers[name].difference(owner) =~= Set::<Seq<char>>::empty());
            }
        }
        assert(missing_for_day(owner, peers) =~= missing_exact(owner, peers));
    }
}

/// Compares the owner's collection with that of each peer. A peer without
/// photos, or with the same photos as the owner, is passed over at once: it
/// could not add to the report. The day serves to tell reports apart and
/// decides nothing.
#[allow(unused_variables)]
pub fn find_missing_photos_for_day(
    my_collection: &PhotoCollection,
    friend_collections: &FriendCollections,
    day: &DayKey,
) -> (missing_photos: MissingPhotos)
    ensures
        missing_photos@ == missing_exact(my_collection@, friend_collections@),
        forall|name: Seq<char>|
            missing_photos@.dom().contains(name) ==> missing_photos@[name] != Set::<
                Seq<char>,
            >::empty(),
{
    let friends = friend_collections.entries();
    let ghost pairs = user_pairs(friends@);
    let ghost owner = my_collection@;
    let ghost compared = |peer: Set<Seq<char>>| true;
    let mut missing_photos = MissingPhotos::with_capacity(friends.len());
    proof {
        lemma_missing_where_start(compared, owner, pairs);
    }
    let mut at: usize = 0;
    while at < friends.len()
        invariant
            at <= friends.len(),
            pairs == user_pairs(friends@),
            owner == my_collection@,
            compared == |peer: Set<Seq<char>>| true,
            keys_distinct(pairs),
            missing_photos@ == missing_where(compared, owner, assoc_map(pairs.take(at as int))),
        decreases friends.len() - at,
    {
        let friend_name = &friends[at].0;
        let friend_collection = &friends[at].1;
        proof {
            assert(pairs[at as int] == (friend_name@, friend_collection@));
            lemma_missing_where_step(compared, owner, pairs, at as int);
        }
        if friend_collection.is_empty() || !is_different(my_collection, friend_collection) {
            assert(friend_collection@.difference(owner) =~= Set::<Seq<char>>::empty());
        } else {
            let missing = friend_collection.difference(my_collection);
            if !missing.is_empty() {
                missing_photos.insert(friend_name.clone(), missing);
            }
        }
        at += 1;
    }
    assert(pairs.take(at as int) =~= pairs);
    missing_photos
}

/// What a day reports under full comparison, given the users of that day.
pub open spec fn exact_for_users(owner: Seq<char>, users: Seq<(Seq<char>, Set<Seq<char>>)>) -> Map<
    Seq<char>,
    Set<Seq<char>>,
> {
    missing_exact(owner_photos(owner, users), peer_photos(owner, users))
}

/// The rule of a day for the owner with the label `owner`, every peer
/// compared in full.
pub open spec fn in_full(owner: Seq<char>) -> spec_fn(Seq<(Seq<char>, Set<Seq<char>>)>) -> Map<
    Seq<char>,
    Set<Seq<char>>,
> {
    |users: Seq<(Seq<char>, Set<Seq<char>>)>| exact_for_users(owner, users)
}

/// What a pass over all days reports under full comparison: an entry for
/// every day, also where the day has nothing to report. Where a day occurs
/// more than once, the last time counts.
pub open spec fn exact_for_all_days(
    owner: Seq<char>,
    days: Seq<(DayKey, Seq<(Seq<char>, Set<Seq<char>>)>)>,
) -> Map<DayKey, Map<Seq<char>, Set<Seq<char>>>> {
    report_over_days(in_full(owner), days)
}

/// Whether `outcome` is what the command makes of a tree as it was read: the
/// read failure where the tree could not be read; a date failure where the name
/// of a day folder is no date; and else the report over all days.
pub open spec fn is_synced_from(
    owner: Seq<char>,
    listing: Result<Vec<DayFolder>, Errors>,
    outcome: Result<CollectionOfMissing, Errors>,
) -> bool {
    match listing {
        Err(failure) => outcome == Err::<CollectionOfMissing, Errors>(failure),
        Ok(days) => if all_name_days(days@) {
            outcome matches Ok(missing) && missing@ == exact_for_all_days(owner, dated_of(days@))
        } else {
            outcome == Err::<CollectionOfMissing, Errors>(Errors::DateParsingFailure)
        },
    }
}

/// The command is repeatable: from the same tree it makes the same report, or
/// the same failure.
pub proof fn lemma_sync_is_repeatable(
    owner: Seq<char>,
    listing: Result<Vec<DayFolder>, Errors>,
    first_outcome: Result<CollectionOfMissing, Errors>,
    second_outcome: Result<CollectionOfMissing, Errors>,
)
    requires
        is_synced_from(owner, listing, first_outcome),
        is_synced_from(owner, listing, second_outcome),
    ensures
        match first_outcome {
            Ok(missing) => second_outcome matches Ok(same) && same@ == missing@,
            Err(failure) => second_outcome == Err::<CollectionOfMissing, Errors>(failure),
        },
{
}

/// The command's arguments: the name of the owner's folders, and the path of
/// the tree.
#[derive(Debug)]
pub struct PhotoSyncCli {
    my_folder_name: String,
    path_to_photos: String,
}

impl PhotoSyncCli {
    /// The owner's label.
    pub closed spec fn owner(&self) -> Seq<char> {
        self.my_folder_name@
    }

    /// The path of the tree.
    pub closed spec fn path(&self) -> Seq<char> {
        self.path_to_photos@
    }

    /// The arguments as given.
    pub fn new(my_folder_name: &str, path_to_photos: &str) -> (cli: Self)
        ensures
            cli.owner() == my_folder_name@,
            cli.path() == path_to_photos@,
    {
        Self {
            my_folder_name: my_folder_name.to_owned(),
            path_to_photos: path_to_photos.to_owned(),
        }
    }

    /// The name of the owner's folders.
    pub fn my_folder_name(&self) -> (name: &str)
        ensures
            name@ == self.owner(),
    {
        self.my_folder_name.as_str()
    }

    /// The path of the tree.
    pub fn path_to_photos(&self) -> (path: &str)
        ensures
            path@ == self.path(),
    {
        self.path_to_photos.as_str()
    }

    /// The day that the name of a day folder gives.
    pub fn get_date(dir_name: &str) -> (date: Result<DayKey, Errors>)
        ensures
            match date {
                Ok(day) => DayKey::of_parsed(parsed_date(dir_name@, day_format())) == Some(day),
                Err(failure) => failure == Errors::DateParsingFailure && parsed_date(
                    dir_name@,
                    day_format(),
                ) is None,
            },
    {
        proof {
            lemma_year_month_day_is_plain();
        }
        match DayKey::parse_from_str(dir_name, "%Y-%m-%d") {
            Some(day) => Ok(day),
            None => Err(Errors::DateParsingFailure),
        }
    }

    /// Reconciles every day of the tree that was read at the path. A failure
    /// ends the pass: no day is reported then.
    pub fn sync_photos(&self, listing: Result<Vec<DayFolder>, Errors>) -> (outcome: Result<
        CollectionOfMissing,
        Errors,
    >)
        ensures
            is_synced_from(self.owner(), listing, outcome),
    {
        let days = match listing {
            Ok(days) => days,
            Err(failure) => {
                return Err(failure);
            },
        };
        let owner = Username::new(self.my_folder_name.as_str());
        let mut missing = CollectionOfMissing::new();
        let ghost reports = reports_of(in_full(self.owner()), dated_of(days@));
        assert(reports.take(0) =~= Seq::<(DayKey, Map<Seq<char>, Set<Seq<char>>>)>::empty());
        let mut at: usize = 0;
        while at < days.len()
            invariant
                at <= days.len(),
                listing == Ok::<Vec<DayFolder>, Errors>(days),
                owner@ == self.owner(),
                reports == reports_of(in_full(self.owner()), dated_of(days@)),
                forall|i: int| 0 <= i < at ==> names_a_day(#[trigger] days@[i]),
                missing@ == last_wins(reports.take(at as int)),
            decreases days.len() - at,
        {
            let date = match Self::get_date(days[at].name.as_str()) {
                Ok(date) => date,
                Err(failure) => {
                    assert(!names_a_day(days@[at as int]));
                    return Err(failure);
                },
            };
            let users = PhotoProviderFs::process_users(&days[at].users);
            let (my_collection, friend_collection) = split_users(&owner, users);
            proof {
                let seen = reports.take(at as int);
                let next = reports.take(at + 1);
                assert(next.drop_last() =~= seen);
                assert(next.last() == reports[at as int]);
            }
            missing.insert(
                date,
                find_missing_photos_for_day(&my_collection, &friend_collection, &date),
            );
            at += 1;
        }
        assert(reports.take(at as int) =~= reports);
        Ok(missing)
    }
}

impl Default for PhotoSyncCli {
    fn default() -> (cli: Self)
        ensures
            cli.owner() == "My"@,
            cli.path() == "./photo_example"@,
    {
        PhotoSyncCli::new("My", "./photo_example")
    }
}

} // verus!
