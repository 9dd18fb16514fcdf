//! Reconciliation by fingerprint: a peer whose fingerprint is the owner's is
//! passed over without a full comparison. Where the owner has no photos every
//! peer is compared, since every photo of a peer is then one that the owner
//! lacks.

use vstd::prelude::*;

use crate::entity::assoc::{
    assoc_map, has_key, keys_distinct, last_wins, lemma_assoc_push, lemma_last_wins_keys,
    lemma_last_wins_value, place_of,
};
use crate::entity::collections::{
    sync_needed, user_pairs, CollectionOfMissing, FriendCollections, MissingPhotos,
    PhotoCollection, Username,
};
use crate::entity::day::DayKey;
use crate::interfaces::errors::FsErrors;
use crate::interfaces::photo_provider::{DatedCollections, PhotoProvider};
use crate::use_cases::errors::UseCaseError;

verus! {

/// The report of one day where `compared` says which peers are compared with
/// the owner: under the label of each such peer that has photos that the owner
/// lacks, those photos. Other peers have no entry.
pub open spec fn missing_where(
    compared: spec_fn(Set<Seq<char>>) -> bool,
    owner: Set<Seq<char>>,
    peers: Map<Seq<char>, Set<Seq<char>>>,
) -> Map<Seq<char>, Set<Seq<char>>> {
    Map::new(
        |name: Seq<char>|
            peers.dom().contains(name) && compared(peers[name]) && peers[name].difference(owner)
                != Set::<Seq<char>>::empty(),
        |name: Seq<char>| peers[name].difference(owner),
    )
}

/// Whether a peer is compared with the owner photo by photo: always where the
/// owner has no photos, since then every photo of the peer is one that the
/// owner lacks; and else where the quick test by fingerprint asks for it.
pub open spec fn compared_in_full(owner: Set<Seq<char>>, peer: Set<Seq<char>>) -> bool {
    owner == Set::<Seq<char>>::empty() || sync_needed(owner, peer)
}

/// What one day's reconciliation reports: under the label of each peer that
/// is compared in full and has photos that the owner lacks, those photos. A
/// peer with the owner's fingerprint, or with nothing that the owner lacks,
/// has no entry.
pub open spec fn missing_for_day(
    owner: Set<Seq<char>>,
    peers: Map<Seq<char>, Set<Seq<char>>>,
) -> Map<Seq<char>, Set<Seq<char>>> {
    missing_where(|peer: Set<Seq<char>>| compared_in_full(owner, peer), owner, peers)
}

/// The report over no peers is empty.
pub proof fn lemma_missing_where_start(
    compared: spec_fn(Set<Seq<char>>) -> bool,
    owner: Set<Seq<char>>,
    pairs: Seq<(Seq<char>, Set<Seq<char>>)>,
)
    ensures
        missing_where(compared, owner, assoc_map(pairs.take(0))) == Map::<
            Seq<char>,
            Set<Seq<char>>,
        >::empty(),
{
    let none = pairs.take(0);
    assert forall|name: Seq<char>| !assoc_map(none).dom().contains(name) by {
        if has_key(none, name) {
            let k = place_of(none, name);
            assert(0 <= k < none.len());
        }
    }
    assert(missing_where(compared, owner, assoc_map(none)) =~= Map::<
        Seq<char>,
        Set<Seq<char>>,
    >::empty());
}

/// The report over one peer more is the report over the others, with that
/// peer's entry added where the peer is compared and has photos that the
/// owner lacks.
pub proof fn lemma_missing_where_step(
    compared: spec_fn(Set<Seq<char>>) -> bool,
    owner: Set<Seq<char>>,
    pairs: Seq<(Seq<char>, Set<Seq<char>>)>,
    at: int,
)
    requires
        keys_distinct(pairs),
        0 <= at < pairs.len(),
    ensures
        missing_where(compared, owner, assoc_map(pairs.take(at + 1))) == (if compared(pairs[at].1)
            && pairs[at].1.difference(owner) != Set::<Seq<char>>::empty() {
            missing_where(compared, owner, assoc_map(pairs.take(at))).insert(
                pairs[at].0,
                pairs[at].1.difference(owner),
            )
        } else {
            missing_where(compared, owner, assoc_map(pairs.take(at)))
        }),
{
    let seen = pairs.take(at);
    let next = pairs.take(at + 1);
    assert(!has_key(seen, pairs[at].0)) by {
        if has_key(seen, pairs[at].0) {
            let k = place_of(seen, pairs[at].0);
            assert(pairs[k].0 == pairs[at].0);
        }
    }
    assert(next =~= seen.push(pairs[at]));
    lemma_assoc_push(seen, pairs[at].0, pairs[at].1);
    let before = missing_where(compared, owner, assoc_map(seen));
    let after = missing_where(compared, owner, assoc_map(next));
    if compared(pairs[at].1) && pairs[at].1.difference(owner) != Set::<Seq<char>>::empty() {
        assert(after =~= before.insert(pairs[at].0, pairs[at].1.difference(owner)));
    } else {
        assert(after =~= before);
    }
}

/// The reconciliation of one day.
pub struct FindMissingPhotoForDayUseCase;

impl FindMissingPhotoForDayUseCase {
    /// Compares the owner's collection with that of each peer: in full where
    /// the owner has no photos or the quick test by fingerprint asks for it.
    /// The day serves to tell reports apart and decides nothing.
    #[allow(unused_variables)]
    pub fn execute(
        &self,
        my_collection: &PhotoCollection,
        friend_collections: &FriendCollections,
        for_day: &DayKey,
    ) -> (missing_photos: MissingPhotos)
        ensures
            missing_photos@ == missing_for_day(my_collection@, friend_collections@),
            forall|name: Seq<char>|
                missing_photos@.dom().contains(name) ==> missing_photos@[name] != Set::<
                    Seq<char>,
                >::empty(),
    {
        let friends = friend_collections.entries();
        let ghost pairs = user_pairs(friends@);
        let ghost owner = my_collection@;
        let ghost compared = |peer: Set<Seq<char>>| compared_in_full(owner, peer);
        let mut missing_photos = MissingPhotos::with_capacity(friends.len());
        proof {
            lemma_missing_where_start(compared, owner, pairs);
        }
        let mut at: usize = 0;
        while at < friends.len()
            invariant
                at <= friends.len(),
                pairs == user_pairs(friends@),
                owner == my_collection@,
                compared == |peer: Set<Seq<char>>| compared_in_full(owner, peer),
                keys_distinct(pairs),
                missing_photos@ == missing_where(compared, owner, assoc_map(pairs.take(at as int))),
            decreases friends.len() - at,
        {
            let friend_name = &friends[at].0;
            let friend_collection = &friends[at].1;
            proof {
                assert(pairs[at as int] == (friend_name@, friend_collection@));
                lemma_missing_where_step(compared, owner, pairs, at as int);
            }
            if my_collection.is_empty() || my_collection.is_sync_needed_with(friend_collection) {
                let missing = friend_collection.difference(my_collection);
                if !missing.is_empty() {
                    missing_photos.insert(friend_name.clone(), missing);
                }
            }
            at += 1;
        }
        assert(pairs.take(at as int) =~= pairs);
        missing_photos
    }
}

/// What a provider's days hold: each day with the labels and photo sets of its users.
pub open spec fn dated_pairs(days: Seq<(DayKey, Vec<(Username, PhotoCollection)>)>) -> Seq<
    (DayKey, Seq<(Seq<char>, Set<Seq<char>>)>),
> {
    days.map_values(|day: (DayKey, Vec<(Username, PhotoCollection)>)| (day.0, user_pairs(day.1@)))
}

/// The owner's photos among one day's users: the collection under the owner's
/// label, the last one if there are several, and no photos if there is none.
pub open spec fn owner_photos(owner: Seq<char>, users: Seq<(Seq<char>, Set<Seq<char>>)>) -> Set<
    Seq<char>,
>
    decreases users.len(),
{
    if users.len() == 0 {
        Set::empty()
    } else if users.last().0 == owner {
        users.last().1
    } else {
        owner_photos(owner, users.drop_last())
    }
}

/// The peers among one day's users: every label but the owner's, with the
/// collection under it, the last one if there are several.
pub open spec fn peer_photos(owner: Seq<char>, users: Seq<(Seq<char>, Set<Seq<char>>)>) -> Map<
    Seq<char>,
    Set<Seq<char>>,
>
    decreases users.len(),
{
    if users.len() == 0 {
        Map::empty()
    } else if users.last().0 == owner {
        peer_photos(owner, users.drop_last())
    } else {
        peer_photos(owner, users.drop_last()).insert(users.last().0, users.last().1)
    }
}

/// Parts one day's users into the owner's collection and the peers.
pub fn split_users(my_name: &Username, users: Vec<(Username, PhotoCollection)>) -> (parts: (
    PhotoCollection,
    FriendCollections,
))
    ensures
        parts.0@ == owner_photos(my_name@, user_pairs(users@)),
        parts.1@ == peer_photos(my_name@, user_pairs(users@)),
{
    let mut my_collection = PhotoCollection::default();
    let mut friend_collection = FriendCollections::default();
    let ghost pairs = user_pairs(users@);
    assert(pairs.take(0) =~= Seq::<(Seq<char>, Set<Seq<char>>)>::empty());
    for entry in it: users
        invariant
            pairs == user_pairs(it.seq()),
            my_collection@ == owner_photos(my_name@, pairs.take(it.index() as int)),
            friend_collection@ == peer_photos(my_name@, pairs.take(it.index() as int)),
    {
        proof {
            let seen = pairs.take(it.index() as int);
            let next = pairs.take(it.index() + 1);
            assert(next.drop_last() =~= seen);
            assert(next.last() == pairs[it.index() as int]);
        }
        let (username, user_collection) = entry;
        if username.same_as(my_name) {
            my_collection = user_collection;
        } else {
            friend_collection.insert(username, user_collection);
        }
    }
    assert(pairs.take(pairs.len() as int) =~= pairs);
    (my_collection, friend_collection)
}

/// What one day reports, given the users of that day as they were provided.
pub open spec fn missing_for_users(
    owner: Seq<char>,
    users: Seq<(Seq<char>, Set<Seq<char>>)>,
) -> Map<Seq<char>, Set<Seq<char>>> {
    missing_for_day(owner_photos(owner, users), peer_photos(owner, users))
}

/// What each day reports under the rule `per_day`, day by day as the days
/// were provided.
pub open spec fn reports_of(
    per_day: spec_fn(Seq<(Seq<char>, Set<Seq<char>>)>) -> Map<Seq<char>, Set<Seq<char>>>,
    days: Seq<(DayKey, Seq<(Seq<char>, Set<Seq<char>>)>)>,
) -> Seq<(DayKey, Map<Seq<char>, Set<Seq<char>>>)> {
    days.map_values(|day: (DayKey, Seq<(Seq<char>, Set<Seq<char>>)>)| (day.0, per_day(day.1)))
}

/// What a pass over all days reports under the rule `per_day`: an entry for
/// every day that was provided, also where the day has nothing to report.
/// Where a day was provided more than once, the last time counts.
pub open spec fn report_over_days(
    per_day: spec_fn(Seq<(Seq<char>, Set<Seq<char>>)>) -> Map<Seq<char>, Set<Seq<char>>>,
    days: Seq<(DayKey, Seq<(Seq<char>, Set<Seq<char>>)>)>,
) -> Map<DayKey, Map<Seq<char>, Set<Seq<char>>>> {
    last_wins(reports_of(per_day, days))
}

/// The rule of a day for the owner with the label `owner`, peers compared by
/// fingerprint first.
pub open spec fn by_fingerprint(owner: Seq<char>) -> spec_fn(
    Seq<(Seq<char>, Set<Seq<char>>)>,
) -> Map<Seq<char>, Set<Seq<char>>> {
    |users: Seq<(Seq<char>, Set<Seq<char>>)>| missing_for_users(owner, users)
}

/// What a pass over all days reports, peers compared by fingerprint first.
pub open spec fn missing_for_all_days(
    owner: Seq<char>,
    days: Seq<(DayKey, Seq<(Seq<char>, Set<Seq<char>>)>)>,
) -> Map<DayKey, Map<Seq<char>, Set<Seq<char>>>> {
    report_over_days(by_fingerprint(owner), days)
}

/// Whether `outcome` is what a pass makes of the provider's answer `provided`:
/// the report over all days, or the provider's failure in words.
pub open spec fn is_outcome_of(
    owner: Seq<char>,
    provided: Result<DatedCollections, FsErrors>,
    outcome: Result<CollectionOfMissing, UseCaseError>,
) -> bool {
    match provided {
        Ok(days) => outcome matches Ok(missing) && missing@ == missing_for_all_days(
            owner,
            dated_pairs(days@),
        ),
        Err(failure) => outcome matches Err(UseCaseError::PhotoProvider(report)) && report@
            == failure.message_spec(),
    }
}

/// The reconciliation over all days that a provider hands over, for the owner
/// with the label `my_name`.
pub struct SynchronizeAllPhotosUseCase<P: PhotoProvider> {
    my_name: Username,
    photo_provider: P,
}

impl<P: PhotoProvider> SynchronizeAllPhotosUseCase<P> {
    /// The owner's label.
    pub closed spec fn owner(&self) -> Seq<char> {
        self.my_name@
    }

    /// The provider that is asked for the collections.
    pub closed spec fn provider(&self) -> P {
        self.photo_provider
    }

    /// The use case for the owner with the label `my_name`, on the answers
    /// of `photo_provider`.
    pub fn new(my_name: &str, photo_provider: P) -> (use_case: Self)
        ensures
            use_case.owner() == my_name@,
            use_case.provider() == photo_provider,
    {
        Self { my_name: Username::new(my_name), photo_provider }
    }

    /// Asks the provider and reconciles every day of its answer. A failure of
    /// the provider ends the pass: no day is reported then.
    pub fn execute(&self) -> (outcome: Result<CollectionOfMissing, UseCaseError>)
        ensures
            exists|provided: Result<DatedCollections, FsErrors>|
                self.provider().provides(provided) && #[trigger] is_outcome_of(
                    self.owner(),
                    provided,
                    outcome,
                ),
    {
        let provided = self.photo_provider.get_date_to_photo_collections();
        let ghost answer = provided;
        let outcome = synchronize(&self.my_name, provided);
        assert(is_outcome_of(self.owner(), answer, outcome));
        outcome
    }
}

/// Makes the outcome of a pass from the provider's answer.
pub fn synchronize(my_name: &Username, provided: Result<DatedCollections, FsErrors>) -> (outcome:
    Result<CollectionOfMissing, UseCaseError>)
    ensures
        is_outcome_of(my_name@, provided, outcome),
{
    match provided {
        Ok(days) => Ok(missing_of_days(my_name, days)),
        Err(failure) => Err(UseCaseError::PhotoProvider(failure.message())),
    }
}

/// Reconciles every day of `days`.
pub fn missing_of_days(my_name: &Username, days: DatedCollections) -> (missing_for_all_time:
    CollectionOfMissing)
    ensures
        missing_for_all_time@ == missing_for_all_days(my_name@, dated_pairs(days@)),
{
    let mut missing_for_all_time = CollectionOfMissing::new();
    let ghost dated = dated_pairs(days@);
    let ghost reports = reports_of(by_fingerprint(my_name@), dated);
    assert(reports.take(0) =~= Seq::<(DayKey, Map<Seq<char>, Set<Seq<char>>>)>::empty());
    for entry in it: days
        invariant
            dated == dated_pairs(it.seq()),
            reports == reports_of(by_fingerprint(my_name@), dated),
            missing_for_all_time@ == last_wins(reports.take(it.index() as int)),
    {
        proof {
            let seen = reports.take(it.index() as int);
            let next = reports.take(it.index() + 1);
            assert(next.drop_last() =~= seen);
            assert(next.last() == reports[it.index() as int]);
        }
        let (day, username_to_collection) = entry;
        let (my_collection, friend_collection) = split_users(my_name, username_to_collection);
        let missing = FindMissingPhotoForDayUseCase.execute(
            &my_collection,
            &friend_collection,
            &day,
        );
        missing_for_all_time.insert(day, missing);
    }
    assert(reports.take(reports.len() as int) =~= reports);
    missing_for_all_time
}

/// No day's report holds a peer with nothing to report: every entry is a set
/// with photos in it, all of them photos of that peer that the owner lacks.
pub proof fn lemma_no_empty_entry(
    compared: spec_fn(Set<Seq<char>>) -> bool,
    owner: Set<Seq<char>>,
    peers: Map<Seq<char>, Set<Seq<char>>>,
)
    ensures
        forall|name: Seq<char>| #[trigger]
            missing_where(compared, owner, peers).dom().contains(name) ==> {
                &&& peers.dom().contains(name)
                &&& missing_where(compared, owner, peers)[name] == peers[name].difference(owner)
                &&& missing_where(compared, owner, peers)[name] != Set::<Seq<char>>::empty()
            },
{
}

/// An owner without photos lacks every photo: the report of such a day holds
/// every peer that has photos, with all of them.
pub proof fn lemma_no_owner_photos_all_reported(peers: Map<Seq<char>, Set<Seq<char>>>)
    ensures
        forall|name: Seq<char>| #[trigger]
            missing_for_day(Set::<Seq<char>>::empty(), peers).dom().contains(name) <==> {
                &&& peers.dom().contains(name)
                &&& peers[name] != Set::<Seq<char>>::empty()
            },
        forall|name: Seq<char>| #[trigger]
            missing_for_day(Set::<Seq<char>>::empty(), peers).dom().contains(name)
                ==> missing_for_day(Set::<Seq<char>>::empty(), peers)[name] == peers[name],
{
    let nothing = Set::<Seq<char>>::empty();
    assert forall|name: Seq<char>| #[trigger]
        peers.dom().contains(name) implies peers[name].difference(nothing) == peers[name] by {
        assert(peers[name].difference(nothing) =~= peers[name]);
    }
}

/// The report over all days has an entry for exactly the days that were
/// provided, whatever each day has to report.
pub proof fn lemma_every_day_reported(
    per_day: spec_fn(Seq<(Seq<char>, Set<Seq<char>>)>) -> Map<Seq<char>, Set<Seq<char>>>,
    days: Seq<(DayKey, Seq<(Seq<char>, Set<Seq<char>>)>)>,
)
    ensures
        forall|day: DayKey| #[trigger]
            report_over_days(per_day, days).dom().contains(day) <==> exists|i: int|
                0 <= i < days.len() && days[i].0 == day,
{
    let reports = reports_of(per_day, days);
    lemma_last_wins_keys(reports);
    assert forall|day: DayKey| #[trigger]
        report_over_days(per_day, days).dom().contains(day) <==> exists|i: int|
            0 <= i < days.len() && days[i].0 == day by {
        if has_key(reports, day) {
            let i = place_of(reports, day);
            assert(days[i].0 == day);
        }
        if exists|i: int| 0 <= i < days.len() && days[i].0 == day {
            let i = choose|i: int| 0 <= i < days.len() && days[i].0 == day;
            assert(reports[i].0 == day);
        }
    }
}

/// The report of a day is the report of the last time that day was provided.
pub proof fn lemma_day_reported_last(
    per_day: spec_fn(Seq<(Seq<char>, Set<Seq<char>>)>) -> Map<Seq<char>, Set<Seq<char>>>,
    days: Seq<(DayKey, Seq<(Seq<char>, Set<Seq<char>>)>)>,
    at: int,
)
    requires
        0 <= at < days.len(),
        forall|j: int| at < j < days.len() ==> (#[trigger] days[j]).0 != days[at].0,
    ensures
        report_over_days(per_day, days).dom().contains(days[at].0),
        report_over_days(per_day, days)[days[at].0] == per_day(days[at].1),
{
    let reports = reports_of(per_day, days);
    assert forall|j: int| at < j < reports.len() implies (#[trigger] reports[j]).0
        != reports[at].0 by {
        assert(days[j].0 != days[at].0);
    }
    lemma_last_wins_value(reports, at);
}

/// The peers of a day are the users of that day under any label but the owner's.
pub proof fn lemma_peer_photos_keys(owner: Seq<char>, users: Seq<(Seq<char>, Set<Seq<char>>)>)
    ensures
        forall|name: Seq<char>| #[trigger]
            peer_photos(owner, users).dom().contains(name) <==> name != owner && has_key(
                users,
                name,
            ),
    decreases users.len(),
{
    if users.len() > 0 {
        let rest = users.drop_last();
        let last = users.len() - 1;
        lemma_peer_photos_keys(owner, rest);
        assert forall|name: Seq<char>| #[trigger]
            peer_photos(owner, users).dom().contains(name) <==> name != owner && has_key(
                users,
                name,
            ) by {
            if peer_photos(owner, users).dom().contains(name) {
                if users[last].0 != owner && name == users[last].0 {
                    assert(has_key(users, name));
                } else {
                    assert(peer_photos(owner, rest).dom().contains(name));
                    let i = place_of(rest, name);
                    assert(0 <= i < rest.len() && rest[i].0 == name);
                    assert(users[i].0 == name);
                    assert(has_key(users, name));
                }
            }
            if name != owner && has_key(users, name) {
                let i = place_of(users, name);
                assert(0 <= i < users.len() && users[i].0 == name);
                if i < last {
                    assert(rest[i].0 == name);
                    assert(has_key(rest, name));
                    assert(peer_photos(owner, rest).dom().contains(name));
                } else {
                    assert(name == users.last().0);
                }
                assert(peer_photos(owner, users).dom().contains(name));
            }
        }
    } else {
        assert forall|name: Seq<char>| !has_key(users, name) by {
            if has_key(users, name) {
                let i = place_of(users, name);
                assert(0 <= i < users.len());
            }
        }
    }
}

/// A peer's photos are those of the last collection under the peer's label.
pub proof fn lemma_peer_photos_last(
    owner: Seq<char>,
    users: Seq<(Seq<char>, Set<Seq<char>>)>,
    at: int,
)
    requires
        0 <= at < users.len(),
        users[at].0 != owner,
        forall|j: int| at < j < users.len() ==> (#[trigger] users[j]).0 != users[at].0,
    ensures
        peer_photos(owner, users).dom().contains(users[at].0),
        peer_photos(owner, users)[users[at].0] == users[at].1,
    decreases users.len(),
{
    let last = users.len() - 1;
    if at < last {
        let rest = users.drop_last();
        assert(rest[at] == users[at]);
        assert forall|j: int| at < j < rest.len() implies (#[trigger] rest[j]).0 != rest[at].0 by {
            assert(rest[j] == users[j]);
        }
        lemma_peer_photos_last(owner, rest, at);
        assert(users[last].0 != users[at].0);
    }
}

/// The owner's photos are those of the last collection under the owner's
/// label, and no photos where no collection stands under that label.
pub proof fn lemma_owner_photos_last(
    owner: Seq<char>,
    users: Seq<(Seq<char>, Set<Seq<char>>)>,
    at: int,
)
    requires
        0 <= at <= users.len(),
        at > 0 ==> users[at - 1].0 == owner,
        forall|j: int| at <= j < users.len() ==> (#[trigger] users[j]).0 != owner,
    ensures
        owner_photos(owner, users) == (if at > 0 {
            users[at - 1].1
        } else {
            Set::<Seq<char>>::empty()
        }),
    decreases users.len(),
{
    if at < users.len() {
        let rest = users.drop_last();
        let last = users.len() - 1;
        assert(users[last].0 != owner);
        assert forall|j: int| at <= j < rest.len() implies (#[trigger] rest[j]).0 != owner by {
            assert(rest[j] == users[j]);
        }
        if at > 0 {
            assert(rest[at - 1] == users[at - 1]);
        }
        lemma_owner_photos_last(owner, rest, at);
    }
}

/// A pass is repeatable: two answers of a provider that hold the same days,
/// users and photos, or the same failure, lead to the same report.
pub proof fn lemma_pass_is_repeatable(
    owner: Seq<char>,
    first: Result<DatedCollections, FsErrors>,
    second: Result<DatedCollections, FsErrors>,
    first_outcome: Result<CollectionOfMissing, UseCaseError>,
    second_outcome: Result<CollectionOfMissing, UseCaseError>,
)
    requires
        is_outcome_of(owner, first, first_outcome),
        is_outcome_of(owner, second, second_outcome),
        match first {
            Ok(days) => second matches Ok(same) && dated_pairs(same@) == dated_pairs(days@),
            Err(failure) => second matches Err(same) && same.message_spec()
                == failure.message_spec(),
        },
    ensures
        match first_outcome {
            Ok(missing) => second_outcome matches Ok(same) && same@ == missing@,
            Err(error) => second_outcome matches Err(same) && same.message_spec()
                == error.message_spec(),
        },
{
}

} // verus!
