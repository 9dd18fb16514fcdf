//! Photo identities, user labels and the set of photos one user has on one day.

use std::collections::hash_map::DefaultHasher;
use std::hash::Hasher;
use vstd::prelude::*;
use vstd::set::fold::*;
use vstd::std_specs::hash::*;
use vstd::string::*;

use crate::entity::assoc::{
    assoc_map, has_key, keys_distinct, lemma_assoc_insert_at, lemma_assoc_map, lemma_assoc_push,
    lemma_assoc_update,
};
use crate::entity::day::DayKey;

verus! {

/// The hash of one identity token, taken by itself: what std's default hasher
/// returns after it was fed the token's bytes in a single write.
pub open spec fn token_hash(token: Seq<char>) -> u64 {
    DefaultHasher::spec_finish(seq![vstd::utf8::encode_utf8(token)])
}

/// The step that takes one more token into a fingerprint.
pub open spec fn mix(acc: u64, token: Seq<char>) -> u64 {
    acc ^ token_hash(token)
}

/// The fingerprint of a set of tokens: the hashes of its members, combined by
/// exclusive or. It depends on the members alone, not on any order among them.
pub open spec fn fingerprint(tokens: Set<Seq<char>>) -> u64 {
    tokens.fold(0u64, |acc: u64, token: Seq<char>| mix(acc, token))
}

/// Whether an owner with the photos `owner` has to be compared in full with a
/// peer that has the photos `peer`: the owner has photos at all, and the two
/// fingerprints differ.
pub open spec fn sync_needed(owner: Set<Seq<char>>, peer: Set<Seq<char>>) -> bool {
    owner != Set::<Seq<char>>::empty() && fingerprint(owner) != fingerprint(peer)
}

/// Exclusive or may take its operands in any order, so `mix` may take the
/// tokens of a set in any order.
pub proof fn lemma_mix_commutes()
    ensures
        is_fun_commutative(|acc: u64, token: Seq<char>| mix(acc, token)),
{
    let f = |acc: u64, token: Seq<char>| mix(acc, token);
    assert forall|a1: Seq<char>, a2: Seq<char>, b: u64| #[trigger]
        f(f(b, a2), a1) == f(f(b, a1), a2) by {
        let x = token_hash(a1);
        let y = token_hash(a2);
        assert((b ^ y) ^ x == (b ^ x) ^ y) by (bit_vector);
    }
}

/// The fingerprint of no photos is zero, and one more photo changes the
/// fingerprint by that photo's hash.
pub proof fn lemma_fingerprint_insert(tokens: Set<Seq<char>>, token: Seq<char>)
    requires
        tokens.finite(),
        !tokens.contains(token),
    ensures
        fingerprint(Set::empty()) == 0,
        fingerprint(tokens.insert(token)) == fingerprint(tokens) ^ token_hash(token),
{
    let f = |acc: u64, token: Seq<char>| mix(acc, token);
    lemma_mix_commutes();
    lemma_fold_empty(0u64, f);
    lemma_fold_insert(tokens, 0u64, f, token);
}

/// What is left of a set within another set is empty.
pub proof fn lemma_difference_of_subset(a: Set<Seq<char>>, b: Set<Seq<char>>)
    ensures
        forall|token: Seq<char>|
            a.difference(b).contains(token) <==> a.contains(token) && !b.contains(token),
        a.subset_of(b) ==> a.difference(b) == Set::<Seq<char>>::empty(),
{
    if a.subset_of(b) {
        assert(a.difference(b) =~= Set::<Seq<char>>::empty());
    }
}

/// Collections of the same photos have the same fingerprint and need no
/// comparison, in whatever order and however often the photos came in. An
/// owner without photos needs no comparison either.
pub proof fn lemma_same_photos_need_no_sync(first: Seq<Seq<char>>, second: Seq<Seq<char>>)
    requires
        first.to_set() == second.to_set(),
    ensures
        fingerprint(first.to_set()) == fingerprint(second.to_set()),
        !sync_needed(first.to_set(), second.to_set()),
        !sync_needed(Set::<Seq<char>>::empty(), second.to_set()),
{
}

/// The identity of a photo: a token derived from its content. Two photos with
/// the same token are the same photo, whatever their file names.
#[derive(Debug, PartialEq, Eq, Hash, PartialOrd, Ord)]
pub struct PhotoId(String);

impl View for PhotoId {
    type V = Seq<char>;

    closed spec fn view(&self) -> Seq<char> {
        self.0@
    }
}

impl Clone for PhotoId {
    fn clone(&self) -> (copy: Self)
        ensures
            copy@ == self@,
    {
        PhotoId(self.0.clone())
    }
}

impl PhotoId {
    /// Makes the identity that has `hash` as its token.
    pub fn new(hash: &str) -> (id: Self)
        ensures
            id@ == hash@,
    {
        PhotoId(hash.to_owned())
    }

    /// The token, for display.
    pub fn as_str(&self) -> (token: &str)
        ensures
            token@ == self@,
    {
        self.0.as_str()
    }

    /// Whether both identities stand for the same photo.
    pub fn same_as(&self, other: &PhotoId) -> (same: bool)
        ensures
            same == (self@ == other@),
    {
        self.0 == other.0
    }
}

/// The label of a person, the owner or a peer: a name, compared letter by letter.
#[derive(Debug, PartialEq, Eq, Hash)]
pub struct Username(String);

impl View for Username {
    type V = Seq<char>;

    closed spec fn view(&self) -> Seq<char> {
        self.0@
    }
}

impl Clone for Username {
    fn clone(&self) -> (copy: Self)
        ensures
            copy@ == self@,
    {
        Username(self.0.clone())
    }
}

impl Username {
    /// Makes the label that reads `name`.
    pub fn new(name: &str) -> (label: Self)
        ensures
            label@ == name@,
    {
        Username(name.to_owned())
    }

    /// The name, for display.
    pub fn as_str(&self) -> (name: &str)
        ensures
            name@ == self@,
    {
        self.0.as_str()
    }

    /// Whether both labels name the same person.
    pub fn same_as(&self, other: &Username) -> (same: bool)
        ensures
            same == (self@ == other@),
    {
        self.0 == other.0
    }
}

impl From<String> for Username {
    fn from(value: String) -> (label: Self)
        ensures
            label@ == value@,
    {
        Username(value)
    }
}

impl vstd::std_specs::convert::FromSpecImpl<String> for Username {
    open spec fn obeys_from_spec() -> bool {
        true
    }

    closed spec fn from_spec(value: String) -> Username {
        Username(value)
    }
}

/// Hashes one identity by itself, with std's default hasher.
fn hash_token(id: &PhotoId) -> (hash: u64)
    ensures
        hash == token_hash(id@),
{
    let mut hasher = DefaultHasher::new();
    hasher.write(id.0.as_str().as_bytes());
    assert(hasher@ =~= seq![vstd::utf8::encode_utf8(id@)]);
    hasher.finish()
}

/// The set of distinct photos that one user has on one day, with the
/// fingerprint of that set kept beside it.
#[derive(Debug)]
pub struct PhotoCollection {
    photos: Vec<PhotoId>,
    fingerprint: u64,
}

impl View for PhotoCollection {
    type V = Set<Seq<char>>;

    closed spec fn view(&self) -> Set<Seq<char>> {
        self.tokens().to_set()
    }
}

impl PhotoCollection {
    spec fn tokens(&self) -> Seq<Seq<char>> {
        self.photos@.map_values(|photo: PhotoId| photo@)
    }

    /// No photo is held twice, and the fingerprint kept is that of the photos held.
    #[verifier::type_invariant]
    spec fn well_formed(&self) -> bool {
        &&& self.tokens().no_duplicates()
        &&& self.fingerprint == fingerprint(self@)
    }

    /// The collection without photos.
    pub fn new() -> (empty: Self)
        ensures
            empty@ == Set::<Seq<char>>::empty(),
    {
        let photos: Vec<PhotoId> = Vec::new();
        proof {
            let tokens = photos@.map_values(|photo: PhotoId| photo@);
            assert(tokens =~= Seq::<Seq<char>>::empty());
            assert(tokens.to_set() =~= Set::<Seq<char>>::empty());
            lemma_fold_empty(0u64, |acc: u64, token: Seq<char>| mix(acc, token));
        }
        PhotoCollection { photos, fingerprint: 0 }
    }

    /// Whether the collection holds no photo.
    pub fn is_empty(&self) -> (empty: bool)
        ensures
            empty == (self@.len() == 0),
            empty == (self@ == Set::<Seq<char>>::empty()),
    {
        proof {
            use_type_invariant(self);
            self.tokens().unique_seq_to_set();
            if self@.len() == 0 {
                self@.lemma_len0_is_empty();
            }
        }
        self.photos.len() == 0
    }

    /// The number of distinct photos in the collection.
    pub fn len(&self) -> (count: usize)
        ensures
            count == self@.len(),
            self@.finite(),
    {
        proof {
            use_type_invariant(self);
            self.tokens().unique_seq_to_set();
            vstd::seq_lib::seq_to_set_is_finite(self.tokens());
        }
        self.photos.len()
    }

    /// Whether the collection holds the photo `value`.
    pub fn contains(&self, value: &PhotoId) -> (found: bool)
        ensures
            found == self@.contains(value@),
    {
        let mut at: usize = 0;
        while at < self.photos.len()
            invariant
                at <= self.photos.len(),
                forall|k: int| 0 <= k < at ==> self.tokens()[k] != value@,
            decreases self.photos.len() - at,
        {
            if self.photos[at].same_as(value) {
                assert(self.tokens()[at as int] == value@);
                return true;
            }
            at += 1;
        }
        false
    }

    /// Takes in a photo that the collection does not hold yet.
    fn push_new(&mut self, value: PhotoId)
        requires
            !old(self)@.contains(value@),
        ensures
            final(self)@ == old(self)@.insert(value@),
    {
        proof {
            use_type_invariant(&*self);
        }
        let hash = hash_token(&value);
        let mut taken = PhotoCollection::new();
        std::mem::swap(self, &mut taken);
        let PhotoCollection { photos, fingerprint } = taken;
        let mut photos = photos;
        let ghost before = photos@.map_values(|photo: PhotoId| photo@);
        photos.push(value);
        proof {
            let after = photos@.map_values(|photo: PhotoId| photo@);
            assert(after =~= before.push(value@));
            before.lemma_push_to_set_commute(value@);
            lemma_fingerprint_insert(before.to_set(), value@);
        }
        *self = PhotoCollection { photos, fingerprint: fingerprint ^ hash };
    }

    /// Adds a photo. Nothing changes if the collection holds it already. The
    /// result says whether the photo was new.
    pub fn insert(&mut self, value: PhotoId) -> (added: bool)
        ensures
            final(self)@ == old(self)@.insert(value@),
            added == !old(self)@.contains(value@),
    {
        if self.contains(&value) {
            assert(self@.insert(value@) =~= self@);
            false
        } else {
            self.push_new(value);
            true
        }
    }

    /// The photos of `self` that `other` does not hold. Neither operand changes.
    pub fn difference(&self, other: &Self) -> (rest: Self)
        ensures
            rest@ == self@.difference(other@),
            forall|token: Seq<char>|
                rest@.contains(token) <==> self@.contains(token) && !other@.contains(token),
            self@.subset_of(other@) ==> rest@ == Set::<Seq<char>>::empty(),
    {
        proof {
            use_type_invariant(self);
        }
        let mut rest = PhotoCollection::new();
        let mut at: usize = 0;
        while at < self.photos.len()
            invariant
                at <= self.photos.len(),
                self.tokens().no_duplicates(),
                rest@ == self.tokens().take(at as int).to_set().difference(other@),
            decreases self.photos.len() - at,
        {
            let photo = &self.photos[at];
            proof {
                let seen = self.tokens().take(at as int);
                let next = self.tokens().take(at + 1);
                assert(next =~= seen.push(photo@));
                seen.lemma_push_to_set_commute(photo@);
                assert(photo@ == self.tokens()[at as int]);
                if seen.contains(photo@) {
                    let k = choose|k: int| 0 <= k < seen.len() && seen[k] == photo@;
                    assert(self.tokens()[k] == self.tokens()[at as int]);
                }
            }
            if !other.contains(photo) {
                rest.push_new(photo.clone());
            }
            at += 1;
            assert(rest@ =~= self.tokens().take(at as int).to_set().difference(other@));
        }
        assert(self.tokens().take(at as int) =~= self.tokens());
        proof {
            lemma_difference_of_subset(self@, other@);
        }
        rest
    }

    /// The fingerprint of the photos held.
    pub fn hash(&self) -> (value: u64)
        ensures
            value == fingerprint(self@),
    {
        proof {
            use_type_invariant(self);
        }
        self.fingerprint
    }

    /// Whether both collections have the same fingerprint.
    pub fn is_collection_hashes_eq(&self, other: &Self) -> (same: bool)
        ensures
            same == (fingerprint(self@) == fingerprint(other@)),
    {
        self.hash() == other.hash()
    }

    /// The quick test before a full comparison, asked of the owner's
    /// collection: `false` when the owner has no photos, and `false` when both
    /// collections have the same fingerprint, as two collections of the same
    /// photos always do.
    pub fn is_sync_needed_with(&self, other: &Self) -> (needed: bool)
        ensures
            needed == sync_needed(self@, other@),
            self@ == Set::<Seq<char>>::empty() ==> !needed,
            self@ == other@ ==> !needed,
    {
        !self.is_empty() && !self.is_collection_hashes_eq(other)
    }

    /// Whether every photo of `self` is a photo of `other` too.
    pub fn is_subset(&self, other: &Self) -> (within: bool)
        ensures
            within == self@.subset_of(other@),
    {
        let mut at: usize = 0;
        while at < self.photos.len()
            invariant
                at <= self.photos.len(),
                forall|k: int| 0 <= k < at ==> other@.contains(#[trigger] self.tokens()[k]),
            decreases self.photos.len() - at,
        {
            if !other.contains(&self.photos[at]) {
                assert(self@.contains(self.tokens()[at as int]));
                return false;
            }
            at += 1;
        }
        true
    }

    /// The collection of the photos in `photos`, each taken once.
    pub fn from_vec(photos: Vec<PhotoId>) -> (collection: Self)
        ensures
            collection@ == photo_tokens(photos@).to_set(),
    {
        let mut collection = PhotoCollection::new();
        let ghost tokens = photo_tokens(photos@);
        assert(tokens.take(0) =~= Seq::<Seq<char>>::empty());
        for photo in it: photos
            invariant
                tokens == photo_tokens(it.seq()),
                collection@ == tokens.take(it.index() as int).to_set(),
        {
            proof {
                let seen = tokens.take(it.index() as int);
                assert(tokens.take(it.index() + 1) =~= seen.push(photo@));
                seen.lemma_push_to_set_commute(photo@);
            }
            collection.insert(photo);
        }
        assert(tokens.take(tokens.len() as int) =~= tokens);
        collection
    }

    /// The photos held, each once.
    pub fn photos(&self) -> (photos: &Vec<PhotoId>)
        ensures
            photo_tokens(photos@).no_duplicates(),
            photo_tokens(photos@).to_set() == self@,
    {
        proof {
            use_type_invariant(self);
        }
        &self.photos
    }
}

impl Clone for PhotoCollection {
    fn clone(&self) -> (copy: Self)
        ensures
            copy@ == self@,
    {
        let copy = self.difference(&PhotoCollection::new());
        assert(self@.difference(Set::<Seq<char>>::empty()) =~= self@);
        copy
    }
}

impl Default for PhotoCollection {
    fn default() -> (empty: Self)
        ensures
            empty@ == Set::<Seq<char>>::empty(),
    {
        PhotoCollection::new()
    }
}

/// The tokens of a sequence of photo identities, in the same order.
pub open spec fn photo_tokens(photos: Seq<PhotoId>) -> Seq<Seq<char>> {
    photos.map_values(|photo: PhotoId| photo@)
}

/// What a sequence of labelled collections holds: each label with the set of
/// photos beside it.
pub open spec fn user_pairs(entries: Seq<(Username, PhotoCollection)>) -> Seq<
    (Seq<char>, Set<Seq<char>>),
> {
    entries.map_values(|entry: (Username, PhotoCollection)| (entry.0@, entry.1@))
}

/// The collections of several users on one day, each under its user's label.
/// The same type holds a day's result: under each peer's label the photos that
/// the owner lacks.
#[derive(Debug)]
pub struct FriendCollections {
    entries: Vec<(Username, PhotoCollection)>,
}

/// For each peer the photos that the owner lacks.
pub type MissingPhotos = FriendCollections;

impl View for FriendCollections {
    type V = Map<Seq<char>, Set<Seq<char>>>;

    closed spec fn view(&self) -> Map<Seq<char>, Set<Seq<char>>> {
        assoc_map(user_pairs(self.entries@))
    }
}

impl FriendCollections {
    /// No label occurs twice.
    #[verifier::type_invariant]
    spec fn well_formed(&self) -> bool {
        keys_distinct(user_pairs(self.entries@))
    }

    /// The map without entries.
    pub fn new() -> (empty: Self)
        ensures
            empty@ == Map::<Seq<char>, Set<Seq<char>>>::empty(),
    {
        FriendCollections::with_capacity(0)
    }

    /// The map without entries, with room for `capacity` of them.
    pub fn with_capacity(capacity: usize) -> (empty: Self)
        ensures
            empty@ == Map::<Seq<char>, Set<Seq<char>>>::empty(),
    {
        let entries: Vec<(Username, PhotoCollection)> = Vec::with_capacity(capacity);
        proof {
            lemma_assoc_map(user_pairs(entries@));
            assert(assoc_map(user_pairs(entries@)) =~= Map::<Seq<char>, Set<Seq<char>>>::empty());
        }
        FriendCollections { entries }
    }

    /// The number of labels.
    pub fn len(&self) -> (count: usize)
        ensures
            count == self@.dom().len(),
            self@.dom().finite(),
    {
        proof {
            use_type_invariant(self);
            lemma_assoc_map(user_pairs(self.entries@));
        }
        self.entries.len()
    }

    /// Whether the map has no entry.
    pub fn is_empty(&self) -> (empty: bool)
        ensures
            empty == (self@ == Map::<Seq<char>, Set<Seq<char>>>::empty()),
    {
        proof {
            use_type_invariant(self);
            lemma_assoc_map(user_pairs(self.entries@));
            if self.entries.len() == 0 {
                assert(self@ =~= Map::<Seq<char>, Set<Seq<char>>>::empty());
            } else {
                assert(self@.dom().contains(user_pairs(self.entries@)[0].0));
            }
        }
        self.entries.len() == 0
    }

    /// The place of `name` among the entries.
    fn position(&self, name: &Username) -> (place: Option<usize>)
        ensures
            match place {
                Some(at) => at < self.entries.len() && self.entries[at as int].0@ == name@,
                None => !has_key(user_pairs(self.entries@), name@),
            },
    {
        let mut at: usize = 0;
        while at < self.entries.len()
            invariant
                at <= self.entries.len(),
                forall|k: int| 0 <= k < at ==> self.entries[k].0@ != name@,
            decreases self.entries.len() - at,
        {
            if self.entries[at].0.same_as(name) {
                return Some(at);
            }
            at += 1;
        }
        assert forall|k: int| 0 <= k < user_pairs(self.entries@).len() implies user_pairs(
            self.entries@,
        )[k].0 != name@ by {
            assert(user_pairs(self.entries@)[k].0 == self.entries[k].0@);
        }
        None
    }

    /// Whether there is an entry under `name`.
    pub fn contains_key(&self, name: &Username) -> (found: bool)
        ensures
            found == self@.dom().contains(name@),
    {
        let place = self.position(name);
        proof {
            use_type_invariant(self);
            lemma_assoc_map(user_pairs(self.entries@));
            if let Some(at) = place {
                assert(user_pairs(self.entries@)[at as int].0 == name@);
            }
        }
        place.is_some()
    }

    /// The collection under `name`, if there is one.
    pub fn get(&self, name: &Username) -> (found: Option<&PhotoCollection>)
        ensures
            match found {
                Some(collection) => self@.dom().contains(name@) && collection@ == self@[name@],
                None => !self@.dom().contains(name@),
            },
    {
        let place = self.position(name);
        proof {
            use_type_invariant(self);
            lemma_assoc_map(user_pairs(self.entries@));
        }
        match place {
            Some(at) => {
                assert(user_pairs(self.entries@)[at as int] == (name@, self.entries[at as int].1@));
                Some(&self.entries[at].1)
            },
            None => None,
        }
    }

    /// Puts `collection` under `name`. An entry that stood under that label
    /// leaves the map and is handed back.
    pub fn insert(&mut self, name: Username, collection: PhotoCollection) -> (before: Option<
        PhotoCollection,
    >)
        ensures
            final(self)@ == old(self)@.insert(name@, collection@),
            match before {
                Some(was) => old(self)@.dom().contains(name@) && was@ == old(self)@[name@],
                None => !old(self)@.dom().contains(name@),
            },
    {
        let place = self.position(&name);
        proof {
            use_type_invariant(&*self);
            lemma_assoc_map(user_pairs(self.entries@));
        }
        let mut taken = FriendCollections::new();
        std::mem::swap(self, &mut taken);
        let FriendCollections { entries } = taken;
        let mut entries = entries;
        let ghost pairs = user_pairs(entries@);
        let before = match place {
            Some(at) => {
                let was = entries.remove(at);
                entries.insert(at, (name, collection));
                proof {
                    assert(pairs[at as int] == (name@, was.1@));
                    assert(user_pairs(entries@) =~= pairs.update(
                        at as int,
                        (pairs[at as int].0, collection@),
                    ));
                    lemma_assoc_update(pairs, at as int, collection@);
                }
                Some(was.1)
            },
            None => {
                entries.push((name, collection));
                proof {
                    assert(user_pairs(entries@) =~= pairs.push((name@, collection@)));
                    lemma_assoc_push(pairs, name@, collection@);
                }
                None
            },
        };
        *self = FriendCollections { entries };
        before
    }

    /// The entries, each label once.
    pub fn entries(&self) -> (entries: &Vec<(Username, PhotoCollection)>)
        ensures
            keys_distinct(user_pairs(entries@)),
            assoc_map(user_pairs(entries@)) == self@,
    {
        proof {
            use_type_invariant(self);
        }
        &self.entries
    }
}

impl Default for FriendCollections {
    fn default() -> (empty: Self)
        ensures
            empty@ == Map::<Seq<char>, Set<Seq<char>>>::empty(),
    {
        FriendCollections::new()
    }
}

/// What a sequence of dated results holds: each day with the map beside it.
pub open spec fn day_pairs(entries: Seq<(DayKey, MissingPhotos)>) -> Seq<
    (DayKey, Map<Seq<char>, Set<Seq<char>>>),
> {
    entries.map_values(|entry: (DayKey, MissingPhotos)| (entry.0, entry.1@))
}

/// Each day stands before every day that follows it.
pub open spec fn days_ascending(entries: Seq<(DayKey, MissingPhotos)>) -> bool {
    forall|i: int, j: int| 0 <= i < j < entries.len() ==> entries[i].0.before(entries[j].0)
}

/// The result over all days: for each day the photos that the owner lacks, by
/// peer. The days are kept in the order of the calendar.
#[derive(Debug)]
pub struct CollectionOfMissing {
    days: Vec<(DayKey, MissingPhotos)>,
}

impl View for CollectionOfMissing {
    type V = Map<DayKey, Map<Seq<char>, Set<Seq<char>>>>;

    closed spec fn view(&self) -> Map<DayKey, Map<Seq<char>, Set<Seq<char>>>> {
        assoc_map(day_pairs(self.days@))
    }
}

proof fn lemma_ascending_distinct(entries: Seq<(DayKey, MissingPhotos)>)
    requires
        days_ascending(entries),
    ensures
        keys_distinct(day_pairs(entries)),
{
    assert forall|i: int, j: int| 0 <= i < j < day_pairs(entries).len() implies day_pairs(
        entries,
    )[i].0 != day_pairs(entries)[j].0 by {
        assert(entries[i].0.before(entries[j].0));
    }
}

impl CollectionOfMissing {
    /// The days stand in the order of the calendar, each once.
    #[verifier::type_invariant]
    spec fn well_formed(&self) -> bool {
        days_ascending(self.days@)
    }

    /// The result without days.
    pub fn new() -> (empty: Self)
        ensures
            empty@ == Map::<DayKey, Map<Seq<char>, Set<Seq<char>>>>::empty(),
    {
        let days: Vec<(DayKey, MissingPhotos)> = Vec::new();
        proof {
            lemma_assoc_map(day_pairs(days@));
            assert(assoc_map(day_pairs(days@)) =~= Map::<
                DayKey,
                Map<Seq<char>, Set<Seq<char>>>,
            >::empty());
        }
        CollectionOfMissing { days }
    }

    /// The number of days.
    pub fn len(&self) -> (count: usize)
        ensures
            count == self@.dom().len(),
            self@.dom().finite(),
    {
        proof {
            use_type_invariant(self);
            lemma_ascending_distinct(self.days@);
            lemma_assoc_map(day_pairs(self.days@));
        }
        self.days.len()
    }

    /// Whether the result has no day.
    pub fn is_empty(&self) -> (empty: bool)
        ensures
            empty == (self@ == Map::<DayKey, Map<Seq<char>, Set<Seq<char>>>>::empty()),
    {
        proof {
            use_type_invariant(self);
            lemma_ascending_distinct(self.days@);
            lemma_assoc_map(day_pairs(self.days@));
            if self.days.len() == 0 {
                assert(self@ =~= Map::<DayKey, Map<Seq<char>, Set<Seq<char>>>>::empty());
            } else {
                assert(self@.dom().contains(day_pairs(self.days@)[0].0));
            }
        }
        self.days.len() == 0
    }

    /// The first place whose day is not before `day`.
    fn lower_bound(&self, day: &DayKey) -> (at: usize)
        ensures
            at <= self.days.len(),
            forall|k: int| 0 <= k < at ==> self.days[k].0.before(*day),
            at < self.days.len() ==> !self.days[at as int].0.before(*day),
    {
        let mut at: usize = 0;
        while at < self.days.len()
            invariant
                at <= self.days.len(),
                forall|k: int| 0 <= k < at ==> self.days[k].0.before(*day),
            decreases self.days.len() - at,
        {
            if !self.days[at].0.is_before(day) {
                return at;
            }
            at += 1;
        }
        at
    }

    /// The result of `day`, if that day is there.
    pub fn get(&self, day: &DayKey) -> (found: Option<&MissingPhotos>)
        ensures
            match found {
                Some(missing) => self@.dom().contains(*day) && missing@ == self@[*day],
                None => !self@.dom().contains(*day),
            },
    {
        let at = self.lower_bound(day);
        proof {
            use_type_invariant(self);
            lemma_ascending_distinct(self.days@);
            lemma_assoc_map(day_pairs(self.days@));
        }
        if at < self.days.len() && self.days[at].0 == *day {
            assert(day_pairs(self.days@)[at as int] == (*day, self.days[at as int].1@));
            Some(&self.days[at].1)
        } else {
            proof {
                if self@.dom().contains(*day) {
                    let k = crate::entity::assoc::place_of(day_pairs(self.days@), *day);
                    assert(self.days[k].0 == *day);
                    if k < at {
                        assert(self.days[k].0.before(*day));
                    } else if k > at {
                        assert(self.days[at as int].0.before(self.days[k].0));
                    }
                }
            }
            None
        }
    }

    /// Whether the result has the day `day`.
    pub fn contains_key(&self, day: &DayKey) -> (found: bool)
        ensures
            found == self@.dom().contains(*day),
    {
        self.get(day).is_some()
    }

    /// Puts `missing` under `day`. What stood under that day leaves the result
    /// and is handed back.
    pub fn insert(&mut self, day: DayKey, missing: MissingPhotos) -> (before: Option<
        MissingPhotos,
    >)
        ensures
            final(self)@ == old(self)@.insert(day, missing@),
            match before {
                Some(was) => old(self)@.dom().contains(day) && was@ == old(self)@[day],
                None => !old(self)@.dom().contains(day),
            },
    {
        let at = self.lower_bound(&day);
        proof {
            use_type_invariant(&*self);
            lemma_ascending_distinct(self.days@);
            lemma_assoc_map(day_pairs(self.days@));
        }
        let mut taken = CollectionOfMissing::new();
        std::mem::swap(self, &mut taken);
        let CollectionOfMissing { days } = taken;
        let mut days = days;
        let ghost entries = days@;
        let ghost pairs = day_pairs(days@);
        let before = if at < days.len() && days[at].0 == day {
            let was = days.remove(at);
            days.insert(at, (day, missing));
            proof {
                assert(pairs[at as int] == (day, was.1@));
                assert(day_pairs(days@) =~= pairs.update(at as int, (pairs[at as int].0, missing@)));
                lemma_assoc_update(pairs, at as int, missing@);
                assert forall|i: int, j: int| 0 <= i < j < days.len() implies days[i].0.before(
                    days[j].0,
                ) by {
                    assert(days[i].0 == entries[i].0);
                    assert(days[j].0 == entries[j].0);
                }
            }
            Some(was.1)
        } else {
            days.insert(at, (day, missing));
            proof {
                assert(!has_key(pairs, day)) by {
                    if has_key(pairs, day) {
                        let k = crate::entity::assoc::place_of(pairs, day);
                        assert(entries[k].0 == day);
                        if k < at {
                            assert(entries[k].0.before(day));
                        } else if k > at {
                            assert(entries[at as int].0.before(entries[k].0));
                        }
                    }
                }
                assert(day_pairs(days@) =~= pairs.insert(at as int, (day, missing@)));
                lemma_assoc_insert_at(pairs, at as int, day, missing@);
                assert forall|i: int, j: int| 0 <= i < j < days.len() implies days[i].0.before(
                    days[j].0,
                ) by {
                    let pi = if i < at { i } else { i - 1 };
                    let pj = if j < at { j } else { j - 1 };
                    if i == at {
                        assert(days[j] == entries[pj]);
                        if pj > at {
                            assert(entries[at as int].0.before(entries[pj].0));
                        }
                    } else if j == at {
                        assert(days[i] == entries[pi]);
                    } else {
                        assert(days[i] == entries[pi]);
                        assert(days[j] == entries[pj]);
                        assert(entries[pi].0.before(entries[pj].0));
                    }
                }
            }
            None
        };
        *self = CollectionOfMissing { days };
        before
    }

    /// The days with their results, in the order of the calendar.
    pub fn entries(&self) -> (entries: &Vec<(DayKey, MissingPhotos)>)
        ensures
            days_ascending(entries@),
            keys_distinct(day_pairs(entries@)),
            assoc_map(day_pairs(entries@)) == self@,
    {
        proof {
            use_type_invariant(self);
            lemma_ascending_distinct(self.days@);
        }
        &self.days
    }
}

impl Default for CollectionOfMissing {
    fn default() -> (empty: Self)
        ensures
            empty@ == Map::<DayKey, Map<Seq<char>, Set<Seq<char>>>>::empty(),
    {
        CollectionOfMissing::new()
    }
}

} // verus!
