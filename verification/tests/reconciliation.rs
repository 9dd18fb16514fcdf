use photo_sync::cli::{find_missing_photos_for_day, is_different};
use photo_sync::entity::collections::{
    CollectionOfMissing, FriendCollections, MissingPhotos, PhotoCollection, PhotoId, Username,
};
use photo_sync::entity::day::DayKey;
use photo_sync::interfaces::errors::FsErrors;
use photo_sync::interfaces::photo_provider::{DatedCollections, PhotoProvider};
use photo_sync::use_cases::errors::UseCaseError;
use photo_sync::use_cases::use_cases::{
    missing_of_days, split_users, synchronize, FindMissingPhotoForDayUseCase,
    SynchronizeAllPhotosUseCase,
};

fn collection_of(tokens: &[&str]) -> PhotoCollection {
    PhotoCollection::from_vec(tokens.iter().map(|token| PhotoId::new(token)).collect())
}

fn tokens_of(collection: &PhotoCollection) -> Vec<String> {
    let mut tokens: Vec<String> =
        collection.photos().iter().map(|photo| photo.as_str().to_string()).collect();
    tokens.sort();
    tokens
}

fn friends_of(friends: &[(&str, &[&str])]) -> FriendCollections {
    let mut collections = FriendCollections::new();
    for (name, tokens) in friends {
        collections.insert(Username::new(name), collection_of(tokens));
    }
    collections
}

fn report_of(missing: &MissingPhotos) -> Vec<(String, Vec<String>)> {
    let mut report: Vec<(String, Vec<String>)> = missing
        .entries()
        .iter()
        .map(|entry| (entry.0.as_str().to_string(), tokens_of(&entry.1)))
        .collect();
    report.sort();
    report
}

fn full_report_of(all: &CollectionOfMissing) -> Vec<(DayKey, Vec<(String, Vec<String>)>)> {
    all.entries().iter().map(|entry| (entry.0, report_of(&entry.1))).collect()
}

fn entry(name: &str, tokens: &[&str]) -> (String, Vec<String>) {
    (name.to_string(), tokens.iter().map(|token| token.to_string()).collect())
}

fn day() -> DayKey {
    DayKey::new(2024, 4, 15)
}

#[test]
fn both_peers_have_something() {
    let owner = collection_of(&["1", "2", "3"]);
    let friends = friends_of(&[("Lev", &["6"]), ("Denis", &["3", "5", "6"])]);
    let expected = vec![entry("Denis", &["5", "6"]), entry("Lev", &["6"])];
    let by_fingerprint = FindMissingPhotoForDayUseCase.execute(&owner, &friends, &day());
    assert_eq!(report_of(&by_fingerprint), expected);
    let in_full = find_missing_photos_for_day(&owner, &friends, &day());
    assert_eq!(report_of(&in_full), expected);
}

#[test]
fn peer_with_the_owners_photos_is_absent() {
    let owner = collection_of(&["1", "2", "3"]);
    let friends = friends_of(&[("Lev", &["1", "2", "3"]), ("Denis", &["4", "5", "6"])]);
    let expected = vec![entry("Denis", &["4", "5", "6"])];
    let by_fingerprint = FindMissingPhotoForDayUseCase.execute(&owner, &friends, &day());
    assert_eq!(report_of(&by_fingerprint), expected);
    assert!(by_fingerprint.get(&Username::new("Lev")).is_none());
    let in_full = find_missing_photos_for_day(&owner, &friends, &day());
    assert_eq!(report_of(&in_full), expected);
}

#[test]
fn same_photos_in_another_order_are_skipped() {
    let owner = collection_of(&["1", "2", "3"]);
    let friends = friends_of(&[("Denis", &["3", "1", "2"])]);
    assert!(FindMissingPhotoForDayUseCase.execute(&owner, &friends, &day()).is_empty());
    assert!(find_missing_photos_for_day(&owner, &friends, &day()).is_empty());
}

#[test]
fn owner_without_photos_lacks_every_photo_in_full_comparison() {
    let owner = PhotoCollection::new();
    let friends = friends_of(&[("Denis", &["1", "2"])]);
    let in_full = find_missing_photos_for_day(&owner, &friends, &day());
    assert_eq!(report_of(&in_full), vec![entry("Denis", &["1", "2"])]);
}

#[test]
fn owner_without_photos_lacks_every_photo_by_fingerprint() {
    let owner = PhotoCollection::new();
    let friends = friends_of(&[("Denis", &["1", "2"])]);
    let by_fingerprint = FindMissingPhotoForDayUseCase.execute(&owner, &friends, &day());
    assert_eq!(by_fingerprint.len(), 1);
    assert_eq!(report_of(&by_fingerprint), vec![entry("Denis", &["1", "2"])]);
}

#[test]
fn owner_without_photos_still_passes_over_peers_without_photos() {
    let owner = PhotoCollection::new();
    let friends = friends_of(&[("Denis", &["1", "2"]), ("Lev", &[]), ("Olga", &["2"])]);
    let expected = vec![entry("Denis", &["1", "2"]), entry("Olga", &["2"])];
    let by_fingerprint = FindMissingPhotoForDayUseCase.execute(&owner, &friends, &day());
    assert_eq!(report_of(&by_fingerprint), expected);
    let in_full = find_missing_photos_for_day(&owner, &friends, &day());
    assert_eq!(report_of(&in_full), expected);
}

#[test]
fn a_day_without_the_owner_reports_every_photo_of_every_peer() {
    let days = vec![
        (DayKey::new(2024, 4, 15), vec![(Username::new("Denis"), collection_of(&["1", "2"]))]),
        (
            DayKey::new(2024, 4, 14),
            vec![
                (Username::new("My"), collection_of(&["1"])),
                (Username::new("Denis"), collection_of(&["1"])),
            ],
        ),
    ];
    let all = synchronize(&Username::new("My"), Ok(days)).unwrap();
    assert_eq!(
        full_report_of(&all),
        vec![
            (DayKey::new(2024, 4, 14), vec![]),
            (DayKey::new(2024, 4, 15), vec![entry("Denis", &["1", "2"])]),
        ]
    );
}

#[test]
fn peer_within_the_owner_has_no_entry() {
    let owner = collection_of(&["1", "2", "3"]);
    let friends = friends_of(&[("Lev", &["2"]), ("Denis", &[]), ("Olga", &["3", "4"])]);
    let expected = vec![entry("Olga", &["4"])];
    let by_fingerprint = FindMissingPhotoForDayUseCase.execute(&owner, &friends, &day());
    assert_eq!(report_of(&by_fingerprint), expected);
    let in_full = find_missing_photos_for_day(&owner, &friends, &day());
    assert_eq!(report_of(&in_full), expected);
    for listed in by_fingerprint.entries() {
        assert!(!listed.1.is_empty());
    }
    for listed in in_full.entries() {
        assert!(!listed.1.is_empty());
    }
}

#[test]
fn no_peers_no_report() {
    let owner = collection_of(&["1"]);
    let friends = FriendCollections::new();
    assert!(FindMissingPhotoForDayUseCase.execute(&owner, &friends, &day()).is_empty());
    assert!(find_missing_photos_for_day(&owner, &friends, &day()).is_empty());
}

#[test]
fn the_day_decides_nothing() {
    let owner = collection_of(&["1", "2"]);
    let friends = friends_of(&[("Lev", &["2", "3"])]);
    let one = FindMissingPhotoForDayUseCase.execute(&owner, &friends, &DayKey::new(1999, 1, 1));
    let other = FindMissingPhotoForDayUseCase.execute(&owner, &friends, &DayKey::new(2030, 6, 7));
    assert_eq!(report_of(&one), report_of(&other));
}

#[test]
fn different_collections_are_told() {
    assert!(is_different(&collection_of(&["1", "2"]), &collection_of(&["1", "3"])));
    assert!(is_different(&collection_of(&["1", "2"]), &collection_of(&["1"])));
    assert!(is_different(&collection_of(&["1"]), &collection_of(&["1", "2"])));
    assert!(is_different(&PhotoCollection::new(), &collection_of(&["1"])));
    assert!(!is_different(&collection_of(&["2", "1"]), &collection_of(&["1", "2"])));
    assert!(!is_different(&PhotoCollection::new(), &PhotoCollection::new()));
}

#[test]
fn users_are_parted_into_owner_and_peers() {
    let users = vec![
        (Username::new("Lev"), collection_of(&["1"])),
        (Username::new("My"), collection_of(&["2"])),
        (Username::new("Denis"), collection_of(&["3"])),
    ];
    let (mine, friends) = split_users(&Username::new("My"), users);
    assert_eq!(tokens_of(&mine), vec!["2"]);
    assert_eq!(report_of(&friends), vec![entry("Denis", &["3"]), entry("Lev", &["1"])]);
}

#[test]
fn the_last_of_repeated_users_counts() {
    let users = vec![
        (Username::new("My"), collection_of(&["1"])),
        (Username::new("Lev"), collection_of(&["2"])),
        (Username::new("My"), collection_of(&["3", "4"])),
        (Username::new("Lev"), collection_of(&["5"])),
    ];
    let (mine, friends) = split_users(&Username::new("My"), users);
    assert_eq!(tokens_of(&mine), vec!["3", "4"]);
    assert_eq!(report_of(&friends), vec![entry("Lev", &["5"])]);
}

#[test]
fn without_an_owner_among_the_users_the_owner_has_no_photos() {
    let users = vec![(Username::new("Lev"), collection_of(&["1"]))];
    let (mine, friends) = split_users(&Username::new("My"), users);
    assert!(mine.is_empty());
    assert_eq!(friends.len(), 1);
}

fn three_days() -> DatedCollections {
    vec![
        (
            DayKey::new(2024, 4, 16),
            vec![
                (Username::new("My"), collection_of(&["1", "2", "3"])),
                (Username::new("Lev"), collection_of(&["6"])),
                (Username::new("Denis"), collection_of(&["3", "5", "6"])),
            ],
        ),
        (
            DayKey::new(2024, 4, 15),
            vec![
                (Username::new("Denis"), collection_of(&["3", "2", "1"])),
                (Username::new("My"), collection_of(&["1", "2", "3"])),
            ],
        ),
        (DayKey::new(2024, 4, 17), vec![]),
    ]
}

fn three_days_report() -> Vec<(DayKey, Vec<(String, Vec<String>)>)> {
    vec![
        (DayKey::new(2024, 4, 15), vec![]),
        (DayKey::new(2024, 4, 16), vec![entry("Denis", &["5", "6"]), entry("Lev", &["6"])]),
        (DayKey::new(2024, 4, 17), vec![]),
    ]
}

#[test]
fn every_day_is_reported_in_calendar_order() {
    let all = missing_of_days(&Username::new("My"), three_days());
    assert_eq!(all.len(), 3);
    assert_eq!(full_report_of(&all), three_days_report());
    assert!(all.get(&DayKey::new(2024, 4, 15)).unwrap().is_empty());
}

#[test]
fn a_pass_is_repeatable() {
    let first = missing_of_days(&Username::new("My"), three_days());
    let second = missing_of_days(&Username::new("My"), three_days());
    assert_eq!(full_report_of(&first), full_report_of(&second));
}

#[test]
fn the_last_of_repeated_days_counts() {
    let days = vec![
        (
            DayKey::new(2024, 4, 15),
            vec![
                (Username::new("My"), collection_of(&["1"])),
                (Username::new("Lev"), collection_of(&["2"])),
            ],
        ),
        (
            DayKey::new(2024, 4, 15),
            vec![
                (Username::new("My"), collection_of(&["1"])),
                (Username::new("Lev"), collection_of(&["7"])),
            ],
        ),
    ];
    let all = missing_of_days(&Username::new("My"), days);
    assert_eq!(
        full_report_of(&all),
        vec![(DayKey::new(2024, 4, 15), vec![entry("Lev", &["7"])])]
    );
}

#[test]
fn no_days_no_report() {
    assert!(missing_of_days(&Username::new("My"), vec![]).is_empty());
}

#[test]
fn a_failure_of_the_provider_ends_the_pass() {
    let failed =
        synchronize(&Username::new("My"), Err(FsErrors::CannotReadFile("a/b.jpg".to_string())));
    match failed {
        Err(UseCaseError::PhotoProvider(report)) => {
            assert_eq!(report, "Cannot read file: a/b.jpg.")
        }
        _ => panic!("the pass must fail as the provider did"),
    }
}

#[test]
fn an_answer_of_the_provider_is_reconciled() {
    let all = synchronize(&Username::new("My"), Ok(three_days())).unwrap();
    assert_eq!(full_report_of(&all), three_days_report());
}

struct Fake {
    fails: bool,
}

impl PhotoProvider for Fake {
    fn get_date_to_photo_collections(&self) -> Result<DatedCollections, FsErrors> {
        if self.fails {
            Err(FsErrors::CannotGetDirEntry)
        } else {
            Ok(three_days())
        }
    }
}

#[test]
fn the_use_case_asks_its_provider() {
    let use_case = SynchronizeAllPhotosUseCase::new("My", Fake { fails: false });
    let all = use_case.execute().unwrap();
    assert_eq!(full_report_of(&all), three_days_report());
    let again = use_case.execute().unwrap();
    assert_eq!(full_report_of(&again), three_days_report());
}

#[test]
fn the_use_case_passes_on_its_providers_failure() {
    let use_case = SynchronizeAllPhotosUseCase::new("My", Fake { fails: true });
    match use_case.execute() {
        Err(UseCaseError::PhotoProvider(report)) => assert_eq!(report, "Cannot get dir entry."),
        _ => panic!("the pass must fail as the provider did"),
    }
}

#[test]
fn the_owner_is_the_label_given() {
    let use_case = SynchronizeAllPhotosUseCase::new("Denis", Fake { fails: false });
    let all = use_case.execute().unwrap();
    assert_eq!(
        full_report_of(&all),
        vec![
            (DayKey::new(2024, 4, 15), vec![]),
            (
                DayKey::new(2024, 4, 16),
                vec![entry("My", &["1", "2"])]
            ),
            (DayKey::new(2024, 4, 17), vec![]),
        ]
    );
}
