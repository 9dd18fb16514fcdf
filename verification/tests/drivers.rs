use photo_sync::cli;
use photo_sync::drivers;
use photo_sync::drivers::errors::DriverError;
use photo_sync::drivers::photo_provider::{DayFolder, PhotoProviderFs, UserFolder};
use photo_sync::entity::collections::{CollectionOfMissing, PhotoCollection, PhotoId, Username};
use photo_sync::entity::day::DayKey;
use photo_sync::interfaces::errors::FsErrors;
use photo_sync::interfaces::photo_provider::PhotoProvider;
use photo_sync::use_cases::errors::UseCaseError;

const HELLO: &str = "2cf24dba5fb0a30e26e83b2ac5b9e29e1b161e5c1fa7425e73043362938b9824";
const EMPTY: &str = "e3b0c44298fc1c149afbf4c8996fb92427ae41e4649b934ca495991b7852b855";
const ABC: &str = "ba7816bf8f01cfea414140de5dae2223b00361a396177a9cb410ff61f20015ad";

fn tokens_of(collection: &PhotoCollection) -> Vec<String> {
    let mut tokens: Vec<String> =
        collection.photos().iter().map(|photo| photo.as_str().to_string()).collect();
    tokens.sort();
    tokens
}

fn full_report_of(all: &CollectionOfMissing) -> Vec<(DayKey, Vec<(String, Vec<String>)>)> {
    all.entries()
        .iter()
        .map(|entry| {
            let mut report: Vec<(String, Vec<String>)> = entry
                .1
                .entries()
                .iter()
                .map(|peer| (peer.0.as_str().to_string(), tokens_of(&peer.1)))
                .collect();
            report.sort();
            (entry.0, report)
        })
        .collect()
}

fn user(name: &str, photos: &[&str]) -> UserFolder {
    UserFolder {
        name: name.to_string(),
        photos: photos.iter().map(|content| content.as_bytes().to_vec()).collect(),
    }
}

fn tree() -> Vec<DayFolder> {
    vec![
        DayFolder {
            name: "2024-04-16".to_string(),
            users: vec![user("My", &["hello"]), user("Lev", &["hello", "abc"]), user("Denis", &[])],
        },
        DayFolder {
            name: "2024-04-15".to_string(),
            users: vec![user("Denis", &["abc", "hello", "abc"]), user("My", &["hello", "abc"])],
        },
    ]
}

fn tree_report() -> Vec<(DayKey, Vec<(String, Vec<String>)>)> {
    vec![
        (DayKey::new(2024, 4, 15), vec![]),
        (DayKey::new(2024, 4, 16), vec![("Lev".to_string(), vec![ABC.to_string()])]),
    ]
}

#[test]
fn photo_is_named_by_its_sha256_digest() {
    assert_eq!(PhotoProviderFs::get_hash_of_photo(&b"hello".to_vec()), HELLO);
    assert_eq!(PhotoProviderFs::get_hash_of_photo(&Vec::new()), EMPTY);
    assert_eq!(PhotoProviderFs::get_hash_of_photo(&b"abc".to_vec()), ABC);
}

#[test]
fn photos_of_a_folder_become_a_collection() {
    let photos = vec![b"hello".to_vec(), b"abc".to_vec(), b"hello".to_vec()];
    let collection = PhotoProviderFs::process_day(&photos);
    assert_eq!(collection.len(), 2);
    assert!(collection.contains(&PhotoId::new(HELLO)));
    assert!(collection.contains(&PhotoId::new(ABC)));
    assert!(PhotoProviderFs::process_day(&Vec::new()).is_empty());
}

#[test]
fn name_of_a_day_folder_is_read_as_a_date() {
    assert_eq!(PhotoProviderFs::get_date("2024-04-15").unwrap(), DayKey::new(2024, 4, 15));
    assert!(matches!(PhotoProviderFs::get_date("photos"), Err(FsErrors::DateParsingFailure)));
    assert_eq!(cli::PhotoSyncCli::get_date("2024-04-15").unwrap(), DayKey::new(2024, 4, 15));
    assert!(matches!(
        cli::PhotoSyncCli::get_date("2024-04-31"),
        Err(cli::Errors::DateParsingFailure)
    ));
}

#[test]
fn users_of_a_day_folder_keep_their_order() {
    let users = PhotoProviderFs::process_users(&tree()[0].users);
    let names: Vec<&str> = users.iter().map(|entry| entry.0.as_str()).collect();
    assert_eq!(names, vec!["My", "Lev", "Denis"]);
    assert_eq!(tokens_of(&users[1].1), vec![HELLO.to_string(), ABC.to_string()]);
    assert!(users[2].1.is_empty());
}

#[test]
fn a_tree_is_collected_day_by_day() {
    let collected = PhotoProviderFs::collect(&tree()).unwrap();
    assert_eq!(collected.len(), 2);
    assert_eq!(collected[0].0, DayKey::new(2024, 4, 16));
    assert_eq!(collected[1].0, DayKey::new(2024, 4, 15));
    assert_eq!(collected[1].1.len(), 2);
    assert_eq!(collected[1].1[0].0.as_str(), "Denis");
    assert_eq!(collected[1].1[0].1.len(), 2);
}

#[test]
fn a_day_folder_that_names_no_date_fails_the_tree() {
    let mut folders = tree();
    folders.push(DayFolder { name: "misc".to_string(), users: vec![] });
    assert!(matches!(PhotoProviderFs::collect(&folders), Err(FsErrors::DateParsingFailure)));
}

#[test]
fn provider_hands_over_what_was_read() {
    let provider = PhotoProviderFs::new("some/where").with_listing(Ok(tree()));
    assert_eq!(provider.path_to_photos(), "some/where");
    let provided = provider.get_date_to_photo_collections().unwrap();
    assert_eq!(provided.len(), 2);
    let fresh = PhotoProviderFs::new("some/where");
    assert!(fresh.get_date_to_photo_collections().unwrap().is_empty());
    assert_eq!(PhotoProviderFs::default().path_to_photos(), "./photo_example");
}

#[test]
fn provider_passes_on_a_read_failure() {
    let provider = PhotoProviderFs::new("some/where")
        .with_listing(Err(FsErrors::CannotReadDirectory("some/where".to_string())));
    match provider.get_date_to_photo_collections() {
        Err(FsErrors::CannotReadDirectory(path)) => assert_eq!(path, "some/where"),
        _ => panic!("the read failure must come back"),
    }
}

#[test]
fn layered_command_reports_every_day() {
    let command = drivers::cli::PhotoSyncCli::new("My", "some/where");
    assert_eq!(command.my_folder_name(), "My");
    assert_eq!(command.path_to_photos(), "some/where");
    let all = command.sync_photos(Ok(tree())).unwrap();
    assert_eq!(full_report_of(&all), tree_report());
}

#[test]
fn layered_command_wraps_a_read_failure() {
    let command = drivers::cli::PhotoSyncCli::default();
    assert_eq!(command.my_folder_name(), "My");
    assert_eq!(command.path_to_photos(), "./photo_example");
    let failed = command.sync_photos(Err(FsErrors::CannotReadDirectory("x".to_string())));
    match failed {
        Err(error) => {
            assert_eq!(
                error.message(),
                "Use case error: Something went wrong with PhotoProvider: Cannot read directory: x.."
            );
            match error {
                DriverError::UseCase(UseCaseError::PhotoProvider(report)) => {
                    assert_eq!(report, "Cannot read directory: x.")
                }
                _ => panic!("the failure must be the provider's"),
            }
        }
        Ok(_) => panic!("the command must fail"),
    }
}

#[test]
fn layered_command_wraps_a_date_failure() {
    let command = drivers::cli::PhotoSyncCli::new("My", "some/where");
    let folders = vec![DayFolder { name: "2024-4-x".to_string(), users: vec![] }];
    match command.sync_photos(Ok(folders)) {
        Err(DriverError::UseCase(UseCaseError::PhotoProvider(report))) => {
            assert_eq!(report, "Cannot parse date.")
        }
        _ => panic!("the command must fail on the date"),
    }
}

#[test]
fn layered_command_reports_every_photo_where_the_owner_has_no_folder() {
    let command = drivers::cli::PhotoSyncCli::new("My", "some/where");
    let one = PhotoProviderFs::get_hash_of_photo(&b"1".to_vec());
    let two = PhotoProviderFs::get_hash_of_photo(&b"2".to_vec());
    let mut expected = vec![one, two];
    expected.sort();
    let folders =
        vec![DayFolder { name: "2024-04-15".to_string(), users: vec![user("Denis", &["1", "2"])] }];
    let all = command.sync_photos(Ok(folders)).unwrap();
    assert_eq!(
        full_report_of(&all),
        vec![(DayKey::new(2024, 4, 15), vec![("Denis".to_string(), expected)])]
    );
}

#[test]
fn direct_command_reports_every_day() {
    let command = cli::PhotoSyncCli::new("My", "some/where");
    assert_eq!(command.my_folder_name(), "My");
    assert_eq!(command.path_to_photos(), "some/where");
    let all = command.sync_photos(Ok(tree())).unwrap();
    assert_eq!(full_report_of(&all), tree_report());
}

#[test]
fn direct_command_reports_every_photo_where_the_owner_has_no_folder() {
    let command = cli::PhotoSyncCli::default();
    let one = PhotoProviderFs::get_hash_of_photo(&b"1".to_vec());
    let two = PhotoProviderFs::get_hash_of_photo(&b"2".to_vec());
    let mut expected = vec![one, two];
    expected.sort();
    let folders =
        vec![DayFolder { name: "2024-04-15".to_string(), users: vec![user("Denis", &["1", "2"])] }];
    let all = command.sync_photos(Ok(folders)).unwrap();
    assert_eq!(
        full_report_of(&all),
        vec![(DayKey::new(2024, 4, 15), vec![("Denis".to_string(), expected)])]
    );
}

#[test]
fn direct_command_passes_on_a_read_failure() {
    let command = cli::PhotoSyncCli::new("My", "some/where");
    match command.sync_photos(Err(cli::Errors::CannotReadFile("p.jpg".to_string()))) {
        Err(cli::Errors::CannotReadFile(path)) => assert_eq!(path, "p.jpg"),
        _ => panic!("the read failure must come back"),
    }
    assert!(matches!(
        command.sync_photos(Err(cli::Errors::CannotGetDirEntry)),
        Err(cli::Errors::CannotGetDirEntry)
    ));
    assert!(matches!(
        command.sync_photos(Err(cli::Errors::CannotReadDirectory("d".to_string()))),
        Err(cli::Errors::CannotReadDirectory(_))
    ));
}

#[test]
fn direct_command_fails_on_a_day_folder_that_names_no_date() {
    let command = cli::PhotoSyncCli::new("My", "some/where");
    let mut folders = tree();
    folders.insert(1, DayFolder { name: "15-04-2024".to_string(), users: vec![] });
    assert!(matches!(command.sync_photos(Ok(folders)), Err(cli::Errors::DateParsingFailure)));
}

#[test]
fn direct_command_takes_the_last_of_repeated_days() {
    let command = cli::PhotoSyncCli::new("My", "some/where");
    let folders = vec![
        DayFolder {
            name: "2024-04-15".to_string(),
            users: vec![user("My", &["hello"]), user("Lev", &["abc"])],
        },
        DayFolder { name: "2024-4-15".to_string(), users: vec![user("My", &["hello"])] },
    ];
    let all = command.sync_photos(Ok(folders)).unwrap();
    assert_eq!(full_report_of(&all), vec![(DayKey::new(2024, 4, 15), vec![])]);
}

#[test]
fn failures_are_put_in_words() {
    assert_eq!(
        FsErrors::CannotReadDirectory("a/b".to_string()).message(),
        "Cannot read directory: a/b."
    );
    assert_eq!(FsErrors::CannotReadFile("a/b.jpg".to_string()).message(), "Cannot read file: a/b.jpg.");
    assert_eq!(FsErrors::CannotGetDirEntry.message(), "Cannot get dir entry.");
    assert_eq!(FsErrors::DateParsingFailure.message(), "Cannot parse date.");
    assert_eq!(
        cli::Errors::CannotReadDirectory("a/b".to_string()).message(),
        "Cannot read directory: a/b."
    );
    assert_eq!(
        cli::Errors::CannotReadFile("a/b.jpg".to_string()).message(),
        "Cannot read file: a/b.jpg."
    );
    assert_eq!(cli::Errors::CannotGetDirEntry.message(), "Cannot get dir entry.");
    assert_eq!(cli::Errors::DateParsingFailure.message(), "Cannot parse date.");
    assert_eq!(
        UseCaseError::PhotoProvider("it broke".to_string()).message(),
        "Something went wrong with PhotoProvider: it broke."
    );
    assert_eq!(UseCaseError::Unknown("what".to_string()).message(), "Unknown error: what.");
    assert_eq!(
        DriverError::from(UseCaseError::Unknown("what".to_string())).message(),
        "Use case error: Unknown error: what."
    );
    assert_eq!(FsErrors::CannotReadFile("q".to_string()).clone().message(), "Cannot read file: q.");
}

#[test]
fn username_is_made_from_a_folder_name() {
    assert_eq!(Username::new("Lev").as_str(), "Lev");
}
