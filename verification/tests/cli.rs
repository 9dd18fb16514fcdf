use photo_sync::cli::find_missing_photos_for_day;
use photo_sync::entity::day::DayKey;
use photo_sync::types::{FriendCollections, FriendName, PhotoCollection, PhotoId};

fn get_my_collection(of_elements: &[&str]) -> PhotoCollection {
    PhotoCollection::from_vec(of_elements.iter().map(|token| PhotoId::new(token)).collect())
}

fn get_friend_collection(for_denis: &[&str], for_lev: &[&str]) -> FriendCollections {
    let mut friend_collection = FriendCollections::with_capacity(for_denis.len() + for_lev.len());

    friend_collection.insert(FriendName::new("Lev"), get_my_collection(for_lev));
    friend_collection.insert(FriendName::new("Denis"), get_my_collection(for_denis));

    friend_collection
}

#[test]
fn cli_should_find_missing_photos_from_both_friends() {
    let friend_collection = get_friend_collection(&["3u64", "5u64", "6u64"], &["6u64"]);
    let my_collection = get_my_collection(&["1u64", "2u64", "3u64"]);
    let date = DayKey::parse_from_str("2024-04-15", "%Y-%m-%d").unwrap();

    let missing_photos = find_missing_photos_for_day(&my_collection, &friend_collection, &date);

    assert!(missing_photos.get(&FriendName::new("Lev")).is_some());
    assert!(missing_photos
        .get(&FriendName::new("Lev"))
        .unwrap()
        .contains(&PhotoId::new("6u64")));

    assert!(missing_photos.get(&FriendName::new("Denis")).is_some());
    assert!(missing_photos
        .get(&FriendName::new("Denis"))
        .unwrap()
        .contains(&PhotoId::new("5u64")));
    assert!(missing_photos
        .get(&FriendName::new("Denis"))
        .unwrap()
        .contains(&PhotoId::new("6u64")))
}

#[test]
fn cli_should_find_missing_photos_from_one_friend() {
    let friend_collection =
        get_friend_collection(&["4u64", "5u64", "6u64"], &["1u64", "2u64", "3u64"]);
    let my_collection = get_my_collection(&["1u64", "2u64", "3u64"]);
    let date = DayKey::parse_from_str("2024-04-15", "%Y-%m-%d").unwrap();

    let missing_photos = find_missing_photos_for_day(&my_collection, &friend_collection, &date);

    assert!(missing_photos.get(&FriendName::new("Lev")).is_none());

    assert!(missing_photos.get(&FriendName::new("Denis")).is_some());
    assert!(missing_photos
        .get(&FriendName::new("Denis"))
        .unwrap()
        .contains(&PhotoId::new("4u64")));
    assert!(missing_photos
        .get(&FriendName::new("Denis"))
        .unwrap()
        .contains(&PhotoId::new("5u64")));
    assert!(missing_photos
        .get(&FriendName::new("Denis"))
        .unwrap()
        .contains(&PhotoId::new("6u64")))
}

#[test]
fn cli_should_not_find_missing_photos() {
    let friend_collection =
        get_friend_collection(&["1u64", "2u64", "3u64"], &["1u64", "2u64", "3u64"]);
    let my_collection = get_my_collection(&["1u64", "2u64", "3u64"]);
    let date = DayKey::parse_from_str("2024-04-15", "%Y-%m-%d").unwrap();

    let missing_photos = find_missing_photos_for_day(&my_collection, &friend_collection, &date);

    assert!(missing_photos.is_empty())
}

#[test]
fn cli_should_find_missing_photo_from_one_friend() {
    let friend_collection = get_friend_collection(&["1u64", "2u64", "4u64"], &[]);
    let my_collection = get_my_collection(&["1u64", "2u64", "3u64"]);
    let date = DayKey::parse_from_str("2024-04-15", "%Y-%m-%d").unwrap();

    let missing_photos = find_missing_photos_for_day(&my_collection, &friend_collection, &date);

    assert!(missing_photos.get(&FriendName::new("Lev")).is_none());
    assert!(missing_photos
        .get(&FriendName::new("Denis"))
        .unwrap()
        .contains(&PhotoId::new("4u64")));
}

#[test]
fn cli_should_not_contains_empty_element() {
    let friend_collection = get_friend_collection(&["1u64", "2u64", "3u64"], &["1u64"]);
    let my_collection = get_my_collection(&["1u64", "2u64"]);
    let date = DayKey::parse_from_str("2024-04-15", "%Y-%m-%d").unwrap();

    let missing_photos = find_missing_photos_for_day(&my_collection, &friend_collection, &date);

    assert!(missing_photos.get(&FriendName::new("Lev")).is_none());
    assert!(missing_photos
        .get(&FriendName::new("Denis"))
        .unwrap()
        .contains(&PhotoId::new("3u64")));
}
