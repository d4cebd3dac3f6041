use cc_matrix_channel::rooms::{load, save, store_path, KnownRooms, RoomMemoryFile};

fn memory(rooms: &[&str], last_active: Option<&str>) -> RoomMemoryFile {
    RoomMemoryFile {
        rooms: rooms.iter().map(|r| r.to_string()).collect(),
        last_active: last_active.map(|r| r.to_string()),
    }
}

fn names(known: &KnownRooms) -> Vec<String> {
    let mut rooms = save(known).rooms;
    rooms.sort();
    rooms
}

#[test]
fn round_trips_rooms_and_last_active() {
    let mut known = load(None);
    known.hear_from("!a:example.com");
    known.hear_from("!b:example.com");
    let loaded = load(Some(save(&known)));
    assert_eq!(names(&loaded), vec!["!a:example.com", "!b:example.com"]);
    assert_eq!(save(&loaded).last_active.as_deref(), Some("!b:example.com"));
}

#[test]
fn survives_a_simulated_restart() {
    let mut known = load(None);
    known.hear_from("!dm:example.com");
    let loaded = load(Some(save(&known)));
    assert!(loaded.contains("!dm:example.com"));
    assert_eq!(loaded.target_room().as_deref(), Some("!dm:example.com"));
}

#[test]
fn missing_file_is_empty_not_an_error() {
    let known = load(None);
    assert!(known.is_empty());
    assert!(save(&known).last_active.is_none());
}

#[test]
fn corrupt_file_degrades_to_empty() {
    let readable = serde_json::from_str::<serde_json::Value>("{ not json").is_ok();
    assert!(!readable);
    let known = load(None);
    assert!(known.is_empty());
    assert!(known.target_room().is_none());
}

#[test]
fn last_active_must_be_a_known_room() {
    let known = load(Some(memory(&["!a:example.com"], Some("!gone:example.com"))));
    assert_eq!(names(&known).len(), 1);
    assert_eq!(save(&known).last_active, None);
}

#[test]
fn unparseable_room_ids_are_skipped() {
    let known = load(Some(memory(&["!good:example.com", "not-a-room-id"], None)));
    assert_eq!(names(&known).len(), 1);
    assert!(known.contains("!good:example.com"));
}

#[test]
fn repeated_rooms_are_held_once() {
    let known = load(Some(memory(&["!a:x", "!a:x", "!b:x"], Some("!a:x"))));
    assert_eq!(names(&known), vec!["!a:x", "!b:x"]);
}

#[test]
fn news_is_worth_writing_down() {
    let mut known = load(None);
    assert!(known.hear_from("!a:x"));
    assert!(!known.hear_from("!a:x"));
    assert!(known.hear_from("!b:x"));
    assert!(known.hear_from("!a:x"));
    assert_eq!(known.target_room().as_deref(), Some("!a:x"));
}

#[test]
fn status_goes_to_some_known_room_without_a_last_active_one() {
    let known = load(Some(memory(&["!a:x", "!b:x"], None)));
    let target = known.target_room().unwrap();
    assert!(known.contains(&target));
    assert!(load(None).target_room().is_none());
}

#[test]
fn rooms_are_remembered_below_the_home_directory() {
    assert_eq!(
        store_path(Some("/home/u"), "Hal"),
        "/home/u/.hal/channels/matrix/known_rooms.json"
    );
    assert_eq!(store_path(None, "Hal"), "./.hal/channels/matrix/known_rooms.json");
}
