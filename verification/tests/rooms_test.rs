use youkebox::errors::ApiError;
use youkebox::room::{NewRoom, Room, SearchRoom};
use youkebox::store::Store;
use youkebox::supervisor::Supervisor;

fn new_room(name: &str) -> NewRoom {
    NewRoom { name: name.to_string(), description: None, is_public: true }
}

#[test]
fn create_room_with_valid_name() {
    let mut store = Store::new();
    let room = Room::create(&mut store, new_room("lobby")).unwrap();
    assert_eq!(room.id, 1);
    assert_eq!(room.name, "lobby");
    assert!(room.is_public);
}

#[test]
fn create_room_rejects_short_name() {
    let mut store = Store::new();
    let r = Room::create(&mut store, new_room("ab"));
    assert_eq!(r.unwrap_err(), ApiError::BadRequest);
}

#[test]
fn create_room_rejects_long_name() {
    let mut store = Store::new();
    let r = Room::create(&mut store, new_room("abcdefghijklmnopqrstu"));
    assert_eq!(r.unwrap_err(), ApiError::BadRequest);
}

#[test]
fn create_room_rejects_punctuation() {
    let mut store = Store::new();
    let r = Room::create(&mut store, new_room("bad name!"));
    assert_eq!(r.unwrap_err(), ApiError::BadRequest);
}

#[test]
fn create_room_accepts_word_characters() {
    let mut store = Store::new();
    assert!(Room::create(&mut store, new_room("Room_42")).is_ok());
}

#[test]
fn create_room_refuses_duplicate_name() {
    let mut store = Store::new();
    Room::create(&mut store, new_room("lobby")).unwrap();
    let r = Room::create(&mut store, new_room("lobby"));
    assert_eq!(r.unwrap_err(), ApiError::Conflict);
}

#[test]
fn find_returns_the_room() {
    let mut store = Store::new();
    let created = Room::create(&mut store, new_room("lobby")).unwrap();
    let found = Room::find(&store, created.id).unwrap();
    assert_eq!(found.name, "lobby");
    assert!(Room::find(&store, 999).is_none());
}

#[test]
fn update_renames_a_room() {
    let mut store = Store::new();
    let mut room = Room::create(&mut store, new_room("lobby")).unwrap();
    room.name = "parlor".to_string();
    let updated = Room::update(&mut store, &room).unwrap();
    assert_eq!(updated.name, "parlor");
    assert_eq!(Room::find(&store, room.id).unwrap().name, "parlor");
}

#[test]
fn update_rejects_bad_name() {
    let mut store = Store::new();
    let mut room = Room::create(&mut store, new_room("lobby")).unwrap();
    room.name = "x".to_string();
    assert_eq!(Room::update(&mut store, &room).unwrap_err(), ApiError::BadRequest);
}

#[test]
fn update_of_unknown_room_is_not_found() {
    let mut store = Store::new();
    let room = Room { id: 7, name: "lobby".to_string(), description: None, is_public: true };
    assert_eq!(Room::update(&mut store, &room).unwrap_err(), ApiError::NotFound);
}

#[test]
fn update_refuses_name_taken_by_another_room() {
    let mut store = Store::new();
    Room::create(&mut store, new_room("lobby")).unwrap();
    let mut second = Room::create(&mut store, new_room("parlor")).unwrap();
    second.name = "lobby".to_string();
    assert_eq!(Room::update(&mut store, &second).unwrap_err(), ApiError::Conflict);
}

#[test]
fn delete_removes_room_and_stops_its_loop() {
    let mut store = Store::new();
    let mut sup = Supervisor::new();
    let room = Room::create(&mut store, new_room("lobby")).unwrap();
    sup.start(room.id);
    assert!(sup.contains(room.id));
    Room::delete(&mut store, &mut sup, room.id).unwrap();
    assert!(Room::find(&store, room.id).is_none());
    assert!(!sup.contains(room.id));
    // Deleting again is a quiet success.
    Room::delete(&mut store, &mut sup, room.id).unwrap();
}

#[test]
fn all_without_query_lists_rooms_in_creation_order() {
    let mut store = Store::new();
    Room::create(&mut store, new_room("zebra")).unwrap();
    Room::create(&mut store, new_room("aardvark")).unwrap();
    let rooms = Room::all(&store, None).unwrap();
    let names: Vec<String> = rooms.iter().map(|r| r.name.clone()).collect();
    assert_eq!(names, vec!["zebra".to_string(), "aardvark".to_string()]);
}

#[test]
fn all_with_query_filters_case_insensitively_and_sorts_descending() {
    let mut store = Store::new();
    Room::create(&mut store, new_room("Alpha_Lounge")).unwrap();
    Room::create(&mut store, new_room("beta_lounge")).unwrap();
    Room::create(&mut store, new_room("garage")).unwrap();
    let search = SearchRoom { name: "LOUNGE".to_string() };
    let rooms = Room::all(&store, Some(search.name)).unwrap();
    let names: Vec<String> = rooms.iter().map(|r| r.name.clone()).collect();
    assert_eq!(names, vec!["beta_lounge".to_string(), "Alpha_Lounge".to_string()]);
}

#[test]
fn all_with_unmatched_query_is_empty() {
    let mut store = Store::new();
    Room::create(&mut store, new_room("garage")).unwrap();
    let rooms = Room::all(&store, Some("cellar".to_string())).unwrap();
    assert!(rooms.is_empty());
}
