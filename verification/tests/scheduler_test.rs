use youkebox::errors::ApiError;
use youkebox::player::{init_playlist_listener, loop_step, skip_video, start_playing, stop_playing, LoopAction, LoopState};
use youkebox::playlist::Playlist;
use youkebox::room::{NewRoom, Room};
use youkebox::store::Store;
use youkebox::supervisor::{handle_video_event, PlaybackStatus, Supervisor};
use youkebox::video::NewVideo;

fn room_with_queue(store: &mut Store, name: &str, durations: &[&str]) -> i64 {
    let room = Room::create(
        store,
        NewRoom { name: name.to_string(), description: None, is_public: true },
    )
    .unwrap();
    for (i, d) in durations.iter().enumerate() {
        store.add_video(NewVideo {
            video_id: format!("vid{}", i),
            title: format!("video {}", i),
            description: None,
            room_id: room.id,
            duration: d.to_string(),
            added_on: 0,
        });
    }
    room.id
}

#[test]
fn start_is_idempotent() {
    let mut sup = Supervisor::new();
    assert!(start_playing(&mut sup, 1));
    assert!(!start_playing(&mut sup, 1));
    assert_eq!(sup.status_of(1), Some(PlaybackStatus::Playing));
}

#[test]
fn initialize_starts_only_rooms_with_queued_items() {
    let mut store = Store::new();
    let mut sup = Supervisor::new();
    let busy = room_with_queue(&mut store, "busy", &["PT0M2S"]);
    let idle = room_with_queue(&mut store, "idle", &[]);
    let other = room_with_queue(&mut store, "other", &["PT0M3S"]);
    let launched = init_playlist_listener(&store, &mut sup);
    // Each room with queued items is launched exactly once; the idle one not
    // at all.
    assert_eq!(launched.len(), 2);
    assert!(launched.contains(&busy));
    assert!(launched.contains(&other));
    assert!(sup.contains(busy));
    assert!(sup.contains(other));
    assert!(!sup.contains(idle));
}

#[test]
fn queue_plays_through_in_order() {
    // Two items of two and three seconds; the loop is started through
    // non-empty-queue detection, plays the first item at once, finishes it
    // once its duration has elapsed, then starts the second, and idles when
    // the queue has drained.
    let mut store = Store::new();
    let mut sup = Supervisor::new();
    let room = room_with_queue(&mut store, "lobby", &["PT0M2S", "PT0M3S"]);
    let launched = init_playlist_listener(&store, &mut sup);
    assert_eq!(launched, vec![room]);

    let (state, action) = loop_step(&mut store, &mut sup, room, LoopState::FetchNext, 0);
    assert!(matches!(state, LoopState::Playing { .. }));
    assert_eq!(action, LoopAction::PollWait);

    // Mid-play: nothing has elapsed far enough yet.
    let (state, _) = loop_step(&mut store, &mut sup, room, state, 1);
    assert!(matches!(state, LoopState::Playing { .. }));

    // At two seconds the first item completes and is finalized.
    let (state, action) = loop_step(&mut store, &mut sup, room, state, 2);
    assert!(matches!(state, LoopState::Finalize { .. }));
    assert_eq!(action, LoopAction::Proceed);
    let (state, _) = loop_step(&mut store, &mut sup, room, state, 2);
    assert_eq!(state, LoopState::FetchNext);

    let first = &store.videos[0];
    assert!(first.played);
    assert_eq!(first.started_on, Some(0));

    // The second item starts at two seconds.
    let (state, _) = loop_step(&mut store, &mut sup, room, state, 2);
    assert_eq!(
        state,
        LoopState::Playing { video_id: 2, started_at: 2, duration_secs: 3 },
    );
    let second = &store.videos[1];
    assert!(!second.played);
    assert_eq!(second.started_on, Some(2));

    // At five seconds the second item completes too, and the loop idles.
    let (state, _) = loop_step(&mut store, &mut sup, room, state, 5);
    let (state, _) = loop_step(&mut store, &mut sup, room, state, 5);
    let (state, action) = loop_step(&mut store, &mut sup, room, state, 5);
    assert_eq!(state, LoopState::IdleRetry);
    assert_eq!(action, LoopAction::RetryWait);
    assert!(store.videos[1].played);
}

#[test]
fn zero_duration_item_completes_on_first_poll() {
    let mut store = Store::new();
    let mut sup = Supervisor::new();
    let room = room_with_queue(&mut store, "lobby", &["PT0S"]);
    sup.start(room);
    let (state, _) = loop_step(&mut store, &mut sup, room, LoopState::FetchNext, 7);
    let (state, _) = loop_step(&mut store, &mut sup, room, state, 7);
    assert!(matches!(state, LoopState::Finalize { .. }));
}

#[test]
fn skip_marks_item_played_before_its_time() {
    let mut store = Store::new();
    let mut sup = Supervisor::new();
    let room = room_with_queue(&mut store, "lobby", &["PT1H", "PT0M3S"]);
    sup.start(room);
    let (state, _) = loop_step(&mut store, &mut sup, room, LoopState::FetchNext, 0);

    // A second in, a client skips the hour-long item.
    skip_video(&mut sup, room).unwrap();
    let (state, _) = loop_step(&mut store, &mut sup, room, state, 1);
    assert!(matches!(state, LoopState::Finalize { .. }));
    // The skip re-armed the room as playing, so a later skip would work too.
    assert_eq!(sup.status_of(room), Some(PlaybackStatus::Playing));

    let (state, _) = loop_step(&mut store, &mut sup, room, state, 1);
    assert!(store.videos[0].played);

    // The next item begins with the very next fetch.
    let (state, _) = loop_step(&mut store, &mut sup, room, state, 1);
    assert_eq!(
        state,
        LoopState::Playing { video_id: 2, started_at: 1, duration_secs: 3 },
    );
}

#[test]
fn skip_on_room_without_loop_reports_invalid_room() {
    let mut sup = Supervisor::new();
    let r = skip_video(&mut sup, 123);
    assert_eq!(r.unwrap_err(), ApiError::InvalidRoom);
}

#[test]
fn stop_terminates_loop_without_marking_items() {
    let mut store = Store::new();
    let mut sup = Supervisor::new();
    let room = room_with_queue(&mut store, "lobby", &["PT0M2S", "PT0M3S"]);
    sup.start(room);
    let (state, _) = loop_step(&mut store, &mut sup, room, LoopState::FetchNext, 0);

    stop_playing(&mut sup, room);
    let (state, action) = loop_step(&mut store, &mut sup, room, state, 5);
    assert_eq!(state, LoopState::Terminated);
    assert_eq!(action, LoopAction::Exit);
    assert!(!store.videos[0].played);
    assert!(!store.videos[1].played);

    // Terminated stays terminated until a fresh start.
    let (state, _) = loop_step(&mut store, &mut sup, room, state, 9);
    assert_eq!(state, LoopState::Terminated);
}

#[test]
fn handle_video_event_distinguishes_play_and_skip() {
    assert!(handle_video_event(&PlaybackStatus::Playing));
    assert!(!handle_video_event(&PlaybackStatus::SkipRequested));
}

#[test]
fn playlist_of_empty_room_has_no_items_and_no_timestamp() {
    let mut store = Store::new();
    let room = room_with_queue(&mut store, "lobby", &[]);
    let playlist = Playlist::get(&store, room, 100).unwrap();
    assert!(playlist.videos.is_empty());
    assert_eq!(playlist.timestamp, None);
}

#[test]
fn playlist_reports_elapsed_seconds_of_current_item() {
    let mut store = Store::new();
    let mut sup = Supervisor::new();
    let room = room_with_queue(&mut store, "lobby", &["PT1H"]);
    sup.start(room);
    // The item starts at 50; a status query at 60 sees ten seconds elapsed.
    loop_step(&mut store, &mut sup, room, LoopState::FetchNext, 50);
    let playlist = Playlist::get(&store, room, 60).unwrap();
    assert_eq!(playlist.videos.len(), 1);
    assert_eq!(playlist.timestamp, Some(10));
}

#[test]
fn playlist_omits_timestamp_before_item_starts() {
    let mut store = Store::new();
    let room = room_with_queue(&mut store, "lobby", &["PT1H"]);
    let playlist = Playlist::get(&store, room, 60).unwrap();
    assert_eq!(playlist.videos.len(), 1);
    assert_eq!(playlist.timestamp, None);
}

#[test]
fn playlist_of_unknown_room_is_not_found() {
    let store = Store::new();
    assert_eq!(Playlist::get(&store, 42, 0).unwrap_err(), ApiError::NotFound);
}

#[test]
fn playlist_is_empty_tracks_unplayed_items() {
    let mut store = Store::new();
    let room_id = room_with_queue(&mut store, "lobby", &["PT0M2S"]);
    let room = Room::find(&store, room_id).unwrap();
    assert!(!Playlist::is_empty(&store, &room));
    let empty_id = room_with_queue(&mut store, "quiet", &[]);
    let empty = Room::find(&store, empty_id).unwrap();
    assert!(Playlist::is_empty(&store, &empty));
}
