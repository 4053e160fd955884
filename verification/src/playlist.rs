//! The playlist view: what a status query reports about a room, computed
//! from the store at the caller's clock reading.

use vstd::prelude::*;
use crate::errors::ApiError;
use crate::room::Room;
use crate::store::{Store, has_room, unplayed_of};
use crate::video::Video;

verus! {

/// The externally visible playlist of a room: the unplayed items in enqueue
/// order, and, when the first of them has already started, the seconds it has
/// been playing.
#[derive(Debug)]
pub struct Playlist {
    pub videos: Vec<Video>,
    pub timestamp: Option<u64>,
}

/// The elapsed seconds reported for a playlist: seconds since the first
/// item's started timestamp, and nothing when the list is empty, the first
/// item has not started, or the clock reads earlier than the start (skew).
pub open spec fn timestamp_of(videos: Seq<Video>, now: u64) -> Option<u64> {
    if videos.len() == 0 {
        None
    } else {
        match videos[0].started_on {
            Some(st) => if st <= now {
                Some((now - st) as u64)
            } else {
                None
            },
            None => None,
        }
    }
}

/// The elapsed seconds of the first entry of `playlist` at clock reading
/// `now`, if the first entry has started and the clock has not run backwards.
fn get_timestamp(playlist: &Vec<Video>, now: u64) -> (r: Option<u64>)
    ensures
        r == timestamp_of(playlist@, now),
{
    if playlist.len() == 0 {
        return None;
    }
    let first = &playlist[0];
    match first.started_on {
        Some(st) => {
            if st <= now {
                Some(now - st)
            } else {
                None
            }
        },
        None => None,
    }
}

impl Playlist {
    /// The playlist of room `r_id` at clock reading `now`: its unplayed items
    /// in enqueue order plus the elapsed seconds of the current item, or a
    /// not-found error for an unknown room.
    pub fn get(store: &Store, r_id: i64, now: u64) -> (r: Result<Playlist, ApiError>)
        requires
            store.wf(),
        ensures
            match r {
                Ok(p) => {
                    &&& has_room(store.rooms@, r_id)
                    &&& p.videos@ == unplayed_of(store.videos@, r_id)
                    &&& p.timestamp == timestamp_of(unplayed_of(store.videos@, r_id), now)
                },
                Err(e) => {
                    &&& e == ApiError::NotFound
                    &&& !has_room(store.rooms@, r_id)
                },
            },
    {
        let room = Room::find(store, r_id);
        if room.is_none() {
            return Err(ApiError::NotFound);
        }
        let videos = store.list_unplayed(r_id);
        let timestamp = get_timestamp(&videos, now);
        Ok(Playlist { videos, timestamp })
    }

    /// Whether the room's queue holds no unplayed item; used at start-up to
    /// decide which rooms need a playback loop at all.
    pub fn is_empty(store: &Store, room: &Room) -> (r: bool)
        ensures
            r == (unplayed_of(store.videos@, room.id).len() == 0),
    {
        store.queue_is_empty(room.id)
    }
}

} // verus!
