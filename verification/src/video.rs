//! Queue items: one playable entry in a room's queue.

use vstd::prelude::*;

verus! {

/// One entry of a room's queue. Timestamps are whole seconds of wall-clock
/// time as the caller measures it (seconds since the epoch in practice).
#[derive(Debug)]
pub struct Video {
    pub id: i64,
    pub video_id: String,
    pub title: String,
    pub description: Option<String>,
    pub room_id: i64,
    pub duration: String,
    pub played: bool,
    pub added_on: u64,
    pub started_on: Option<u64>,
}

/// A queue entry as handed in by a caller, before the store assigns its id.
#[derive(Debug)]
pub struct NewVideo {
    pub video_id: String,
    pub title: String,
    pub description: Option<String>,
    pub room_id: i64,
    pub duration: String,
    pub added_on: u64,
}

/// A copy of an optional string, equal to the original.
pub fn clone_opt_string(s: &Option<String>) -> (r: Option<String>)
    ensures
        r == *s,
{
    match s {
        Some(inner) => Some(inner.clone()),
        None => None,
    }
}

impl Video {
    /// A copy of this queue entry, equal to the original.
    pub fn clone_video(&self) -> (r: Video)
        ensures
            r == *self,
    {
        Video {
            id: self.id,
            video_id: self.video_id.clone(),
            title: self.title.clone(),
            description: clone_opt_string(&self.description),
            room_id: self.room_id,
            duration: self.duration.clone(),
            played: self.played,
            added_on: self.added_on,
            started_on: self.started_on,
        }
    }
}

} // verus!
