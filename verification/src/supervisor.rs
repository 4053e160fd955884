//! The playback supervisor: the one shared, mutable piece of coordination
//! state, a map from room id to playback status.
//!
//! Every active playback loop polls its own entry each tick; the API layer
//! inserts, flips and removes entries. The caller serializes access (one lock
//! around the supervisor); the operations here are the short critical
//! sections, and none of them does any storage work.

use vstd::prelude::*;
use std::collections::HashMap;
use crate::errors::ApiError;

verus! {

broadcast use vstd::std_specs::hash::group_hash_axioms;

/// The live status of a room's playback loop.
#[derive(Clone, Copy, Debug, PartialEq, Eq, Structural)]
pub enum PlaybackStatus {
    /// The loop is playing (or about to fetch) an item.
    Playing,
    /// A client asked to end the current item early.
    SkipRequested,
}

/// What `start` does to the status map: an existing entry is left alone and
/// no loop is launched; otherwise the room is entered as playing and a new
/// loop must be launched.
pub open spec fn start_spec(m: Map<i64, PlaybackStatus>, room_id: i64) -> (
    Map<i64, PlaybackStatus>,
    bool,
) {
    if m.contains_key(room_id) {
        (m, false)
    } else {
        (m.insert(room_id, PlaybackStatus::Playing), true)
    }
}

/// The room-to-status map. One instance is shared (behind a lock) by the API
/// layer and every playback loop.
pub struct Supervisor {
    pub statuses: HashMap<i64, PlaybackStatus>,
}

impl Supervisor {
    /// A supervisor with no active loops.
    pub fn new() -> (r: Supervisor)
        ensures
            r.statuses@ =~= Map::<i64, PlaybackStatus>::empty(),
    {
        Supervisor { statuses: HashMap::new() }
    }

    /// Whether the room currently has a playback loop entry.
    pub fn contains(&self, room_id: i64) -> (r: bool)
        ensures
            r == self.statuses@.contains_key(room_id),
    {
        self.statuses.contains_key(&room_id)
    }

    /// The room's status, if it has an entry.
    pub fn status_of(&self, room_id: i64) -> (r: Option<PlaybackStatus>)
        ensures
            match r {
                Some(st) => self.statuses@.contains_key(room_id) && self.statuses@[room_id] == st,
                None => !self.statuses@.contains_key(room_id),
            },
    {
        match self.statuses.get(&room_id) {
            Some(st) => Some(*st),
            None => None,
        }
    }

    /// Starts playback for a room: a no-op when an entry already exists, so a
    /// second `start` never launches a second loop. Returns whether the caller
    /// must launch a playback loop for the room.
    pub fn start(&mut self, room_id: i64) -> (launch: bool)
        ensures
            (final(self).statuses@, launch) == start_spec(old(self).statuses@, room_id),
            launch == !old(self).statuses@.contains_key(room_id),
    {
        if self.statuses.contains_key(&room_id) {
            false
        } else {
            self.statuses.insert(room_id, PlaybackStatus::Playing);
            true
        }
    }

    /// Stops playback for a room by removing its entry; the room's loop
    /// observes the absence at its next poll and terminates.
    pub fn stop(&mut self, room_id: i64)
        ensures
            final(self).statuses@ == old(self).statuses@.remove(room_id),
    {
        self.statuses.remove(&room_id);
    }

    /// Requests that the room's current item be ended early. A room without
    /// an active entry is reported back as invalid, never a fault.
    pub fn skip(&mut self, room_id: i64) -> (r: Result<(), ApiError>)
        ensures
            match r {
                Ok(()) => {
                    &&& old(self).statuses@.contains_key(room_id)
                    &&& final(self).statuses@ == old(self).statuses@.insert(
                        room_id,
                        PlaybackStatus::SkipRequested,
                    )
                },
                Err(e) => {
                    &&& e == ApiError::InvalidRoom
                    &&& !old(self).statuses@.contains_key(room_id)
                    &&& final(self).statuses@ == old(self).statuses@
                },
            },
    {
        if self.statuses.contains_key(&room_id) {
            self.statuses.insert(room_id, PlaybackStatus::SkipRequested);
            Ok(())
        } else {
            Err(ApiError::InvalidRoom)
        }
    }

    /// Re-arms the room's entry as playing; the loop uses this when it picks
    /// up a new item and after it honoured a skip.
    pub fn set_playing(&mut self, room_id: i64)
        ensures
            final(self).statuses@ == old(self).statuses@.insert(room_id, PlaybackStatus::Playing),
    {
        self.statuses.insert(room_id, PlaybackStatus::Playing);
    }
}

/// Translates a status into the loop's wait decision: keep waiting while the
/// room is playing, stop waiting when a skip was requested.
pub fn handle_video_event(status: &PlaybackStatus) -> (r: bool)
    ensures
        r == (*status == PlaybackStatus::Playing),
{
    match *status {
        PlaybackStatus::Playing => true,
        PlaybackStatus::SkipRequested => false,
    }
}

/// At any instant at most one playback loop exists per room: once a room has
/// an entry, a further `start` leaves the map unchanged and launches nothing,
/// and the first `start` is the only one that launches.
pub proof fn lemma_start_idempotent(m: Map<i64, PlaybackStatus>, room_id: i64)
    ensures
        ({
            let (m1, launched1) = start_spec(m, room_id);
            let (m2, launched2) = start_spec(m1, room_id);
            &&& launched1 == !m.contains_key(room_id)
            &&& !launched2
            &&& m2 == m1
            &&& m1.contains_key(room_id)
        }),
{
    let (m1, launched1) = start_spec(m, room_id);
    assert(m1.contains_key(room_id));
}

} // verus!
