//! The per-room playback loop: a state machine that fetches the oldest
//! unplayed queue item, waits out its duration (or a skip), marks it played,
//! and repeats until the supervisor drops the room.
//!
//! The loop itself never sleeps or reads a clock: the caller passes the
//! current time (whole seconds) into every step and performs the wait each
//! returned action asks for — a short poll while playing, a longer backoff
//! while the queue is empty. One step is one poll tick.

use vstd::prelude::*;
use crate::duration::{duration_to_seconds, duration_value};
use crate::errors::ApiError;
use crate::playlist::Playlist;
use crate::store::{
    Store, has_room, has_video, is_first_unplayed_at, unplayed_of, video_index_of, with_played,
    with_started,
};
use crate::supervisor::{PlaybackStatus, Supervisor, handle_video_event};
use crate::video::Video;

verus! {

/// The state of one room's playback loop.
#[derive(Clone, Copy, Debug, PartialEq, Eq, Structural)]
pub enum LoopState {
    /// Look for the oldest unplayed queue item.
    FetchNext,
    /// Wait until the item's duration has elapsed or a skip arrives.
    Playing { video_id: i64, started_at: u64, duration_secs: u64 },
    /// Mark the current item played.
    Finalize { video_id: i64 },
    /// The queue was empty; wait a backoff and look again.
    IdleRetry,
    /// The loop has ended; a fresh `start` is needed to play this room again.
    Terminated,
}

/// The wait the caller performs before the next step.
#[derive(Clone, Copy, Debug, PartialEq, Eq, Structural)]
pub enum LoopAction {
    /// Take the next step at once.
    Proceed,
    /// Sleep one short poll interval (a quarter second) first.
    PollWait,
    /// Sleep one idle backoff (a second) first.
    RetryWait,
    /// The loop is over; do not step again.
    Exit,
}

/// The wait that belongs to each state the loop can be left in.
pub open spec fn action_for(state: LoopState) -> LoopAction {
    match state {
        LoopState::FetchNext => LoopAction::Proceed,
        LoopState::Playing { .. } => LoopAction::PollWait,
        LoopState::Finalize { .. } => LoopAction::Proceed,
        LoopState::IdleRetry => LoopAction::RetryWait,
        LoopState::Terminated => LoopAction::Exit,
    }
}

/// One step of the playback loop, on the mathematical model: from the queue
/// items, the status map and the loop state at clock reading `now` to the
/// three after the step.
///
/// A missing supervisor entry terminates the loop from every state without
/// touching the store. Fetching starts the head unplayed item and re-arms the
/// status as playing; a skip request ends the wait early and re-arms the
/// status; finalizing marks the current item played.
pub open spec fn spec_step(
    videos: Seq<Video>,
    statuses: Map<i64, PlaybackStatus>,
    room_id: i64,
    state: LoopState,
    now: u64,
) -> (Seq<Video>, Map<i64, PlaybackStatus>, LoopState) {
    match state {
        LoopState::FetchNext => {
            if !statuses.contains_key(room_id) {
                (videos, statuses, LoopState::Terminated)
            } else if unplayed_of(videos, room_id).len() == 0 {
                (videos, statuses, LoopState::IdleRetry)
            } else {
                let v = unplayed_of(videos, room_id)[0];
                let idx = video_index_of(videos, v.id);
                (
                    videos.update(idx, with_started(videos[idx], now)),
                    statuses.insert(room_id, PlaybackStatus::Playing),
                    LoopState::Playing {
                        video_id: v.id,
                        started_at: now,
                        duration_secs: duration_value(v.duration@) as u64,
                    },
                )
            }
        },
        LoopState::Playing { video_id, started_at, duration_secs } => {
            if !statuses.contains_key(room_id) {
                (videos, statuses, LoopState::Terminated)
            } else if statuses[room_id] == PlaybackStatus::SkipRequested {
                (
                    videos,
                    statuses.insert(room_id, PlaybackStatus::Playing),
                    LoopState::Finalize { video_id },
                )
            } else if started_at + duration_secs <= now {
                (videos, statuses, LoopState::Finalize { video_id })
            } else {
                (videos, statuses, state)
            }
        },
        LoopState::Finalize { video_id } => {
            if has_video(videos, video_id) {
                let idx = video_index_of(videos, video_id);
                (videos.update(idx, with_played(videos[idx])), statuses, LoopState::FetchNext)
            } else {
                (videos, statuses, LoopState::FetchNext)
            }
        },
        LoopState::IdleRetry => {
            if !statuses.contains_key(room_id) {
                (videos, statuses, LoopState::Terminated)
            } else {
                (videos, statuses, LoopState::FetchNext)
            }
        },
        LoopState::Terminated => (videos, statuses, LoopState::Terminated),
    }
}

/// One step of the playback loop for `room_id` at clock reading `now`: the
/// exec counterpart of [`spec_step`], returning the next state and the wait
/// the caller owes before stepping again.
pub fn loop_step(
    store: &mut Store,
    sup: &mut Supervisor,
    room_id: i64,
    state: LoopState,
    now: u64,
) -> (r: (LoopState, LoopAction))
    requires
        old(store).wf(),
    ensures
        final(store).wf(),
        final(store).rooms@ == old(store).rooms@,
        final(store).next_room_id == old(store).next_room_id,
        final(store).next_video_id == old(store).next_video_id,
        (final(store).videos@, final(sup).statuses@, r.0) == spec_step(
            old(store).videos@,
            old(sup).statuses@,
            room_id,
            state,
            now,
        ),
        r.1 == action_for(r.0),
{
    match state {
        LoopState::FetchNext => {
            if !sup.contains(room_id) {
                return (LoopState::Terminated, LoopAction::Exit);
            }
            match store.find_next_unplayed(room_id) {
                None => (LoopState::IdleRetry, LoopAction::RetryWait),
                Some(v) => {
                    proof {
                        let idx = choose|idx: int|
                            is_first_unplayed_at(store.videos@, room_id, idx)
                                && #[trigger] store.videos@[idx] == v;
                        assert(store.videos@[idx].id == v.id);
                        assert(has_video(store.videos@, v.id));
                    }
                    let secs = match duration_to_seconds(v.duration.as_str()) {
                        Ok(secs) => secs,
                        Err(_) => {
                            // Unreachable: every stored duration fits.
                            proof {
                                assert(false);
                            }
                            0
                        },
                    };
                    let marked = store.mark_started(v.id, now);
                    proof {
                        assert(marked is Ok);
                    }
                    sup.set_playing(room_id);
                    (
                        LoopState::Playing {
                            video_id: v.id,
                            started_at: now,
                            duration_secs: secs,
                        },
                        LoopAction::PollWait,
                    )
                },
            }
        },
        LoopState::Playing { video_id, started_at, duration_secs } => {
            match sup.status_of(room_id) {
                None => (LoopState::Terminated, LoopAction::Exit),
                Some(status) => {
                    if !handle_video_event(&status) {
                        sup.set_playing(room_id);
                        (LoopState::Finalize { video_id }, LoopAction::Proceed)
                    } else {
                        let elapsed_out = match started_at.checked_add(duration_secs) {
                            Some(deadline) => deadline <= now,
                            None => false,
                        };
                        if elapsed_out {
                            (LoopState::Finalize { video_id }, LoopAction::Proceed)
                        } else {
                            (state, LoopAction::PollWait)
                        }
                    }
                },
            }
        },
        LoopState::Finalize { video_id } => {
            let marked = store.mark_played(video_id);
            proof {
                if has_video(old(store).videos@, video_id) {
                    assert(marked is Ok);
                } else {
                    assert(marked is Err);
                }
            }
            (LoopState::FetchNext, LoopAction::Proceed)
        },
        LoopState::IdleRetry => {
            if sup.contains(room_id) {
                (LoopState::FetchNext, LoopAction::Proceed)
            } else {
                (LoopState::Terminated, LoopAction::Exit)
            }
        },
        LoopState::Terminated => (LoopState::Terminated, LoopAction::Exit),
    }
}

/// Enters the room into the status map as playing unless it already has an
/// entry; reports whether the caller must launch a playback loop task.
pub fn start_playing(sup: &mut Supervisor, room_id: i64) -> (launch: bool)
    ensures
        (final(sup).statuses@, launch) == crate::supervisor::start_spec(
            old(sup).statuses@,
            room_id,
        ),
        launch == !old(sup).statuses@.contains_key(room_id),
{
    sup.start(room_id)
}

/// Removes the room's entry; its loop terminates at the next poll.
pub fn stop_playing(sup: &mut Supervisor, room_id: i64)
    ensures
        final(sup).statuses@ == old(sup).statuses@.remove(room_id),
{
    sup.stop(room_id)
}

/// Asks the room's loop to end the current item early; a room without an
/// active loop is reported back as invalid.
pub fn skip_video(sup: &mut Supervisor, room_id: i64) -> (r: Result<(), ApiError>)
    ensures
        match r {
            Ok(()) => {
                &&& old(sup).statuses@.contains_key(room_id)
                &&& final(sup).statuses@ == old(sup).statuses@.insert(
                    room_id,
                    PlaybackStatus::SkipRequested,
                )
            },
            Err(e) => {
                &&& e == ApiError::InvalidRoom
                &&& !old(sup).statuses@.contains_key(room_id)
                &&& final(sup).statuses@ == old(sup).statuses@
            },
        },
{
    sup.skip(room_id)
}

/// Whether a room with this id stands before position `n` and has unplayed
/// queue items.
pub open spec fn room_with_queue_before(
    rooms: Seq<crate::room::Room>,
    videos: Seq<Video>,
    id: i64,
    n: int,
) -> bool {
    exists|j: int|
        0 <= j < n && #[trigger] rooms[j].id == id && unplayed_of(videos, id).len() > 0
}

/// Walks every room at start-up and enters each room with a non-empty queue
/// into the status map; returns the ids of the rooms whose loop the caller
/// must now launch. Rooms that already have an entry keep it untouched.
pub fn init_playlist_listener(store: &Store, sup: &mut Supervisor) -> (launched: Vec<i64>)
    requires
        store.wf(),
    ensures
        forall|id: i64|
            #[trigger] final(sup).statuses@.contains_key(id) <==> (old(
                sup,
            ).statuses@.contains_key(id) || (has_room(store.rooms@, id) && unplayed_of(
                store.videos@,
                id,
            ).len() > 0)),
        forall|id: i64|
            old(sup).statuses@.contains_key(id) ==> #[trigger] final(sup).statuses@[id] == old(
                sup,
            ).statuses@[id],
        forall|id: i64|
            !old(sup).statuses@.contains_key(id) && #[trigger] final(sup).statuses@.contains_key(
                id,
            ) ==> final(sup).statuses@[id] == PlaybackStatus::Playing,
        forall|k: int|
            0 <= k < launched@.len() ==> has_room(store.rooms@, #[trigger] launched@[k])
                && unplayed_of(store.videos@, launched@[k]).len() > 0 && !old(
                sup,
            ).statuses@.contains_key(launched@[k]),
        forall|id: i64|
            has_room(store.rooms@, id) && unplayed_of(store.videos@, id).len() > 0 && !old(
                sup,
            ).statuses@.contains_key(id) ==> launched@.contains(id),
        forall|k1: int, k2: int|
            0 <= k1 < k2 < launched@.len() ==> #[trigger] launched@[k1] != #[trigger] launched@[k2],
{
    let ghost rs = store.rooms@;
    let ghost vs = store.videos@;
    let ghost m0 = sup.statuses@;
    let mut launched: Vec<i64> = Vec::new();
    let n = store.rooms.len();
    let mut i: usize = 0;
    while i < n
        invariant
            store.wf(),
            rs == store.rooms@,
            vs == store.videos@,
            m0 == old(sup).statuses@,
            n == rs.len(),
            i <= n,
            forall|id: i64|
                #[trigger] sup.statuses@.contains_key(id) <==> (m0.contains_key(id)
                    || room_with_queue_before(rs, vs, id, i as int)),
            forall|id: i64|
                m0.contains_key(id) ==> #[trigger] sup.statuses@[id] == m0[id],
            forall|id: i64|
                !m0.contains_key(id) && #[trigger] sup.statuses@.contains_key(id)
                    ==> sup.statuses@[id] == PlaybackStatus::Playing,
            forall|k: int|
                0 <= k < launched@.len() ==> has_room(rs, #[trigger] launched@[k]) && unplayed_of(
                    vs,
                    launched@[k],
                ).len() > 0 && !m0.contains_key(launched@[k]),
            forall|id: i64|
                room_with_queue_before(rs, vs, id, i as int) && !m0.contains_key(id)
                    ==> launched@.contains(id),
            forall|k: int|
                0 <= k < launched@.len() ==> sup.statuses@.contains_key(#[trigger] launched@[k]),
            forall|k1: int, k2: int|
                0 <= k1 < k2 < launched@.len() ==> #[trigger] launched@[k1]
                    != #[trigger] launched@[k2],
        decreases n - i,
    {
        let room = &store.rooms[i];
        let ghost pre = sup.statuses@;
        let ghost pre_launched = launched@;
        if !Playlist::is_empty(store, room) {
            let must_launch = sup.start(room.id);
            if must_launch {
                launched.push(room.id);
            }
            proof {
                assert(rs[i as int].id == room.id);
                assert(room_with_queue_before(rs, vs, room.id, i as int + 1));
                assert(has_room(rs, room.id));
            }
        }
        proof {
            assert forall|id: i64| #[trigger] sup.statuses@.contains_key(id) implies (
            m0.contains_key(id) || room_with_queue_before(rs, vs, id, i as int + 1)) by {
                if !pre.contains_key(id) && sup.statuses@.contains_key(id) {
                    assert(id == rs[i as int].id);
                } else if pre.contains_key(id) && !m0.contains_key(id) {
                    assert(room_with_queue_before(rs, vs, id, i as int));
                    let j = choose|j: int|
                        0 <= j < i as int && #[trigger] rs[j].id == id && unplayed_of(
                            vs,
                            id,
                        ).len() > 0;
                    assert(room_with_queue_before(rs, vs, id, i as int + 1));
                }
            }
            assert forall|id: i64| (m0.contains_key(id) || room_with_queue_before(
                rs,
                vs,
                id,
                i as int + 1,
            )) implies #[trigger] sup.statuses@.contains_key(id) by {
                if !m0.contains_key(id) {
                    let j = choose|j: int|
                        0 <= j < i as int + 1 && #[trigger] rs[j].id == id && unplayed_of(
                            vs,
                            id,
                        ).len() > 0;
                    if j < i as int {
                        assert(room_with_queue_before(rs, vs, id, i as int));
                    }
                }
            }
            assert forall|id: i64| room_with_queue_before(rs, vs, id, i as int + 1)
                && !m0.contains_key(id) implies launched@.contains(id) by {
                let j = choose|j: int|
                    0 <= j < i as int + 1 && #[trigger] rs[j].id == id && unplayed_of(
                        vs,
                        id,
                    ).len() > 0;
                if j < i as int {
                    assert(room_with_queue_before(rs, vs, id, i as int));
                    assert(pre_launched.contains(id));
                    let k = choose|k: int| 0 <= k < pre_launched.len() && pre_launched[k] == id;
                    assert(launched@[k] == id);
                } else {
                    if !pre.contains_key(id) {
                        assert(launched@[launched@.len() - 1] == id);
                    } else {
                        assert(room_with_queue_before(rs, vs, id, i as int));
                        assert(pre_launched.contains(id));
                        let k = choose|k: int|
                            0 <= k < pre_launched.len() && pre_launched[k] == id;
                        assert(launched@[k] == id);
                    }
                }
            }
            assert forall|k: int| 0 <= k < launched@.len() implies sup.statuses@.contains_key(
                #[trigger] launched@[k],
            ) by {
                if k < pre_launched.len() {
                    assert(pre.contains_key(pre_launched[k]));
                }
            }
            assert forall|k1: int, k2: int| 0 <= k1 < k2 < launched@.len() implies #[trigger] launched@[k1]
                != #[trigger] launched@[k2] by {
                if k2 >= pre_launched.len() {
                    // A fresh push: its id was absent from the map, while every
                    // earlier entry was already in it.
                    assert(launched@[k1] == pre_launched[k1]);
                    assert(pre.contains_key(pre_launched[k1]));
                    assert(!pre.contains_key(launched@[k2]));
                }
            }
        }
        i = i + 1;
    }
    proof {
        assert forall|id: i64| has_room(store.rooms@, id) && unplayed_of(
            store.videos@,
            id,
        ).len() > 0 && !m0.contains_key(id) implies launched@.contains(id) by {
            let j = choose|j: int| 0 <= j < rs.len() && rs[j].id == id;
            assert(rs[j].id == id && unplayed_of(vs, id).len() > 0);
            assert(room_with_queue_before(rs, vs, id, n as int));
        }
        assert forall|id: i64| #[trigger] sup.statuses@.contains_key(id) implies (
        m0.contains_key(id) || (has_room(store.rooms@, id) && unplayed_of(
            store.videos@,
            id,
        ).len() > 0)) by {
            if !m0.contains_key(id) {
                assert(room_with_queue_before(rs, vs, id, n as int));
                let j = choose|j: int|
                    0 <= j < n as int && #[trigger] rs[j].id == id && unplayed_of(
                        vs,
                        id,
                    ).len() > 0;
                assert(has_room(rs, id));
            }
        }
        assert forall|id: i64| (m0.contains_key(id) || (has_room(store.rooms@, id)
            && unplayed_of(store.videos@, id).len() > 0)) implies #[trigger] sup
            .statuses@.contains_key(id) by {
            if !m0.contains_key(id) {
                let j = choose|j: int| 0 <= j < rs.len() && rs[j].id == id;
                assert(room_with_queue_before(rs, vs, id, n as int));
            }
        }
    }
    launched
}

} // verus!
