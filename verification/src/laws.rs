//! Proved properties of the playback scheduler: what a run of the loop does
//! to a room's queue, and how skip and stop cut into it.

use vstd::prelude::*;
use crate::duration::{duration_fits, duration_value, lemma_duration_value_nonneg};
use crate::player::{LoopState, spec_step};
use crate::store::{
    has_video, is_first_unplayed_at, is_unplayed, lemma_first_unplayed_exists,
    lemma_unplayed_update_at_first, lemma_video_index_unique, unplayed_of, video_index_of,
    with_played, with_started,
};
use crate::supervisor::PlaybackStatus;
use crate::video::Video;

verus! {

/// The loop stepped through the clock readings of `times`, one step per
/// reading, starting from the given queue, status map and state.
pub open spec fn run_steps(
    videos: Seq<Video>,
    statuses: Map<i64, PlaybackStatus>,
    room_id: i64,
    state: LoopState,
    times: Seq<u64>,
) -> (Seq<Video>, Map<i64, PlaybackStatus>, LoopState)
    decreases times.len(),
{
    if times.len() == 0 {
        (videos, statuses, state)
    } else {
        let stepped = spec_step(videos, statuses, room_id, state, times[0]);
        run_steps(stepped.0, stepped.1, room_id, stepped.2, times.drop_first())
    }
}

/// The summed seconds of the durations of `items`.
pub open spec fn sum_durations(items: Seq<Video>) -> int
    decreases items.len(),
{
    if items.len() == 0 {
        0
    } else {
        duration_value(items[0].duration@) + sum_durations(items.drop_first())
    }
}

proof fn lemma_sum_durations_nonneg(items: Seq<Video>)
    ensures
        sum_durations(items) >= 0,
    decreases items.len(),
{
    if items.len() > 0 {
        lemma_duration_value_nonneg(items[0].duration@);
        lemma_sum_durations_nonneg(items.drop_first());
    }
}

/// Among the unplayed items of a room, only the head of the queue — the item
/// the loop plays next or is playing — may carry a started timestamp.
pub open spec fn started_only_at_head(videos: Seq<Video>, room_id: i64) -> bool {
    forall|i: int|
        0 <= i < videos.len() && is_unplayed(#[trigger] videos[i], room_id)
            && videos[i].started_on is Some ==> is_first_unplayed_at(videos, room_id, i)
}

/// The loop enforces the queue's one-current-item shape: a step of any room's
/// loop keeps it true, in every room, that at most one unplayed item — the
/// head — has a started timestamp.
pub proof fn lemma_step_preserves_started_only_at_head(
    videos: Seq<Video>,
    statuses: Map<i64, PlaybackStatus>,
    room_id: i64,
    state: LoopState,
    now: u64,
    room: i64,
)
    requires
        forall|i: int, j: int|
            0 <= i < j < videos.len() ==> #[trigger] videos[i].id < #[trigger] videos[j].id,
        started_only_at_head(videos, room),
    ensures
        started_only_at_head(spec_step(videos, statuses, room_id, state, now).0, room),
{
    let post = spec_step(videos, statuses, room_id, state, now).0;
    if post != videos {
        match state {
            LoopState::FetchNext => {
                let v = unplayed_of(videos, room_id)[0];
                lemma_first_unplayed_exists(videos, room_id);
                let head = choose|idx: int|
                    is_first_unplayed_at(videos, room_id, idx) && #[trigger] videos[idx]
                        == unplayed_of(videos, room_id)[0];
                lemma_video_index_unique(videos, v.id, head);
                assert(post == videos.update(head, with_started(videos[head], now)));
                assert forall|i: int|
                    0 <= i < post.len() && is_unplayed(#[trigger] post[i], room)
                        && post[i].started_on is Some implies is_first_unplayed_at(post, room, i) by {
                    if i == head {
                        assert(room == room_id);
                        assert forall|j: int| 0 <= j < i implies !is_unplayed(
                            #[trigger] post[j],
                            room,
                        ) by {
                            assert(post[j] == videos[j]);
                        }
                    } else {
                        assert(post[i] == videos[i]);
                        assert(is_first_unplayed_at(videos, room, i));
                        if room == room_id {
                            // Two first-unplayed positions of one room coincide.
                            assert(is_unplayed(videos[head], room));
                            assert(is_unplayed(videos[i], room));
                            if head < i {
                                assert(!is_unplayed(videos[head], room));
                            } else {
                                assert(!is_unplayed(videos[i], room_id));
                            }
                        } else {
                            assert forall|j: int| 0 <= j < i implies !is_unplayed(
                                #[trigger] post[j],
                                room,
                            ) by {
                                if j == head {
                                    assert(post[j].room_id == videos[j].room_id);
                                    assert(videos[j].room_id == room_id);
                                } else {
                                    assert(post[j] == videos[j]);
                                }
                            }
                        }
                    }
                }
            },
            LoopState::Finalize { video_id } => {
                assert(has_video(videos, video_id));
                let idx = video_index_of(videos, video_id);
                assert(0 <= idx < videos.len() && videos[idx].id == video_id);
                assert(post == videos.update(idx, with_played(videos[idx])));
                assert forall|i: int|
                    0 <= i < post.len() && is_unplayed(#[trigger] post[i], room)
                        && post[i].started_on is Some implies is_first_unplayed_at(post, room, i) by {
                    assert(i != idx);
                    assert(post[i] == videos[i]);
                    assert(is_first_unplayed_at(videos, room, i));
                    assert forall|j: int| 0 <= j < i implies !is_unplayed(#[trigger] post[j], room) by {
                        if j != idx {
                            assert(post[j] == videos[j]);
                        }
                    }
                }
            },
            _ => {},
        }
    }
}

/// A stop takes effect within one poll interval: once the room's supervisor
/// entry is gone, the next step from any waiting state ends the loop, and
/// neither the queue nor the status map changes — so no further item is
/// marked played until a fresh `start`.
pub proof fn lemma_stop_terminates_loop(
    videos: Seq<Video>,
    statuses: Map<i64, PlaybackStatus>,
    room_id: i64,
    state: LoopState,
    now: u64,
)
    requires
        !statuses.contains_key(room_id),
        state is FetchNext || state is Playing || state is IdleRetry,
    ensures
        spec_step(videos, statuses, room_id, state, now) == (
            videos,
            statuses,
            LoopState::Terminated,
        ),
{
}

/// A skip while an item is playing marks that very item played strictly
/// before its natural duration has elapsed, re-arms the room's status as
/// playing, and the next unplayed item (if any) begins with the very next
/// fetch.
pub proof fn lemma_skip_finishes_early(
    videos: Seq<Video>,
    statuses: Map<i64, PlaybackStatus>,
    room_id: i64,
    video_id: i64,
    started_at: u64,
    duration_secs: u64,
    now: u64,
    later: u64,
)
    requires
        statuses.contains_key(room_id),
        statuses[room_id] == PlaybackStatus::SkipRequested,
        now < started_at + duration_secs,
        has_video(videos, video_id),
    ensures
        ({
            let playing = LoopState::Playing { video_id, started_at, duration_secs };
            let first = spec_step(videos, statuses, room_id, playing, now);
            let second = spec_step(first.0, first.1, room_id, first.2, now);
            let idx = video_index_of(videos, video_id);
            &&& first.2 == LoopState::Finalize { video_id }
            &&& first.1 == statuses.insert(room_id, PlaybackStatus::Playing)
            &&& first.0 == videos
            &&& second.2 == LoopState::FetchNext
            &&& second.0 == videos.update(idx, with_played(videos[idx]))
            &&& second.0[idx].played
            &&& now < started_at + duration_secs
            &&& unplayed_of(second.0, room_id).len() > 0 ==> spec_step(
                second.0,
                second.1,
                room_id,
                second.2,
                later,
            ).2 is Playing
        }),
{
    let idx = video_index_of(videos, video_id);
    assert(0 <= idx < videos.len() && videos[idx].id == video_id);
}

/// After `start`, a room whose queue holds unplayed items has them all
/// played by a finite run of the loop, one poll tick per reading of the
/// returned schedule, whose readings all lie within the summed durations of
/// those items past the starting instant; items of other rooms and items
/// already played are untouched, and the loop ends up idling. The items are
/// played in enqueue order: of any two unplayed items of the room, some
/// prefix of the schedule leaves the earlier one played while the later one
/// still waits.
pub proof fn lemma_start_drains_queue(
    videos: Seq<Video>,
    statuses: Map<i64, PlaybackStatus>,
    room_id: i64,
    t0: u64,
) -> (times: Seq<u64>)
    requires
        forall|i: int, j: int|
            0 <= i < j < videos.len() ==> #[trigger] videos[i].id < #[trigger] videos[j].id,
        forall|i: int| 0 <= i < videos.len() ==> duration_fits(#[trigger] videos[i].duration@),
        statuses.contains_key(room_id),
        statuses[room_id] == PlaybackStatus::Playing,
        t0 + sum_durations(unplayed_of(videos, room_id)) <= u64::MAX,
    ensures
        ({
            let end = run_steps(videos, statuses, room_id, LoopState::FetchNext, times);
            &&& times.len() == 3 * unplayed_of(videos, room_id).len() + 1
            &&& forall|k: int|
                0 <= k < times.len() ==> t0 <= #[trigger] times[k] <= t0 + sum_durations(
                    unplayed_of(videos, room_id),
                )
            &&& end.2 == LoopState::IdleRetry
            &&& end.1 == statuses
            &&& end.0.len() == videos.len()
            &&& forall|i: int|
                0 <= i < videos.len() && !is_unplayed(#[trigger] videos[i], room_id) ==> end.0[i]
                    == videos[i]
            &&& forall|i: int|
                0 <= i < videos.len() && is_unplayed(#[trigger] videos[i], room_id) ==> {
                    &&& end.0[i].played
                    &&& end.0[i].id == videos[i].id
                    &&& end.0[i].room_id == videos[i].room_id
                    &&& end.0[i].duration == videos[i].duration
                }
            &&& unplayed_of(end.0, room_id).len() == 0
            &&& forall|i: int, j: int|
                0 <= i < j < videos.len() && is_unplayed(#[trigger] videos[i], room_id)
                    && is_unplayed(#[trigger] videos[j], room_id) ==> exists|t: int|
                    0 <= t <= times.len() && (#[trigger] run_steps(
                        videos,
                        statuses,
                        room_id,
                        LoopState::FetchNext,
                        times.take(t),
                    )).0[i].played && !run_steps(
                        videos,
                        statuses,
                        room_id,
                        LoopState::FetchNext,
                        times.take(t),
                    ).0[j].played
        }),
    decreases unplayed_of(videos, room_id).len(),
{
    let us = unplayed_of(videos, room_id);
    lemma_sum_durations_nonneg(us);
    if us.len() == 0 {
        let times = seq![t0];
        assert(times.drop_first() =~= Seq::<u64>::empty());
        assert(times[0] == t0);
        assert(spec_step(videos, statuses, room_id, LoopState::FetchNext, t0) == (
            videos,
            statuses,
            LoopState::IdleRetry,
        ));
        assert(run_steps(videos, statuses, room_id, LoopState::IdleRetry, times.drop_first())
            == (videos, statuses, LoopState::IdleRetry));
        assert(run_steps(videos, statuses, room_id, LoopState::FetchNext, times) == (
            videos,
            statuses,
            LoopState::IdleRetry,
        ));
        assert forall|i: int| 0 <= i < videos.len() implies !is_unplayed(
            #[trigger] videos[i],
            room_id,
        ) by {
            if is_unplayed(videos[i], room_id) {
                assert(crate::store::unplayed_pred(room_id)(videos[i]));
                videos.lemma_filter_contains(crate::store::unplayed_pred(room_id), i);
            }
        }
        times
    } else {
        let v = us[0];
        lemma_first_unplayed_exists(videos, room_id);
        let idx = choose|idx: int|
            is_first_unplayed_at(videos, room_id, idx) && #[trigger] videos[idx] == unplayed_of(
                videos,
                room_id,
            )[0];
        assert(videos[idx] == v);
        lemma_video_index_unique(videos, v.id, idx);
        lemma_duration_value_nonneg(v.duration@);
        let d_int = duration_value(v.duration@);
        assert(duration_fits(videos[idx].duration@));
        lemma_sum_durations_nonneg(us.drop_first());
        assert(sum_durations(us) == d_int + sum_durations(us.drop_first()));
        let d = d_int as u64;
        assert(d == d_int);
        let t1 = (t0 + d) as u64;
        assert(t1 == t0 + d_int);

        // First step: fetch the head item and start it at t0.
        let started = with_started(videos[idx], t0);
        let v1 = videos.update(idx, started);
        let m1 = statuses.insert(room_id, PlaybackStatus::Playing);
        assert(m1 =~= statuses);
        let s1 = LoopState::Playing { video_id: v.id, started_at: t0, duration_secs: d };
        assert(spec_step(videos, statuses, room_id, LoopState::FetchNext, t0) == (v1, m1, s1));

        // Second step: at t1 the duration has elapsed; move to finalize.
        assert(spec_step(v1, statuses, room_id, s1, t1) == (
            v1,
            statuses,
            LoopState::Finalize { video_id: v.id },
        ));

        // Third step: mark the head item played.
        assert(forall|n: int| 0 <= n < v1.len() ==> #[trigger] v1[n].id == videos[n].id);
        assert(v1[idx].id == v.id);
        assert(has_video(v1, v.id));
        lemma_video_index_unique(v1, v.id, idx);
        let finished = with_played(v1[idx]);
        let v3 = v1.update(idx, finished);
        assert(spec_step(v1, statuses, room_id, LoopState::Finalize { video_id: v.id }, t1) == (
            v3,
            statuses,
            LoopState::FetchNext,
        ));

        // The unplayed items of the room lose exactly their head.
        lemma_unplayed_update_at_first(videos, room_id, idx, started);
        assert(is_first_unplayed_at(v1, room_id, idx)) by {
            assert(forall|j: int| 0 <= j < idx ==> v1[j] == #[trigger] videos[j]);
        }
        lemma_unplayed_update_at_first(v1, room_id, idx, finished);
        assert(v1.skip(idx + 1) =~= videos.skip(idx + 1));
        assert(unplayed_of(v1, room_id) == seq![started] + unplayed_of(
            videos.skip(idx + 1),
            room_id,
        ));
        assert(unplayed_of(v3, room_id) == unplayed_of(videos.skip(idx + 1), room_id));
        assert(unplayed_of(videos, room_id) == seq![videos[idx]] + unplayed_of(
            videos.skip(idx + 1),
            room_id,
        ));
        assert(unplayed_of(v3, room_id) =~= us.drop_first());

        // The rest of the queue drains from t1 on.
        assert(forall|i: int, j: int|
            0 <= i < j < v3.len() ==> #[trigger] v3[i].id < #[trigger] v3[j].id) by {
            assert(forall|n: int| 0 <= n < v3.len() ==> #[trigger] v3[n].id == videos[n].id);
        }
        assert(forall|i: int|
            0 <= i < v3.len() ==> duration_fits(#[trigger] v3[i].duration@)) by {
            assert(forall|n: int|
                0 <= n < v3.len() ==> #[trigger] v3[n].duration == videos[n].duration);
        }
        let rec_times = lemma_start_drains_queue(v3, statuses, room_id, t1);
        let times = seq![t0, t1, t1] + rec_times;

        assert(times.len() == 3 + rec_times.len());
        assert(times[0] == t0);
        let times1 = times.drop_first();
        let times2 = times1.drop_first();
        let times3 = times2.drop_first();
        assert(times1 =~= seq![t1, t1] + rec_times);
        assert(times2 =~= seq![t1] + rec_times);
        assert(times3 =~= rec_times);
        assert(times1[0] == t1 && times2[0] == t1);
        assert(run_steps(videos, statuses, room_id, LoopState::FetchNext, times) == run_steps(
            v1,
            statuses,
            room_id,
            s1,
            times1,
        ));
        assert(run_steps(v1, statuses, room_id, s1, times1) == run_steps(
            v1,
            statuses,
            room_id,
            LoopState::Finalize { video_id: v.id },
            times2,
        ));
        assert(run_steps(v1, statuses, room_id, LoopState::Finalize { video_id: v.id }, times2)
            == run_steps(v3, statuses, room_id, LoopState::FetchNext, times3));

        let end = run_steps(videos, statuses, room_id, LoopState::FetchNext, times);
        assert(end == run_steps(v3, statuses, room_id, LoopState::FetchNext, rec_times));

        // Bounds of the schedule.
        assert forall|k: int|
            0 <= k < times.len() implies t0 <= #[trigger] times[k] <= t0 + sum_durations(us) by {
            if k >= 3 {
                assert(times[k] == rec_times[k - 3]);
                assert(t1 <= rec_times[k - 3] <= t1 + sum_durations(us.drop_first()));
            }
        }

        // Per-item conclusions carry through the recursive run.
        assert forall|i: int|
            0 <= i < videos.len() && !is_unplayed(#[trigger] videos[i], room_id) implies end.0[i]
            == videos[i] by {
            assert(i != idx);
            assert(v3[i] == videos[i]);
            assert(!is_unplayed(v3[i], room_id));
        }
        assert forall|i: int|
            0 <= i < videos.len() && is_unplayed(#[trigger] videos[i], room_id) implies {
            &&& end.0[i].played
            &&& end.0[i].id == videos[i].id
            &&& end.0[i].room_id == videos[i].room_id
            &&& end.0[i].duration == videos[i].duration
        } by {
            if i == idx {
                assert(v3[idx] == finished);
                assert(finished.played);
                assert(!is_unplayed(v3[idx], room_id));
                assert(end.0[idx] == v3[idx]);
            } else {
                assert(v3[i] == videos[i]);
                assert(is_unplayed(v3[i], room_id));
            }
        }

        // Enqueue order: the head is played within the first three steps
        // while every later unplayed item still waits; pairs further down
        // the queue come from the recursive run, shifted past those steps.
        assert forall|i: int, j: int|
            0 <= i < j < videos.len() && is_unplayed(#[trigger] videos[i], room_id)
                && is_unplayed(#[trigger] videos[j], room_id) implies exists|t: int|
            0 <= t <= times.len() && (#[trigger] run_steps(
                videos,
                statuses,
                room_id,
                LoopState::FetchNext,
                times.take(t),
            )).0[i].played && !run_steps(
                videos,
                statuses,
                room_id,
                LoopState::FetchNext,
                times.take(t),
            ).0[j].played by {
            if i < idx {
                assert(!is_unplayed(videos[i], room_id));
            }
            assert(idx <= i < j);
            if i == idx {
                let p = times.take(3);
                assert(p =~= seq![t0, t1, t1]);
                assert(p[0] == t0);
                let p1 = p.drop_first();
                let p2 = p1.drop_first();
                let p3 = p2.drop_first();
                assert(p1 =~= seq![t1, t1]);
                assert(p2 =~= seq![t1]);
                assert(p3 =~= Seq::<u64>::empty());
                assert(p1[0] == t1 && p2[0] == t1);
                assert(run_steps(videos, statuses, room_id, LoopState::FetchNext, p)
                    == run_steps(v1, statuses, room_id, s1, p1));
                assert(run_steps(v1, statuses, room_id, s1, p1) == run_steps(
                    v1,
                    statuses,
                    room_id,
                    LoopState::Finalize { video_id: v.id },
                    p2,
                ));
                assert(run_steps(v1, statuses, room_id, LoopState::Finalize { video_id: v.id }, p2)
                    == run_steps(v3, statuses, room_id, LoopState::FetchNext, p3));
                assert(run_steps(v3, statuses, room_id, LoopState::FetchNext, p3) == (
                    v3,
                    statuses,
                    LoopState::FetchNext,
                ));
                assert(v3[idx] == finished && finished.played);
                assert(v3[j] == videos[j] && !videos[j].played);
                assert(0 <= 3 <= times.len() && (run_steps(
                    videos,
                    statuses,
                    room_id,
                    LoopState::FetchNext,
                    times.take(3),
                )).0[i].played && !run_steps(
                    videos,
                    statuses,
                    room_id,
                    LoopState::FetchNext,
                    times.take(3),
                ).0[j].played);
            } else {
                assert(v3[i] == videos[i] && v3[j] == videos[j]);
                assert(is_unplayed(v3[i], room_id) && is_unplayed(v3[j], room_id));
                assert(exists|t: int|
                    0 <= t <= rec_times.len() && (#[trigger] run_steps(
                        v3,
                        statuses,
                        room_id,
                        LoopState::FetchNext,
                        rec_times.take(t),
                    )).0[i].played && !run_steps(
                        v3,
                        statuses,
                        room_id,
                        LoopState::FetchNext,
                        rec_times.take(t),
                    ).0[j].played);
                let t_rec = choose|t: int|
                    0 <= t <= rec_times.len() && (#[trigger] run_steps(
                        v3,
                        statuses,
                        room_id,
                        LoopState::FetchNext,
                        rec_times.take(t),
                    )).0[i].played && !run_steps(
                        v3,
                        statuses,
                        room_id,
                        LoopState::FetchNext,
                        rec_times.take(t),
                    ).0[j].played;
                let p = times.take(3 + t_rec);
                assert(p =~= seq![t0, t1, t1] + rec_times.take(t_rec));
                assert(p[0] == t0);
                let p1 = p.drop_first();
                let p2 = p1.drop_first();
                let p3 = p2.drop_first();
                assert(p1 =~= seq![t1, t1] + rec_times.take(t_rec));
                assert(p2 =~= seq![t1] + rec_times.take(t_rec));
                assert(p3 =~= rec_times.take(t_rec));
                assert(p1[0] == t1 && p2[0] == t1);
                assert(run_steps(videos, statuses, room_id, LoopState::FetchNext, p)
                    == run_steps(v1, statuses, room_id, s1, p1));
                assert(run_steps(v1, statuses, room_id, s1, p1) == run_steps(
                    v1,
                    statuses,
                    room_id,
                    LoopState::Finalize { video_id: v.id },
                    p2,
                ));
                assert(run_steps(v1, statuses, room_id, LoopState::Finalize { video_id: v.id }, p2)
                    == run_steps(v3, statuses, room_id, LoopState::FetchNext, p3));
                assert(0 <= 3 + t_rec <= times.len() && (run_steps(
                    videos,
                    statuses,
                    room_id,
                    LoopState::FetchNext,
                    times.take(3 + t_rec),
                )).0[i].played && !run_steps(
                    videos,
                    statuses,
                    room_id,
                    LoopState::FetchNext,
                    times.take(3 + t_rec),
                ).0[j].played);
            }
        }
        times
    }
}

} // verus!
