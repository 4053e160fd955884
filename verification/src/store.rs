//! The queue store: the persisted rooms and queue items the scheduler works
//! on, held as ordered lists with unique, ascending ids.
//!
//! Queue items of one room are kept in enqueue order, which coincides with
//! ascending id order. The store never decides scheduling on its own; the
//! playback loop and the registry drive it through the operations below.

use vstd::prelude::*;
use vstd::seq_lib::*;
use crate::duration::duration_fits;
use crate::errors::ApiError;
use crate::room::{Room, is_valid_room_name};
use crate::video::{NewVideo, Video};

verus! {

/// Whether `v` is an unplayed queue item of room `room_id`.
pub open spec fn is_unplayed(v: Video, room_id: i64) -> bool {
    v.room_id == room_id && !v.played
}

/// The predicate selecting the unplayed queue items of room `room_id`.
pub open spec fn unplayed_pred(room_id: i64) -> spec_fn(Video) -> bool {
    |v: Video| is_unplayed(v, room_id)
}

/// The unplayed queue items of room `room_id`, in enqueue order.
pub open spec fn unplayed_of(videos: Seq<Video>, room_id: i64) -> Seq<Video> {
    videos.filter(unplayed_pred(room_id))
}

/// Whether some queue item carries id `id`.
pub open spec fn has_video(videos: Seq<Video>, id: i64) -> bool {
    exists|i: int| 0 <= i < videos.len() && videos[i].id == id
}

/// The position of the queue item with id `id`.
pub open spec fn video_index_of(videos: Seq<Video>, id: i64) -> int {
    choose|i: int| 0 <= i < videos.len() && videos[i].id == id
}

/// Whether some room carries id `id`.
pub open spec fn has_room(rooms: Seq<Room>, id: i64) -> bool {
    exists|i: int| 0 <= i < rooms.len() && rooms[i].id == id
}

/// The position of the room with id `id`.
pub open spec fn room_index_of(rooms: Seq<Room>, id: i64) -> int {
    choose|i: int| 0 <= i < rooms.len() && rooms[i].id == id
}

/// Whether some room already carries the display name `name`.
pub open spec fn room_name_taken(rooms: Seq<Room>, name: Seq<char>) -> bool {
    exists|i: int| 0 <= i < rooms.len() && rooms[i].name@ == name
}

/// Position `idx` holds the first unplayed queue item of room `room_id`.
pub open spec fn is_first_unplayed_at(videos: Seq<Video>, room_id: i64, idx: int) -> bool {
    &&& 0 <= idx < videos.len()
    &&& is_unplayed(videos[idx], room_id)
    &&& forall|j: int| 0 <= j < idx ==> !is_unplayed(#[trigger] videos[j], room_id)
}

/// The rooms and queue items, with the counters the next ids come from.
pub struct Store {
    pub rooms: Vec<Room>,
    pub videos: Vec<Video>,
    pub next_room_id: i64,
    pub next_video_id: i64,
}

impl Store {
    /// Well-formedness: ids are positive, unique, ascending and below the next
    /// free id; room names are valid and unique; every queue item belongs to a
    /// known room and carries a duration whose seconds fit in a `u64`.
    pub open spec fn wf(&self) -> bool {
        &&& 1 <= self.next_room_id
        &&& 1 <= self.next_video_id
        &&& forall|i: int, j: int|
            0 <= i < j < self.rooms@.len() ==> #[trigger] self.rooms@[i].id
                < #[trigger] self.rooms@[j].id
        &&& forall|i: int|
            0 <= i < self.rooms@.len() ==> 0 < #[trigger] self.rooms@[i].id < self.next_room_id
        &&& forall|i: int, j: int|
            0 <= i < j < self.rooms@.len() ==> #[trigger] self.rooms@[i].name@
                != #[trigger] self.rooms@[j].name@
        &&& forall|i: int|
            0 <= i < self.rooms@.len() ==> is_valid_room_name(#[trigger] self.rooms@[i].name@)
        &&& forall|i: int, j: int|
            0 <= i < j < self.videos@.len() ==> #[trigger] self.videos@[i].id
                < #[trigger] self.videos@[j].id
        &&& forall|i: int|
            0 <= i < self.videos@.len() ==> 0 < #[trigger] self.videos@[i].id < self.next_video_id
        &&& forall|i: int|
            0 <= i < self.videos@.len() ==> has_room(self.rooms@, #[trigger] self.videos@[i].room_id)
        &&& forall|i: int|
            0 <= i < self.videos@.len() ==> duration_fits(#[trigger] self.videos@[i].duration@)
    }

    /// A fresh store with no rooms and no queue items.
    pub fn new() -> (r: Store)
        ensures
            r.wf(),
            r.rooms@ =~= Seq::<Room>::empty(),
            r.videos@ =~= Seq::<Video>::empty(),
            r.next_room_id == 1,
            r.next_video_id == 1,
    {
        Store { rooms: Vec::new(), videos: Vec::new(), next_room_id: 1, next_video_id: 1 }
    }

    /// All unplayed queue items of the room, in enqueue order.
    pub fn list_unplayed(&self, room_id: i64) -> (r: Vec<Video>)
        ensures
            r@ == unplayed_of(self.videos@, room_id),
    {
        let ghost vs = self.videos@;
        let mut r: Vec<Video> = Vec::new();
        let mut i: usize = 0;
        proof {
            reveal(Seq::filter);
            assert(vs.take(0).filter(unplayed_pred(room_id)) =~= Seq::<Video>::empty());
        }
        while i < self.videos.len()
            invariant
                vs == self.videos@,
                i <= vs.len(),
                r@ == vs.take(i as int).filter(unplayed_pred(room_id)),
            decreases vs.len() - i,
        {
            let v = &self.videos[i];
            proof {
                reveal(Seq::filter);
                assert(vs.take(i as int + 1).drop_last() =~= vs.take(i as int));
                assert(vs.take(i as int + 1).last() == vs[i as int]);
            }
            if v.room_id == room_id && !v.played {
                let copy = v.clone_video();
                r.push(copy);
            }
            i = i + 1;
        }
        proof {
            assert(vs.take(vs.len() as int) =~= vs);
        }
        r
    }

    /// The oldest unplayed queue item of the room, if any.
    pub fn find_next_unplayed(&self, room_id: i64) -> (r: Option<Video>)
        ensures
            match r {
                Some(v) => {
                    &&& unplayed_of(self.videos@, room_id).len() > 0
                    &&& v == unplayed_of(self.videos@, room_id)[0]
                    &&& exists|idx: int|
                        is_first_unplayed_at(self.videos@, room_id, idx) && #[trigger] self.videos@[idx]
                            == v
                },
                None => unplayed_of(self.videos@, room_id).len() == 0,
            },
    {
        let ghost vs = self.videos@;
        let mut i: usize = 0;
        proof {
            reveal(Seq::filter);
            assert(vs.take(0).filter(unplayed_pred(room_id)) =~= Seq::<Video>::empty());
        }
        while i < self.videos.len()
            invariant
                vs == self.videos@,
                i <= vs.len(),
                vs.take(i as int).filter(unplayed_pred(room_id)) =~= Seq::<Video>::empty(),
                forall|j: int| 0 <= j < i ==> !is_unplayed(#[trigger] vs[j], room_id),
            decreases vs.len() - i,
        {
            let v = &self.videos[i];
            proof {
                reveal(Seq::filter);
                assert(vs.take(i as int + 1).drop_last() =~= vs.take(i as int));
                assert(vs.take(i as int + 1).last() == vs[i as int]);
            }
            if v.room_id == room_id && !v.played {
                let copy = v.clone_video();
                proof {
                    reveal(Seq::filter);
                    lemma_take_skip(vs, i as int + 1);
                    Seq::<Video>::filter_distributes_over_add(
                        vs.take(i as int + 1),
                        vs.skip(i as int + 1),
                        unplayed_pred(room_id),
                    );
                    assert(vs.take(i as int + 1).filter(unplayed_pred(room_id)) =~= seq![vs[i as int]]);
                    assert(unplayed_of(vs, room_id)[0] == vs[i as int]);
                    assert(is_first_unplayed_at(vs, room_id, i as int) && vs[i as int] == copy);
                }
                return Some(copy);
            }
            i = i + 1;
        }
        proof {
            assert(vs.take(vs.len() as int) =~= vs);
        }
        None
    }

    /// Whether the room has no unplayed queue item.
    pub fn queue_is_empty(&self, room_id: i64) -> (r: bool)
        ensures
            r == (unplayed_of(self.videos@, room_id).len() == 0),
    {
        let next = self.find_next_unplayed(room_id);
        next.is_none()
    }

    /// Appends a queue item at the tail of its room's queue under a fresh id.
    /// The room must exist and the duration must already be validated; both
    /// are the enqueue path's job.
    pub fn add_video(&mut self, nv: NewVideo) -> (v: Video)
        requires
            old(self).wf(),
            has_room(old(self).rooms@, nv.room_id),
            crate::duration::duration_fits(nv.duration@),
            old(self).next_video_id < i64::MAX,
        ensures
            final(self).wf(),
            final(self).rooms@ == old(self).rooms@,
            final(self).next_room_id == old(self).next_room_id,
            final(self).next_video_id == old(self).next_video_id + 1,
            v == (Video {
                id: old(self).next_video_id,
                video_id: nv.video_id,
                title: nv.title,
                description: nv.description,
                room_id: nv.room_id,
                duration: nv.duration,
                played: false,
                added_on: nv.added_on,
                started_on: None,
            }),
            final(self).videos@ == old(self).videos@.push(v),
    {
        let v = Video {
            id: self.next_video_id,
            video_id: nv.video_id,
            title: nv.title,
            description: nv.description,
            room_id: nv.room_id,
            duration: nv.duration,
            played: false,
            added_on: nv.added_on,
            started_on: None,
        };
        let copy = v.clone_video();
        self.videos.push(copy);
        self.next_video_id = self.next_video_id + 1;
        proof {
            assert forall|a: int| 0 <= a < self.videos@.len() implies has_room(
                self.rooms@,
                #[trigger] self.videos@[a].room_id,
            ) by {
                if a < self.videos@.len() - 1 {
                    assert(self.videos@[a] == old(self).videos@[a]);
                }
            }
        }
        v
    }

    /// Records the instant the queue item with id `video_id` started playing.
    pub fn mark_started(&mut self, video_id: i64, timestamp: u64) -> (r: Result<(), ApiError>)
        requires
            old(self).wf(),
        ensures
            final(self).wf(),
            final(self).rooms@ == old(self).rooms@,
            final(self).next_room_id == old(self).next_room_id,
            final(self).next_video_id == old(self).next_video_id,
            match r {
                Ok(()) => {
                    &&& has_video(old(self).videos@, video_id)
                    &&& final(self).videos@ == old(self).videos@.update(
                        video_index_of(old(self).videos@, video_id),
                        with_started(
                            old(self).videos@[video_index_of(old(self).videos@, video_id)],
                            timestamp,
                        ),
                    )
                },
                Err(e) => {
                    &&& e == ApiError::NotFound
                    &&& !has_video(old(self).videos@, video_id)
                    &&& final(self).videos@ == old(self).videos@
                },
            },
    {
        let ghost vs = old(self).videos@;
        let n = self.videos.len();
        let mut i: usize = 0;
        while i < n
            invariant
                *self == *old(self),
                old(self).wf(),
                n == vs.len(),
                vs == self.videos@,
                i <= n,
                forall|j: int| 0 <= j < i ==> #[trigger] vs[j].id != video_id,
            decreases n - i,
        {
            if self.videos[i].id == video_id {
                let mut updated = self.videos[i].clone_video();
                updated.started_on = Some(timestamp);
                proof {
                    assert(updated == with_started(vs[i as int], timestamp));
                    assert(has_video(vs, video_id));
                    lemma_video_index_unique(vs, video_id, i as int);
                }
                self.videos[i] = updated;
                proof {
                    lemma_wf_update_keeps_meta(
                        *old(self),
                        *self,
                        i as int,
                        with_started(vs[i as int], timestamp),
                    );
                }
                return Ok(());
            }
            i = i + 1;
        }
        Err(ApiError::NotFound)
    }

    /// Marks the queue item with id `video_id` as played.
    pub fn mark_played(&mut self, video_id: i64) -> (r: Result<(), ApiError>)
        requires
            old(self).wf(),
        ensures
            final(self).wf(),
            final(self).rooms@ == old(self).rooms@,
            final(self).next_room_id == old(self).next_room_id,
            final(self).next_video_id == old(self).next_video_id,
            match r {
                Ok(()) => {
                    &&& has_video(old(self).videos@, video_id)
                    &&& final(self).videos@ == old(self).videos@.update(
                        video_index_of(old(self).videos@, video_id),
                        with_played(old(self).videos@[video_index_of(old(self).videos@, video_id)]),
                    )
                },
                Err(e) => {
                    &&& e == ApiError::NotFound
                    &&& !has_video(old(self).videos@, video_id)
                    &&& final(self).videos@ == old(self).videos@
                },
            },
    {
        let ghost vs = old(self).videos@;
        let n = self.videos.len();
        let mut i: usize = 0;
        while i < n
            invariant
                *self == *old(self),
                old(self).wf(),
                n == vs.len(),
                vs == self.videos@,
                i <= n,
                forall|j: int| 0 <= j < i ==> #[trigger] vs[j].id != video_id,
            decreases n - i,
        {
            if self.videos[i].id == video_id {
                let mut updated = self.videos[i].clone_video();
                updated.played = true;
                proof {
                    assert(updated == with_played(vs[i as int]));
                    assert(has_video(vs, video_id));
                    lemma_video_index_unique(vs, video_id, i as int);
                }
                self.videos[i] = updated;
                proof {
                    lemma_wf_update_keeps_meta(*old(self), *self, i as int, with_played(vs[i as int]));
                }
                return Ok(());
            }
            i = i + 1;
        }
        Err(ApiError::NotFound)
    }
}

/// `v` with its started timestamp set to `timestamp`.
pub open spec fn with_started(v: Video, timestamp: u64) -> Video {
    Video { started_on: Some(timestamp), ..v }
}

/// `v` marked as played.
pub open spec fn with_played(v: Video) -> Video {
    Video { played: true, ..v }
}

/// Under well-formedness, ids are unique, so the index `video_index_of` picks
/// is the index of any item found to carry the id.
pub proof fn lemma_video_index_unique(videos: Seq<Video>, id: i64, found: int)
    requires
        forall|i: int, j: int|
            0 <= i < j < videos.len() ==> #[trigger] videos[i].id < #[trigger] videos[j].id,
        0 <= found < videos.len(),
        videos[found].id == id,
    ensures
        video_index_of(videos, id) == found,
{
    let chosen = video_index_of(videos, id);
    assert(0 <= chosen < videos.len() && videos[chosen].id == id);
    if chosen < found {
        assert(videos[chosen].id < videos[found].id);
    } else if found < chosen {
        assert(videos[found].id < videos[chosen].id);
    }
}

/// Replacing one queue item with one that keeps its id, room, and duration
/// keeps the store well-formed.
proof fn lemma_wf_update_keeps_meta(pre: Store, post: Store, idx: int, v2: Video)
    requires
        pre.wf(),
        0 <= idx < pre.videos@.len(),
        v2.id == pre.videos@[idx].id,
        v2.room_id == pre.videos@[idx].room_id,
        v2.duration == pre.videos@[idx].duration,
        post.videos@ == pre.videos@.update(idx, v2),
        post.rooms@ == pre.rooms@,
        post.next_room_id == pre.next_room_id,
        post.next_video_id == pre.next_video_id,
    ensures
        post.wf(),
{
    assert forall|i: int| 0 <= i < post.videos@.len() implies #[trigger] post.videos@[i].id
        == pre.videos@[i].id && post.videos@[i].room_id == pre.videos@[i].room_id
        && post.videos@[i].duration == pre.videos@[i].duration by {
        if i != idx {
            assert(post.videos@[i] == pre.videos@[i]);
        }
    }
}

/// A sequence splits into the part before an index and the part from it on.
pub proof fn lemma_take_skip<A>(s: Seq<A>, n: int)
    requires
        0 <= n <= s.len(),
    ensures
        s =~= s.take(n) + s.skip(n),
{
}

/// A sequence with no selected element filters to nothing.
pub proof fn lemma_filter_all_fail<A>(s: Seq<A>, pred: spec_fn(A) -> bool)
    requires
        forall|i: int| 0 <= i < s.len() ==> !pred(#[trigger] s[i]),
    ensures
        s.filter(pred) =~= Seq::<A>::empty(),
    decreases s.len(),
{
    reveal(Seq::filter);
    if s.len() > 0 {
        lemma_filter_all_fail(s.drop_last(), pred);
    }
}

/// A non-empty unplayed list has its head at the first position of the queue
/// whose item is an unplayed item of the room.
pub proof fn lemma_first_unplayed_exists(videos: Seq<Video>, room_id: i64)
    requires
        unplayed_of(videos, room_id).len() > 0,
    ensures
        exists|idx: int|
            is_first_unplayed_at(videos, room_id, idx) && #[trigger] videos[idx] == unplayed_of(
                videos,
                room_id,
            )[0],
    decreases videos.len(),
{
    reveal(Seq::filter);
    let pred = unplayed_pred(room_id);
    assert(videos.len() > 0) by {
        if videos.len() == 0 {
            assert(videos.filter(pred) =~= Seq::<Video>::empty());
        }
    }
    let head = seq![videos[0]];
    let rest = videos.drop_first();
    assert(videos =~= head + rest);
    Seq::<Video>::filter_distributes_over_add(head, rest, pred);
    assert(head.drop_last() =~= Seq::<Video>::empty());
    assert(head.drop_last().filter(pred) =~= Seq::<Video>::empty());
    assert(head.last() == videos[0]);
    if pred(videos[0]) {
        assert(head.filter(pred) =~= head);
        assert(unplayed_of(videos, room_id)[0] == videos[0]);
        assert(is_first_unplayed_at(videos, room_id, 0));
    } else {
        assert(head.filter(pred) =~= Seq::<Video>::empty());
        assert(unplayed_of(videos, room_id) =~= unplayed_of(rest, room_id));
        lemma_first_unplayed_exists(rest, room_id);
        let idx = choose|idx: int|
            is_first_unplayed_at(rest, room_id, idx) && #[trigger] rest[idx] == unplayed_of(
                rest,
                room_id,
            )[0];
        assert(videos[idx + 1] == rest[idx]);
        assert forall|j: int| 0 <= j < idx + 1 implies !is_unplayed(
            #[trigger] videos[j],
            room_id,
        ) by {
            if j > 0 {
                assert(rest[j - 1] == videos[j]);
                assert(!is_unplayed(rest[j - 1], room_id));
            }
        }
        assert(is_first_unplayed_at(videos, room_id, idx + 1));
    }
}

/// How the unplayed items of a room change when the item at the first
/// unplayed position is replaced: the list loses its head, and gains the
/// replacement as its new head when the replacement is still unplayed.
pub proof fn lemma_unplayed_update_at_first(
    videos: Seq<Video>,
    room_id: i64,
    idx: int,
    v2: Video,
)
    requires
        is_first_unplayed_at(videos, room_id, idx),
    ensures
        unplayed_of(videos, room_id) == seq![videos[idx]] + unplayed_of(
            videos.skip(idx + 1),
            room_id,
        ),
        is_unplayed(v2, room_id) ==> unplayed_of(videos.update(idx, v2), room_id) == seq![v2]
            + unplayed_of(videos.skip(idx + 1), room_id),
        !is_unplayed(v2, room_id) ==> unplayed_of(videos.update(idx, v2), room_id) == unplayed_of(
            videos.skip(idx + 1),
            room_id,
        ),
{
    reveal(Seq::filter);
    let pred = unplayed_pred(room_id);
    let pre = videos.take(idx);
    let rest = videos.skip(idx + 1);
    assert(videos =~= pre + seq![videos[idx]] + rest);
    assert(videos.update(idx, v2) =~= pre + seq![v2] + rest);
    lemma_filter_all_fail(pre, pred);
    assert(seq![videos[idx]].drop_last() =~= Seq::<Video>::empty());
    assert(seq![v2].drop_last() =~= Seq::<Video>::empty());
    assert(seq![videos[idx]].filter(pred) =~= seq![videos[idx]]);
    Seq::<Video>::filter_distributes_over_add(pre + seq![videos[idx]], rest, pred);
    Seq::<Video>::filter_distributes_over_add(pre, seq![videos[idx]], pred);
    Seq::<Video>::filter_distributes_over_add(pre + seq![v2], rest, pred);
    Seq::<Video>::filter_distributes_over_add(pre, seq![v2], pred);
    assert(unplayed_of(videos, room_id) =~= seq![videos[idx]] + unplayed_of(rest, room_id));
    if is_unplayed(v2, room_id) {
        assert(seq![v2].filter(pred) =~= seq![v2]);
        assert(unplayed_of(videos.update(idx, v2), room_id) =~= seq![v2] + unplayed_of(
            rest,
            room_id,
        ));
    } else {
        assert(seq![v2].filter(pred) =~= Seq::<Video>::empty());
        assert(unplayed_of(videos.update(idx, v2), room_id) =~= unplayed_of(rest, room_id));
    }
}

} // verus!
