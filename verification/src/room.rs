//! Rooms: named, independent playback queues, and the registry operations on
//! them.

use vstd::prelude::*;
use crate::errors::ApiError;
use crate::store::{Store, has_room, room_index_of, room_name_taken, unplayed_of};
use crate::supervisor::Supervisor;
use crate::video::{Video, clone_opt_string};

verus! {

/// A room: a stable id, a unique display name, an optional description and a
/// visibility flag.
#[derive(Debug)]
pub struct Room {
    pub id: i64,
    pub name: String,
    pub description: Option<String>,
    pub is_public: bool,
}

/// A room as handed in by a caller, before the registry assigns its id.
#[derive(Debug)]
pub struct NewRoom {
    pub name: String,
    pub description: Option<String>,
    pub is_public: bool,
}

/// A name filter for listing rooms.
#[derive(Debug)]
pub struct SearchRoom {
    pub name: String,
}

/// A word character: an ASCII letter, a digit or an underscore.
pub open spec fn is_word_char(c: char) -> bool {
    ||| 'a' <= c && c <= 'z'
    ||| 'A' <= c && c <= 'Z'
    ||| '0' <= c && c <= '9'
    ||| c == '_'
}

/// A valid room name: three to twenty word characters.
pub open spec fn is_valid_room_name(s: Seq<char>) -> bool {
    &&& 3 <= s.len() <= 20
    &&& forall|i: int| 0 <= i < s.len() ==> is_word_char(#[trigger] s[i])
}

/// The predicate keeping the rooms whose id is not `room_id`.
pub open spec fn other_room_pred(room_id: i64) -> spec_fn(Room) -> bool {
    |room: Room| room.id != room_id
}

/// The predicate keeping the queue items of rooms other than `room_id`.
pub open spec fn other_video_pred(room_id: i64) -> spec_fn(Video) -> bool {
    |v: Video| v.room_id != room_id
}

/// The case-folded code of a character: an ASCII upper-case letter folds to
/// its lower case; every other character keeps its own code.
pub open spec fn lower_code(c: char) -> int {
    if 'A' <= c && c <= 'Z' {
        c as int + 32
    } else {
        c as int
    }
}

/// `query` occurs in `name` at position `k`, compared case-insensitively
/// (ASCII case folding).
pub open spec fn query_matches_at(name: Seq<char>, query: Seq<char>, k: int) -> bool {
    &&& 0 <= k
    &&& k + query.len() <= name.len()
    &&& forall|j: int|
        0 <= j < query.len() ==> lower_code(name[k + j]) == lower_code(#[trigger] query[j])
}

/// `name` holds `query` as a substring, compared case-insensitively.
pub open spec fn name_matches_query(name: Seq<char>, query: Seq<char>) -> bool {
    exists|k: int| query_matches_at(name, query, k)
}

/// The predicate selecting the rooms whose name holds `query`.
pub open spec fn query_match_pred(query: Seq<char>) -> spec_fn(Room) -> bool {
    |room: Room| name_matches_query(room.name@, query)
}

/// Names ordered lexicographically by character code.
pub open spec fn lex_le(a: Seq<char>, b: Seq<char>) -> bool
    decreases a.len(),
{
    if a.len() == 0 {
        true
    } else if b.len() == 0 {
        false
    } else if a[0] < b[0] {
        true
    } else if b[0] < a[0] {
        false
    } else {
        lex_le(a.drop_first(), b.drop_first())
    }
}

/// Rooms in descending name order.
pub open spec fn sorted_by_name_desc(rooms: Seq<Room>) -> bool {
    forall|i: int, j: int|
        0 <= i < j < rooms.len() ==> lex_le(#[trigger] rooms[j].name@, #[trigger] rooms[i].name@)
}

/// Relies on `regex::Regex::is_match` with the anchored pattern
/// `^[[:word:]]{3,20}$`: the POSIX class `[[:word:]]` is the ASCII set
/// `[0-9A-Za-z_]`, and with both anchors, no multi-line mode and a bounded
/// repetition the pattern matches exactly the strings of three to twenty such
/// characters. The pattern itself is a fixed valid expression, so compiling it
/// cannot fail.
#[verifier::external_body]
fn name_matches_word_pattern(s: &str) -> (r: bool)
    ensures
        r == is_valid_room_name(s@),
{
    let pattern = regex::Regex::new(r"^[[:word:]]{3,20}$").unwrap();
    pattern.is_match(s)
}

impl Room {
    /// A copy of this room, equal to the original.
    pub fn clone_room(&self) -> (r: Room)
        ensures
            r == *self,
    {
        Room {
            id: self.id,
            name: self.name.clone(),
            description: clone_opt_string(&self.description),
            is_public: self.is_public,
        }
    }

    /// Creates a room: validates the display name, refuses a duplicate name
    /// as a conflict, and otherwise persists the room under a fresh id. A
    /// fresh room starts with an empty queue, so no playback loop is needed
    /// for it.
    pub fn create(store: &mut Store, new_room: NewRoom) -> (r: Result<Room, ApiError>)
        requires
            old(store).wf(),
        ensures
            final(store).wf(),
            final(store).videos@ == old(store).videos@,
            final(store).next_video_id == old(store).next_video_id,
            ({
                let name_ok = is_valid_room_name(new_room.name@);
                let taken = room_name_taken(old(store).rooms@, new_room.name@);
                let full = old(store).next_room_id == i64::MAX;
                match r {
                    Ok(room) => {
                        &&& name_ok && !taken && !full
                        &&& room.id == old(store).next_room_id
                        &&& room.name == new_room.name
                        &&& room.description == new_room.description
                        &&& room.is_public == new_room.is_public
                        &&& final(store).rooms@ == old(store).rooms@.push(room)
                        &&& final(store).next_room_id == old(store).next_room_id + 1
                        &&& unplayed_of(final(store).videos@, room.id).len() == 0
                    },
                    Err(e) => {
                        &&& final(store).rooms@ == old(store).rooms@
                        &&& final(store).next_room_id == old(store).next_room_id
                        &&& if !name_ok {
                            e == ApiError::BadRequest
                        } else {
                            (taken || full) && e == ApiError::Conflict
                        }
                    },
                }
            }),
    {
        if !name_matches_word_pattern(new_room.name.as_str()) {
            return Err(ApiError::BadRequest);
        }
        let ghost rs = store.rooms@;
        let n = store.rooms.len();
        let mut i: usize = 0;
        while i < n
            invariant
                *store == *old(store),
                old(store).wf(),
                rs == store.rooms@,
                n == rs.len(),
                i <= n,
                forall|j: int| 0 <= j < i ==> #[trigger] rs[j].name@ != new_room.name@,
            decreases n - i,
        {
            if store.rooms[i].name == new_room.name {
                proof {
                    assert(rs[i as int].name@ == new_room.name@);
                    assert(room_name_taken(rs, new_room.name@));
                }
                return Err(ApiError::Conflict);
            }
            i = i + 1;
        }
        if store.next_room_id == i64::MAX {
            return Err(ApiError::Conflict);
        }
        let room = Room {
            id: store.next_room_id,
            name: new_room.name,
            description: new_room.description,
            is_public: new_room.is_public,
        };
        let copy = room.clone_room();
        store.rooms.push(copy);
        store.next_room_id = store.next_room_id + 1;
        proof {
            let post = store.rooms@;
            assert forall|a: int| 0 <= a < old(store).videos@.len() implies has_room(
                post,
                #[trigger] old(store).videos@[a].room_id,
            ) by {
                let w = choose|b: int|
                    0 <= b < rs.len() && rs[b].id == old(store).videos@[a].room_id;
                assert(post[w].id == old(store).videos@[a].room_id);
            }
            assert forall|a: int| 0 <= a < store.videos@.len() implies !crate::store::is_unplayed(
                #[trigger] store.videos@[a],
                room.id,
            ) by {
                assert(has_room(rs, store.videos@[a].room_id));
                let w = choose|b: int|
                    0 <= b < rs.len() && rs[b].id == store.videos@[a].room_id;
                assert(rs[w].id < room.id);
            }
            crate::store::lemma_filter_all_fail(
                store.videos@,
                crate::store::unplayed_pred(room.id),
            );
        }
        Ok(room)
    }

    /// Finds a room by id.
    pub fn find(store: &Store, room_id: i64) -> (r: Option<Room>)
        requires
            store.wf(),
        ensures
            match r {
                Some(room) => {
                    &&& has_room(store.rooms@, room_id)
                    &&& room == store.rooms@[room_index_of(store.rooms@, room_id)]
                    &&& room.id == room_id
                },
                None => !has_room(store.rooms@, room_id),
            },
    {
        let ghost rs = store.rooms@;
        let n = store.rooms.len();
        let mut i: usize = 0;
        while i < n
            invariant
                rs == store.rooms@,
                store.wf(),
                n == rs.len(),
                i <= n,
                forall|j: int| 0 <= j < i ==> #[trigger] rs[j].id != room_id,
            decreases n - i,
        {
            if store.rooms[i].id == room_id {
                proof {
                    lemma_room_index_unique(rs, room_id, i as int);
                }
                return Some(store.rooms[i].clone_room());
            }
            i = i + 1;
        }
        None
    }

    /// Updates a room's name, description and visibility: re-validates the
    /// name, refuses an unknown room, and refuses a name another room already
    /// carries.
    pub fn update(store: &mut Store, room: &Room) -> (r: Result<Room, ApiError>)
        requires
            old(store).wf(),
        ensures
            final(store).wf(),
            final(store).videos@ == old(store).videos@,
            final(store).next_video_id == old(store).next_video_id,
            final(store).next_room_id == old(store).next_room_id,
            ({
                let name_ok = is_valid_room_name(room.name@);
                let known = has_room(old(store).rooms@, room.id);
                let idx = room_index_of(old(store).rooms@, room.id);
                let taken_elsewhere = exists|j: int|
                    0 <= j < old(store).rooms@.len() && j != idx && #[trigger] old(
                        store,
                    ).rooms@[j].name@ == room.name@;
                match r {
                    Ok(updated) => {
                        &&& name_ok && known && !taken_elsewhere
                        &&& updated == Room {
                            id: room.id,
                            name: room.name,
                            description: room.description,
                            is_public: room.is_public,
                        }
                        &&& final(store).rooms@ == old(store).rooms@.update(idx, updated)
                    },
                    Err(e) => {
                        &&& final(store).rooms@ == old(store).rooms@
                        &&& if !name_ok {
                            e == ApiError::BadRequest
                        } else if !known {
                            e == ApiError::NotFound
                        } else {
                            taken_elsewhere && e == ApiError::Conflict
                        }
                    },
                }
            }),
    {
        if !name_matches_word_pattern(room.name.as_str()) {
            return Err(ApiError::BadRequest);
        }
        let ghost rs = store.rooms@;
        let n = store.rooms.len();
        let mut i: usize = 0;
        let mut found: Option<usize> = None;
        while i < n
            invariant
                *store == *old(store),
                old(store).wf(),
                rs == store.rooms@,
                n == rs.len(),
                i <= n,
                match found {
                    Some(k) => k < i && rs[k as int].id == room.id,
                    None => forall|j: int| 0 <= j < i ==> #[trigger] rs[j].id != room.id,
                },
            decreases n - i,
        {
            if store.rooms[i].id == room.id {
                found = Some(i);
                i = n;
            } else {
                i = i + 1;
            }
        }
        let idx = match found {
            Some(k) => k,
            None => {
                return Err(ApiError::NotFound);
            },
        };
        proof {
            lemma_room_index_unique(rs, room.id, idx as int);
        }
        let mut j: usize = 0;
        while j < n
            invariant
                *store == *old(store),
                old(store).wf(),
                rs == store.rooms@,
                n == rs.len(),
                j <= n,
                idx < n,
                rs[idx as int].id == room.id,
                has_room(rs, room.id),
                room_index_of(rs, room.id) == idx as int,
                forall|k: int| 0 <= k < j && k != idx ==> #[trigger] rs[k].name@ != room.name@,
            decreases n - j,
        {
            if j != idx && store.rooms[j].name == room.name {
                proof {
                    assert(0 <= j < rs.len() && j != idx && rs[j as int].name@ == room.name@);
                }
                return Err(ApiError::Conflict);
            }
            j = j + 1;
        }
        let updated = room.clone_room();
        let result = updated.clone_room();
        store.rooms[idx] = updated;
        proof {
            assert forall|a: int, b: int| 0 <= a < b < store.rooms@.len() implies #[trigger] store
                .rooms@[a].id < #[trigger] store.rooms@[b].id by {
                assert(rs[a].id < rs[b].id);
                if a != idx {
                    assert(store.rooms@[a] == rs[a]);
                }
                if b != idx {
                    assert(store.rooms@[b] == rs[b]);
                }
            }
            assert forall|a: int, b: int| 0 <= a < b < store.rooms@.len() implies #[trigger] store
                .rooms@[a].name@ != #[trigger] store.rooms@[b].name@ by {
                if a != idx && b != idx {
                    assert(store.rooms@[a] == rs[a] && store.rooms@[b] == rs[b]);
                }
            }
            assert forall|a: int| 0 <= a < old(store).videos@.len() implies has_room(
                store.rooms@,
                #[trigger] old(store).videos@[a].room_id,
            ) by {
                let w = choose|b: int|
                    0 <= b < rs.len() && rs[b].id == old(store).videos@[a].room_id;
                assert(store.rooms@[w].id == old(store).videos@[a].room_id);
            }
        }
        Ok(result)
    }

    /// Deletes a room: removes its record and its whole queue, and notifies
    /// the playback supervisor so the room's loop stops at its next poll.
    /// Deleting an unknown room is a quiet success, as repeating a delete
    /// must be.
    pub fn delete(store: &mut Store, sup: &mut Supervisor, room_id: i64) -> (r: Result<
        (),
        ApiError,
    >)
        requires
            old(store).wf(),
        ensures
            final(store).wf(),
            r == Ok::<(), ApiError>(()),
            final(store).next_room_id == old(store).next_room_id,
            final(store).next_video_id == old(store).next_video_id,
            final(store).rooms@ == old(store).rooms@.filter(other_room_pred(room_id)),
            final(store).videos@ == old(store).videos@.filter(other_video_pred(room_id)),
            final(sup).statuses@ == old(sup).statuses@.remove(room_id),
    {
        sup.stop(room_id);
        let ghost rs = store.rooms@;
        let ghost vs = store.videos@;
        let mut kept_rooms: Vec<Room> = Vec::new();
        let mut i: usize = 0;
        proof {
            reveal(Seq::filter);
            assert(rs.take(0).filter(other_room_pred(room_id)) =~= Seq::<Room>::empty());
        }
        while i < store.rooms.len()
            invariant
                rs == store.rooms@,
                vs == store.videos@,
                i <= rs.len(),
                kept_rooms@ == rs.take(i as int).filter(other_room_pred(room_id)),
                forall|a: int| 0 <= a < kept_rooms@.len() ==> exists|b: int|
                    0 <= b < i && rs[b] == #[trigger] kept_rooms@[a],
            decreases rs.len() - i,
        {
            proof {
                reveal(Seq::filter);
                assert(rs.take(i as int + 1).drop_last() =~= rs.take(i as int));
                assert(rs.take(i as int + 1).last() == rs[i as int]);
            }
            let room = &store.rooms[i];
            if room.id != room_id {
                let copy = room.clone_room();
                kept_rooms.push(copy);
            }
            i = i + 1;
        }
        let mut kept_videos: Vec<Video> = Vec::new();
        let mut k: usize = 0;
        proof {
            reveal(Seq::filter);
            assert(rs.take(rs.len() as int) =~= rs);
            assert(vs.take(0).filter(other_video_pred(room_id)) =~= Seq::<Video>::empty());
        }
        while k < store.videos.len()
            invariant
                rs == store.rooms@,
                vs == store.videos@,
                k <= vs.len(),
                kept_videos@ == vs.take(k as int).filter(other_video_pred(room_id)),
                forall|a: int| 0 <= a < kept_videos@.len() ==> exists|b: int|
                    0 <= b < k && vs[b] == #[trigger] kept_videos@[a],
            decreases vs.len() - k,
        {
            proof {
                reveal(Seq::filter);
                assert(vs.take(k as int + 1).drop_last() =~= vs.take(k as int));
                assert(vs.take(k as int + 1).last() == vs[k as int]);
            }
            let v = &store.videos[k];
            if v.room_id != room_id {
                let copy = v.clone_video();
                kept_videos.push(copy);
            }
            k = k + 1;
        }
        proof {
            assert(vs.take(vs.len() as int) =~= vs);
        }
        store.rooms = kept_rooms;
        store.videos = kept_videos;
        proof {
            lemma_delete_wf(*old(store), *store, room_id);
        }
        Ok(())
    }

    /// Lists rooms. Without a query, every room in id (creation) order; with
    /// one, the rooms whose name holds the query as a case-insensitive
    /// substring, in descending name order. Room names are unique, so the
    /// multiset of matches and the order pin the listing down.
    pub fn all(store: &Store, query: Option<String>) -> (r: Result<Vec<Room>, ApiError>)
        requires
            store.wf(),
        ensures
            r is Ok,
            match r {
                Ok(rooms) => match query {
                    None => rooms@ == store.rooms@,
                    Some(q) => {
                        &&& rooms@.to_multiset() == store.rooms@.filter(
                            query_match_pred(q@),
                        ).to_multiset()
                        &&& sorted_by_name_desc(rooms@)
                    },
                },
                Err(e) => false,
            },
    {
        let ghost rs = store.rooms@;
        match query {
            None => {
                let mut out: Vec<Room> = Vec::new();
                let mut i: usize = 0;
                while i < store.rooms.len()
                    invariant
                        rs == store.rooms@,
                        i <= rs.len(),
                        out@ == rs.take(i as int),
                    decreases rs.len() - i,
                {
                    let copy = store.rooms[i].clone_room();
                    out.push(copy);
                    proof {
                        assert(out@ =~= rs.take(i as int + 1));
                    }
                    i = i + 1;
                }
                proof {
                    assert(rs.take(rs.len() as int) =~= rs);
                }
                Ok(out)
            },
            Some(q) => {
                let mut matching: Vec<Room> = Vec::new();
                let mut i: usize = 0;
                proof {
                    reveal(Seq::filter);
                    assert(rs.take(0).filter(query_match_pred(q@)) =~= Seq::<Room>::empty());
                }
                while i < store.rooms.len()
                    invariant
                        rs == store.rooms@,
                        i <= rs.len(),
                        matching@ == rs.take(i as int).filter(query_match_pred(q@)),
                    decreases rs.len() - i,
                {
                    proof {
                        reveal(Seq::filter);
                        assert(rs.take(i as int + 1).drop_last() =~= rs.take(i as int));
                        assert(rs.take(i as int + 1).last() == rs[i as int]);
                    }
                    let room = &store.rooms[i];
                    if name_contains_query(room.name.as_str(), q.as_str()) {
                        let copy = room.clone_room();
                        matching.push(copy);
                    }
                    i = i + 1;
                }
                proof {
                    assert(rs.take(rs.len() as int) =~= rs);
                }
                let sorted = sort_rooms_by_name_desc(matching);
                Ok(sorted)
            },
        }
    }
}

/// Under well-formedness, room ids are unique, so the index `room_index_of`
/// picks is the index of any room found to carry the id.
proof fn lemma_room_index_unique(rooms: Seq<Room>, id: i64, found: int)
    requires
        forall|i: int, j: int|
            0 <= i < j < rooms.len() ==> #[trigger] rooms[i].id < #[trigger] rooms[j].id,
        0 <= found < rooms.len(),
        rooms[found].id == id,
    ensures
        room_index_of(rooms, id) == found,
        has_room(rooms, id),
{
    assert(has_room(rooms, id));
    let chosen = room_index_of(rooms, id);
    assert(0 <= chosen < rooms.len() && rooms[chosen].id == id);
    if chosen < found {
        assert(rooms[chosen].id < rooms[found].id);
    } else if found < chosen {
        assert(rooms[found].id < rooms[chosen].id);
    }
}

/// Keeping, in order, the rooms with another id and the queue items of other
/// rooms keeps the store well-formed.
proof fn lemma_delete_wf(pre: Store, post: Store, room_id: i64)
    requires
        pre.wf(),
        post.next_room_id == pre.next_room_id,
        post.next_video_id == pre.next_video_id,
        post.rooms@ == pre.rooms@.filter(other_room_pred(room_id)),
        post.videos@ == pre.videos@.filter(other_video_pred(room_id)),
        forall|a: int| 0 <= a < post.rooms@.len() ==> exists|b: int|
            0 <= b < pre.rooms@.len() && pre.rooms@[b] == #[trigger] post.rooms@[a],
        forall|a: int| 0 <= a < post.videos@.len() ==> exists|b: int|
            0 <= b < pre.videos@.len() && pre.videos@[b] == #[trigger] post.videos@[a],
    ensures
        post.wf(),
{
    lemma_filter_ordered(pre.rooms@, other_room_pred(room_id));
    lemma_filter_ordered(pre.videos@, other_video_pred(room_id));
    assert forall|a: int| 0 <= a < post.videos@.len() implies has_room(
        post.rooms@,
        #[trigger] post.videos@[a].room_id,
    ) by {
        let b = choose|b: int|
            0 <= b < pre.videos@.len() && pre.videos@[b] == post.videos@[a];
        let rid = post.videos@[a].room_id;
        assert(has_room(pre.rooms@, rid));
        let w = choose|w: int| 0 <= w < pre.rooms@.len() && pre.rooms@[w].id == rid;
        assert(rid != room_id);
        pre.rooms@.lemma_filter_contains(other_room_pred(room_id), w);
        let f = pre.rooms@.filter(other_room_pred(room_id));
        assert(f.contains(pre.rooms@[w]));
        let p = choose|p: int| 0 <= p < f.len() && f[p] == pre.rooms@[w];
        assert(post.rooms@[p].id == rid);
    }
}

/// The case-folded code of `c`.
fn lower_code_of(c: char) -> (r: u32)
    ensures
        r == lower_code(c),
{
    if c >= 'A' && c <= 'Z' {
        c as u32 + 32
    } else {
        c as u32
    }
}

/// Whether `query` occurs in `name` at position `k`.
fn matches_at(name: &Vec<char>, query: &Vec<char>, k: usize) -> (r: bool)
    requires
        k + query@.len() <= name@.len(),
    ensures
        r == query_matches_at(name@, query@, k as int),
{
    let nlen = name.len();
    let mut j: usize = 0;
    while j < query.len()
        invariant
            k + query@.len() <= name@.len(),
            nlen == name@.len(),
            j <= query@.len(),
            forall|m: int|
                0 <= m < j ==> lower_code(name@[k + m]) == lower_code(#[trigger] query@[m]),
        decreases query@.len() - j,
    {
        proof {
            assert(k + j < name@.len());
        }
        if lower_code_of(name[k + j]) != lower_code_of(query[j]) {
            return false;
        }
        j = j + 1;
    }
    true
}

/// Whether `name` holds `query` as a substring, compared case-insensitively.
fn name_contains_query(name: &str, query: &str) -> (r: bool)
    ensures
        r == name_matches_query(name@, query@),
{
    let nc = crate::duration::str_chars(name);
    let qc = crate::duration::str_chars(query);
    if qc.len() > nc.len() {
        return false;
    }
    let last = nc.len() - qc.len();
    let mut k: usize = 0;
    while k <= last
        invariant
            nc@ == name@,
            qc@ == query@,
            nc@.len() <= usize::MAX,
            last == nc@.len() - qc@.len(),
            k <= last + 1,
            forall|m: int| 0 <= m < k ==> !query_matches_at(name@, query@, m),
        decreases last + 1 - k,
    {
        if matches_at(&nc, &qc, k) {
            return true;
        }
        proof {
            // An empty query would have matched, so the query is non-empty
            // and the next candidate position stays in range.
            if qc@.len() == 0 {
                assert(query_matches_at(name@, query@, k as int));
            }
        }
        k = k + 1;
    }
    false
}

/// Whether `a` is at or before `b` in lexicographic character-code order.
fn name_le(a: &str, b: &str) -> (r: bool)
    ensures
        r == lex_le(a@, b@),
{
    let ac = crate::duration::str_chars(a);
    let bc = crate::duration::str_chars(b);
    let mut i: usize = 0;
    proof {
        assert(a@.skip(0) =~= a@);
        assert(b@.skip(0) =~= b@);
    }
    while i < ac.len() && i < bc.len()
        invariant
            ac@ == a@,
            bc@ == b@,
            i <= ac@.len(),
            i <= bc@.len(),
            lex_le(a@, b@) == lex_le(a@.skip(i as int), b@.skip(i as int)),
        decreases ac@.len() - i,
    {
        proof {
            assert(a@.skip(i as int)[0] == a@[i as int]);
            assert(b@.skip(i as int)[0] == b@[i as int]);
            assert(a@.skip(i as int).drop_first() =~= a@.skip(i as int + 1));
            assert(b@.skip(i as int).drop_first() =~= b@.skip(i as int + 1));
        }
        if ac[i] < bc[i] {
            return true;
        }
        if bc[i] < ac[i] {
            return false;
        }
        i = i + 1;
    }
    proof {
        if i >= ac@.len() {
            assert(a@.skip(i as int) =~= Seq::<char>::empty());
        } else {
            assert(b@.skip(i as int) =~= Seq::<char>::empty());
            assert(a@.skip(i as int).len() > 0);
        }
    }
    i >= ac.len()
}

/// Lexicographic order is total.
proof fn lemma_lex_total(a: Seq<char>, b: Seq<char>)
    ensures
        lex_le(a, b) || lex_le(b, a),
    decreases a.len(),
{
    if a.len() > 0 && b.len() > 0 && a[0] == b[0] {
        lemma_lex_total(a.drop_first(), b.drop_first());
    }
}

/// Lexicographic order is transitive.
proof fn lemma_lex_trans(a: Seq<char>, b: Seq<char>, c: Seq<char>)
    requires
        lex_le(a, b),
        lex_le(b, c),
    ensures
        lex_le(a, c),
    decreases a.len(),
{
    if a.len() > 0 && c.len() > 0 {
        assert(b.len() > 0);
        if (a[0] as int) == (c[0] as int) {
            assert(a[0] as int == b[0] as int && b[0] as int == c[0] as int);
            lemma_lex_trans(a.drop_first(), b.drop_first(), c.drop_first());
        }
    }
}

/// Inserting an element anywhere in a sequence adds it to the multiset.
proof fn lemma_insert_to_multiset<A>(s: Seq<A>, p: int, a: A)
    requires
        0 <= p <= s.len(),
    ensures
        s.insert(p, a).to_multiset() =~= s.to_multiset().insert(a),
{
    broadcast use vstd::seq_lib::group_to_multiset_ensures;
    broadcast use vstd::multiset::group_multiset_axioms;

    let pre = s.take(p);
    let post = s.skip(p);
    assert(s =~= pre + post);
    assert(s.insert(p, a) =~= pre + (seq![a] + post));
    vstd::seq_lib::lemma_multiset_commutative(pre, post);
    vstd::seq_lib::lemma_multiset_commutative(pre, seq![a] + post);
    vstd::seq_lib::lemma_multiset_commutative(seq![a], post);
    assert(seq![a] =~= Seq::<A>::empty().push(a));
    assert(Seq::<A>::empty().push(a).to_multiset() =~= Seq::<A>::empty().to_multiset().insert(a));
    assert forall|x: A| #[trigger] s.insert(p, a).to_multiset().count(x) == s.to_multiset().insert(
        a,
    ).count(x) by {
        assert(Seq::<A>::empty().to_multiset().len() == 0);
        assert(Seq::<A>::empty().to_multiset().count(x) == 0);
    }
}

/// Sorts rooms into descending name order by insertion.
fn sort_rooms_by_name_desc(rooms: Vec<Room>) -> (r: Vec<Room>)
    ensures
        r@.to_multiset() == rooms@.to_multiset(),
        sorted_by_name_desc(r@),
{
    broadcast use vstd::seq_lib::group_to_multiset_ensures;

    let ghost input = rooms@;
    let mut out: Vec<Room> = Vec::new();
    let mut i: usize = 0;
    proof {
        assert(input.take(0) =~= Seq::<Room>::empty());
        assert(out@ =~= input.take(0));
    }
    while i < rooms.len()
        invariant
            input == rooms@,
            i <= input.len(),
            out@.to_multiset() == input.take(i as int).to_multiset(),
            sorted_by_name_desc(out@),
        decreases input.len() - i,
    {
        let room = rooms[i].clone_room();
        let ghost pre_out = out@;
        let mut p: usize = 0;
        while p < out.len() && !name_le(out[p].name.as_str(), room.name.as_str())
            invariant
                out@ == pre_out,
                room == input[i as int],
                p <= out@.len(),
                forall|q: int| 0 <= q < p ==> !lex_le(#[trigger] out@[q].name@, room.name@),
            decreases out@.len() - p,
        {
            p = p + 1;
        }
        proof {
            assert(p == out@.len() || lex_le(out@[p as int].name@, room.name@));
        }
        out.insert(p, room);
        proof {
            let now = out@;
            assert(now == pre_out.insert(p as int, room));
            assert(forall|q: int| 0 <= q < p ==> now[q] == pre_out[q]);
            assert(now[p as int] == room);
            assert(forall|q: int| p < q < now.len() ==> now[q] == pre_out[q - 1]);
            assert forall|x: int, y: int| 0 <= x < y < now.len() implies lex_le(
                #[trigger] now[y].name@,
                #[trigger] now[x].name@,
            ) by {
                if y < p {
                    assert(now[x] == pre_out[x] && now[y] == pre_out[y]);
                } else if x > p {
                    assert(now[x] == pre_out[x - 1] && now[y] == pre_out[y - 1]);
                } else if y == p {
                    assert(now[y] == room && now[x] == pre_out[x]);
                    lemma_lex_total(pre_out[x].name@, room.name@);
                } else if x == p {
                    assert(now[x] == room && now[y] == pre_out[y - 1]);
                    assert(p <= y - 1 < pre_out.len());
                    assert(lex_le(pre_out[p as int].name@, room.name@));
                    if y - 1 > p {
                        assert(lex_le(pre_out[y - 1].name@, pre_out[p as int].name@));
                        lemma_lex_trans(pre_out[y - 1].name@, pre_out[p as int].name@, room.name@);
                    }
                } else {
                    assert(x < p && y > p);
                    assert(now[x] == pre_out[x] && now[y] == pre_out[y - 1]);
                }
            }
            lemma_insert_to_multiset(pre_out, p as int, room);
            input.take(i as int).to_multiset_ensures();
            assert(input.take(i as int + 1).drop_last() =~= input.take(i as int));
            assert(input.take(i as int + 1).last() == input[i as int]);
            assert(input.take(i as int + 1) =~= input.take(i as int).push(input[i as int]));
            assert(input.take(i as int).push(input[i as int]).to_multiset() =~= input.take(
                i as int,
            ).to_multiset().insert(input[i as int]));
            assert(now.to_multiset() =~= input.take(i as int + 1).to_multiset());
        }
        i = i + 1;
    }
    proof {
        assert(input.take(input.len() as int) =~= input);
    }
    out
}

/// Two positions of a filtered sequence come, in order, from two positions of
/// the original.
proof fn lemma_filter_ordered<A>(s: Seq<A>, pred: spec_fn(A) -> bool)
    ensures
        forall|i: int, j: int| 0 <= i < j < s.filter(pred).len() ==> exists|k: int, l: int|
            0 <= k < l < s.len() && s[k] == #[trigger] s.filter(pred)[i] && s[l]
                == #[trigger] s.filter(pred)[j],
        forall|i: int| 0 <= i < s.filter(pred).len() ==> exists|k: int|
            0 <= k < s.len() && s[k] == #[trigger] s.filter(pred)[i],
    decreases s.len(),
{
    reveal(Seq::filter);
    if s.len() > 0 {
        let rest = s.drop_last();
        lemma_filter_ordered(rest, pred);
        let f = s.filter(pred);
        let fr = rest.filter(pred);
        assert forall|i: int| 0 <= i < f.len() implies exists|k: int|
            0 <= k < s.len() && s[k] == #[trigger] f[i] by {
            if i < fr.len() {
                let k = choose|k: int| 0 <= k < rest.len() && rest[k] == fr[i];
                assert(s[k] == f[i]);
            } else {
                assert(f[i] == s.last());
                assert(s[s.len() - 1] == f[i]);
            }
        }
        assert forall|i: int, j: int| 0 <= i < j < f.len() implies exists|k: int, l: int|
            0 <= k < l < s.len() && s[k] == #[trigger] f[i] && s[l] == #[trigger] f[j] by {
            if j < fr.len() {
                let (k, l): (int, int) = choose|k: int, l: int|
                    0 <= k < l < rest.len() && rest[k] == fr[i] && rest[l] == fr[j];
                assert(s[k] == f[i] && s[l] == f[j]);
            } else {
                assert(f[j] == s.last());
                let k = choose|k: int| 0 <= k < rest.len() && rest[k] == fr[i];
                assert(s[k] == f[i] && s[s.len() - 1] == f[j]);
            }
        }
    }
}

} // verus!
