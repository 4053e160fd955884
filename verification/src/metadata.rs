//! The video metadata a lookup service reports for a list of video ids, and
//! the enqueue path that turns such a reply into queue items.
//!
//! Fetching and decoding the reply is wire work and stays outside the
//! library; what arrives here are the decoded records. Only the id, title,
//! description and duration fields feed the queue.

use vstd::prelude::*;
use vstd::string::StringExecFns;
use crate::duration::{duration_fits, duration_to_seconds};
use crate::errors::ApiError;
use crate::room::Room;
use crate::store::{Store, has_room};
use crate::video::{NewVideo, Video};

verus! {

#[allow(non_snake_case)]
pub struct YoutubeVideoId {
    pub kind: String,
    pub videoId: String,
}

pub struct YoutubeVideoThumbnail {
    pub url: String,
    pub width: i16,
    pub height: i16,
}

pub struct YoutubeVideoThumbnails {
    pub default: Box<YoutubeVideoThumbnail>,
    pub medium: Box<Option<YoutubeVideoThumbnail>>,
    pub high: Box<Option<YoutubeVideoThumbnail>>,
    pub standard: Box<Option<YoutubeVideoThumbnail>>,
    pub maxres: Box<Option<YoutubeVideoThumbnail>>,
}

pub struct Localized {
    pub title: String,
    pub description: String,
}

#[allow(non_snake_case)]
pub struct YoutubeVideoSnippet {
    pub publishedAt: String,
    pub channelId: String,
    pub title: String,
    pub description: String,
    pub thumbnails: Box<YoutubeVideoThumbnails>,
    pub channelTitle: String,
    pub tags: Option<Vec<String>>,
    pub categoryId: Option<String>,
    pub liveBroadcastContent: String,
    pub defaultLanguage: Option<String>,
    pub localized: Box<Option<Localized>>,
    pub defaultAudioLanguage: Option<String>,
}

#[allow(non_snake_case)]
pub struct YoutubeVideo {
    pub kind: String,
    pub etag: String,
    pub id: Box<YoutubeVideoId>,
    pub snippet: Box<YoutubeVideoSnippet>,
    pub ContentDetails: Box<Option<ContentDetails>>,
}

#[allow(non_snake_case)]
pub struct YoutubeVideoDetailed {
    pub kind: String,
    pub etag: String,
    pub id: String,
    pub snippet: Box<YoutubeVideoSnippet>,
    pub contentDetails: Box<ContentDetails>,
}

#[allow(non_snake_case)]
pub struct ContentDetails {
    pub duration: String,
    pub dimension: Option<String>,
    pub definition: Option<String>,
    pub caption: Option<String>,
    pub licensedContent: Option<bool>,
    pub regionRestriction: Option<String>,
    pub projection: String,
    pub contentRating: Option<String>,
    pub hasCustomThumbnail: Option<bool>,
}

#[allow(non_snake_case)]
pub struct PageInfo {
    pub totalResults: u32,
    pub resultsPerPage: u8,
}

/// A full search reply.
#[allow(non_snake_case)]
pub struct YoutubeVideos {
    pub kind: String,
    pub etag: String,
    pub nextPageToken: Option<String>,
    pub regionCode: Option<String>,
    pub pageInfo: Box<Option<PageInfo>>,
    pub items: Vec<YoutubeVideo>,
}

/// A full detailed-lookup reply.
#[allow(non_snake_case)]
pub struct YoutubeVideosDetailed {
    pub kind: String,
    pub etag: String,
    pub nextPageToken: Option<String>,
    pub regionCode: Option<String>,
    pub pageInfo: Box<PageInfo>,
    pub items: Vec<YoutubeVideoDetailed>,
}

/// The queue item a metadata record enqueues into a room: its id, title,
/// description and duration string, stamped with the enqueue instant.
pub open spec fn video_of_item(
    item: YoutubeVideoDetailed,
    id: int,
    room_id: i64,
    now: u64,
) -> Video {
    Video {
        id: id as i64,
        video_id: item.id,
        title: item.snippet.title,
        description: Some(item.snippet.description),
        room_id: room_id,
        duration: item.contentDetails.duration,
        played: false,
        added_on: now,
        started_on: None,
    }
}

/// The ids joined by commas, as the lookup request wants them:
/// the first `n` entries of `ids`.
pub open spec fn comma_joined(ids: Seq<String>, n: int) -> Seq<char>
    decreases n,
{
    if n <= 0 {
        Seq::empty()
    } else if n == 1 {
        ids[0]@
    } else {
        comma_joined(ids, n - 1) + seq![','] + ids[n - 1]@
    }
}

/// Joins video ids with commas for a metadata lookup request, as in
/// `"ssxNqBPRL6Y,_wy4tuFEpz0"`.
pub fn join_video_ids(ids: &Vec<String>) -> (r: String)
    ensures
        r@ == comma_joined(ids@, ids@.len() as int),
{
    let mut r = String::new();
    let mut i: usize = 0;
    while i < ids.len()
        invariant
            i <= ids@.len(),
            r@ == comma_joined(ids@, i as int),
        decreases ids@.len() - i,
    {
        if i > 0 {
            r.append(",");
            proof {
                reveal_strlit(",");
                assert(","@ =~= seq![',']);
            }
        }
        r.append(ids[i].as_str());
        proof {
            if i == 0 {
                assert(Seq::<char>::empty() + ids@[0]@ =~= ids@[0]@);
            }
        }
        i = i + 1;
    }
    r
}

impl YoutubeVideo {
    /// Enqueues the videos of a decoded metadata reply into a room: each
    /// record becomes one unplayed queue item, in reply order, stamped with
    /// the enqueue instant `now`. An unknown room is refused as not found, a
    /// record whose duration does not parse as bad input (nothing is
    /// enqueued), and an id space too small for the reply as an internal
    /// error.
    pub fn get(store: &mut Store, metadata: &YoutubeVideosDetailed, room_id: i64, now: u64) -> (r:
        Result<Vec<Video>, ApiError>)
        requires
            old(store).wf(),
        ensures
            final(store).wf(),
            final(store).rooms@ == old(store).rooms@,
            final(store).next_room_id == old(store).next_room_id,
            ({
                let items = metadata.items@;
                let known = has_room(old(store).rooms@, room_id);
                let durations_ok = forall|k: int|
                    0 <= k < items.len() ==> duration_fits(#[trigger] items[k].contentDetails.duration@);
                let capacity_ok = old(store).next_video_id + items.len() <= i64::MAX;
                match r {
                    Ok(videos) => {
                        &&& known && durations_ok && capacity_ok
                        &&& videos@.len() == items.len()
                        &&& forall|k: int|
                            0 <= k < items.len() ==> #[trigger] videos@[k] == video_of_item(
                                items[k],
                                old(store).next_video_id + k,
                                room_id,
                                now,
                            )
                        &&& final(store).videos@ == old(store).videos@ + videos@
                        &&& final(store).next_video_id == old(store).next_video_id + items.len()
                    },
                    Err(e) => {
                        &&& final(store).videos@ == old(store).videos@
                        &&& final(store).next_video_id == old(store).next_video_id
                        &&& if !known {
                            e == ApiError::NotFound
                        } else if !durations_ok {
                            e == ApiError::BadRequest
                        } else {
                            !capacity_ok && e == ApiError::InternalError
                        }
                    },
                }
            }),
    {
        let ghost items = metadata.items@;
        if Room::find(store, room_id).is_none() {
            return Err(ApiError::NotFound);
        }
        let n = metadata.items.len();
        let mut k: usize = 0;
        while k < n
            invariant
                *store == *old(store),
                old(store).wf(),
                items == metadata.items@,
                n == items.len(),
                k <= n,
                has_room(store.rooms@, room_id),
                forall|j: int|
                    0 <= j < k ==> duration_fits(#[trigger] items[j].contentDetails.duration@),
            decreases n - k,
        {
            match duration_to_seconds(metadata.items[k].contentDetails.duration.as_str()) {
                Ok(_) => {},
                Err(_) => {
                    return Err(ApiError::BadRequest);
                },
            }
            k = k + 1;
        }
        if (n as u64) > ((i64::MAX - store.next_video_id) as u64) {
            return Err(ApiError::InternalError);
        }
        let ghost base = store.next_video_id;
        let mut out: Vec<Video> = Vec::new();
        let mut i: usize = 0;
        while i < n
            invariant
                old(store).wf(),
                store.wf(),
                items == metadata.items@,
                n == items.len(),
                i <= n,
                base == old(store).next_video_id,
                base + n <= i64::MAX,
                store.rooms@ == old(store).rooms@,
                store.next_room_id == old(store).next_room_id,
                store.next_video_id == base + i,
                has_room(store.rooms@, room_id),
                forall|j: int|
                    0 <= j < n ==> duration_fits(#[trigger] items[j].contentDetails.duration@),
                out@.len() == i,
                forall|k2: int|
                    0 <= k2 < i ==> #[trigger] out@[k2] == video_of_item(
                        items[k2],
                        base + k2,
                        room_id,
                        now,
                    ),
                store.videos@ == old(store).videos@ + out@,
            decreases n - i,
        {
            let item = &metadata.items[i];
            let nv = NewVideo {
                video_id: item.id.clone(),
                title: item.snippet.title.clone(),
                description: Some(item.snippet.description.clone()),
                room_id: room_id,
                duration: item.contentDetails.duration.clone(),
                added_on: now,
            };
            let v = store.add_video(nv);
            proof {
                assert(v == video_of_item(items[i as int], base + i, room_id, now));
            }
            out.push(v);
            proof {
                assert(store.videos@ =~= old(store).videos@ + out@);
            }
            i = i + 1;
        }
        proof {
            assert(store.videos@ == old(store).videos@ + out@);
        }
        Ok(out)
    }
}

} // verus!
