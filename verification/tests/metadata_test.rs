use youkebox::api_index;
use youkebox::errors::{ApiError, Error};
use youkebox::metadata::{
    join_video_ids, ContentDetails, PageInfo, YoutubeVideo, YoutubeVideoDetailed,
    YoutubeVideoSnippet, YoutubeVideoThumbnail, YoutubeVideoThumbnails, YoutubeVideosDetailed,
};
use youkebox::room::{NewRoom, Room};
use youkebox::store::Store;

fn thumbnails() -> YoutubeVideoThumbnails {
    YoutubeVideoThumbnails {
        default: Box::new(YoutubeVideoThumbnail {
            url: "http://example.test/default.jpg".to_string(),
            width: 120,
            height: 90,
        }),
        medium: Box::new(None),
        high: Box::new(None),
        standard: Box::new(None),
        maxres: Box::new(None),
    }
}

fn snippet(title: &str) -> YoutubeVideoSnippet {
    YoutubeVideoSnippet {
        publishedAt: "2018-01-01T00:00:00Z".to_string(),
        channelId: "channel".to_string(),
        title: title.to_string(),
        description: format!("{} description", title),
        thumbnails: Box::new(thumbnails()),
        channelTitle: "channel title".to_string(),
        tags: None,
        categoryId: Some("10".to_string()),
        liveBroadcastContent: "none".to_string(),
        defaultLanguage: None,
        localized: Box::new(None),
        defaultAudioLanguage: None,
    }
}

fn item(video_id: &str, title: &str, duration: &str) -> YoutubeVideoDetailed {
    YoutubeVideoDetailed {
        kind: "youtube#video".to_string(),
        etag: "etag".to_string(),
        id: video_id.to_string(),
        snippet: Box::new(snippet(title)),
        contentDetails: Box::new(ContentDetails {
            duration: duration.to_string(),
            dimension: None,
            definition: None,
            caption: None,
            licensedContent: None,
            regionRestriction: None,
            projection: "rectangular".to_string(),
            contentRating: None,
            hasCustomThumbnail: None,
        }),
    }
}

fn reply(items: Vec<YoutubeVideoDetailed>) -> YoutubeVideosDetailed {
    YoutubeVideosDetailed {
        kind: "youtube#videoListResponse".to_string(),
        etag: "etag".to_string(),
        nextPageToken: None,
        regionCode: None,
        pageInfo: Box::new(PageInfo { totalResults: 2, resultsPerPage: 2 }),
        items,
    }
}

#[test]
fn metadata_reply_enqueues_items_in_order() {
    let mut store = Store::new();
    let room = Room::create(
        &mut store,
        NewRoom { name: "lobby".to_string(), description: None, is_public: true },
    )
    .unwrap();
    let metadata = reply(vec![
        item("ssxNqBPRL6Y", "first", "PT0M2S"),
        item("_wy4tuFEpz0", "second", "PT0M3S"),
    ]);
    let videos = YoutubeVideo::get(&mut store, &metadata, room.id, 77).unwrap();
    assert_eq!(videos.len(), 2);
    assert_eq!(videos[0].video_id, "ssxNqBPRL6Y");
    assert_eq!(videos[0].title, "first");
    assert_eq!(videos[0].description, Some("first description".to_string()));
    assert_eq!(videos[0].duration, "PT0M2S");
    assert_eq!(videos[0].added_on, 77);
    assert!(!videos[0].played);
    assert_eq!(videos[0].started_on, None);
    assert_eq!(videos[1].video_id, "_wy4tuFEpz0");
    assert!(videos[1].id > videos[0].id);
    assert_eq!(store.videos.len(), 2);
}

#[test]
fn metadata_reply_for_unknown_room_is_not_found() {
    let mut store = Store::new();
    let metadata = reply(vec![item("a", "a", "PT1S")]);
    let r = YoutubeVideo::get(&mut store, &metadata, 9, 0);
    assert_eq!(r.unwrap_err(), ApiError::NotFound);
    assert_eq!(store.videos.len(), 0);
}

#[test]
fn metadata_reply_with_overlong_duration_is_bad_request() {
    let mut store = Store::new();
    let room = Room::create(
        &mut store,
        NewRoom { name: "lobby".to_string(), description: None, is_public: true },
    )
    .unwrap();
    let metadata = reply(vec![
        item("ok", "ok", "PT2S"),
        item("bad", "bad", "PT99999999999999999999S"),
    ]);
    let r = YoutubeVideo::get(&mut store, &metadata, room.id, 0);
    assert_eq!(r.unwrap_err(), ApiError::BadRequest);
    // Nothing was enqueued.
    assert_eq!(store.videos.len(), 0);
}

#[test]
fn metadata_reply_without_id_space_is_an_internal_error() {
    let mut store = Store::new();
    let room = Room::create(
        &mut store,
        NewRoom { name: "lobby".to_string(), description: None, is_public: true },
    )
    .unwrap();
    store.next_video_id = i64::MAX;
    let metadata = reply(vec![item("a", "a", "PT1S")]);
    let r = YoutubeVideo::get(&mut store, &metadata, room.id, 0);
    assert_eq!(r.unwrap_err(), ApiError::InternalError);
    assert_eq!(store.videos.len(), 0);
}

#[test]
fn join_video_ids_separates_with_commas() {
    let ids = vec!["ssxNqBPRL6Y".to_string(), "_wy4tuFEpz0".to_string(), "x".to_string()];
    assert_eq!(join_video_ids(&ids), "ssxNqBPRL6Y,_wy4tuFEpz0,x");
    assert_eq!(join_video_ids(&vec!["solo".to_string()]), "solo");
    assert_eq!(join_video_ids(&Vec::new()), "");
}

#[test]
fn api_error_status_codes() {
    assert_eq!(Error::of_api_error(&ApiError::BadRequest).status, 400);
    assert_eq!(Error::of_api_error(&ApiError::NotFound).status, 404);
    assert_eq!(Error::of_api_error(&ApiError::Conflict).status, 409);
    assert_eq!(Error::of_api_error(&ApiError::InvalidRoom).status, 400);
    assert_eq!(Error::of_api_error(&ApiError::InternalError).status, 500);
}

#[test]
fn api_index_greets() {
    assert_eq!(api_index(), "Welcome to the YoukeBox API.");
}
