use beatcache::beatsaver::{
    store_downloaded_track, track_apply_outcome, track_cached_result, TrackFetchOutcome,
    TrackFetchRequest,
};
use beatcache::lyrics::{
    lyrics_apply_outcome, lyrics_cache_check, lyrics_cached_result, make_cache_key,
    prepare_lyrics_fetch, LrcLibResponse, LyricsFetchOutcome,
};
use beatcache::mapdata::has_downloaded_map;
use beatcache::store::CacheDb;
use std::io::Write;
use zip::write::SimpleFileOptions;

fn open_worker_db() -> CacheDb {
    CacheDb::new(rusqlite::Connection::open_in_memory().unwrap()).unwrap()
}

fn container_bytes() -> Vec<u8> {
    let mut w = zip::ZipWriter::new(std::io::Cursor::new(Vec::new()));
    for (name, data) in [
        ("Info.dat", b"{}".as_slice()),
        ("Easy.dat", b"notes".as_slice()),
        ("song.egg", b"audio-bytes".as_slice()),
    ] {
        w.start_file(name, SimpleFileOptions::default()).unwrap();
        w.write_all(data).unwrap();
    }
    w.finish().unwrap().into_inner()
}

fn track_request(id: &str) -> TrackFetchRequest {
    TrackFetchRequest {
        map_id: id.to_string(),
        download_url: "https://example.invalid/map.zip".to_string(),
    }
}

fn found_record() -> LrcLibResponse {
    LrcLibResponse {
        id: 7,
        track_name: "Track".to_string(),
        artist_name: "Artist".to_string(),
        album_name: "Album".to_string(),
        duration: "180".to_string(),
        instrumental: false,
        plain_lyrics: Some("text".to_string()),
        synced_lyrics: Some("[00:01.00] text".to_string()),
    }
}

#[test]
fn track_dedup_one_fetch_then_short_circuit() {
    let mut db = open_worker_db();
    let req = track_request("dedup1");
    let key = req.map_id.clone();

    // Two rapid enqueues of the same key: the worker drains them in order.
    // First entry: the store has nothing, so a real fetch happens.
    assert!(track_cached_result(&db, &key).unwrap().is_none());
    let first = track_apply_outcome(&mut db, &req, TrackFetchOutcome::Body(container_bytes()));
    assert_eq!(first.status, "success");
    assert!(first.error.is_none());

    // Second entry: the re-check short-circuits; no fetch is performed.
    let second = track_cached_result(&db, &key).unwrap().unwrap();
    assert_eq!(second.status, "already_cached");
    assert_eq!(second.map_id, "dedup1");
    assert!(second.error.is_none());
}

#[test]
fn track_worker_success_persists_bundle() {
    let mut db = open_worker_db();
    let req = track_request("t1");
    let res = track_apply_outcome(&mut db, &req, TrackFetchOutcome::Body(container_bytes()));
    assert_eq!(res.status, "success");
    assert!(has_downloaded_map(&db, "t1").unwrap());
}

#[test]
fn track_worker_failure_branches() {
    let mut db = open_worker_db();
    let req = track_request("t2");

    let r = track_apply_outcome(&mut db, &req, TrackFetchOutcome::Transport("boom".to_string()));
    assert_eq!(r.status, "error");
    assert_eq!(r.error.as_deref(), Some("Download failed: boom"));

    let r = track_apply_outcome(&mut db, &req, TrackFetchOutcome::Http(503));
    assert_eq!(r.status, "error");
    assert_eq!(r.error.as_deref(), Some("HTTP 503"));

    let r = track_apply_outcome(
        &mut db,
        &req,
        TrackFetchOutcome::ReadFailed("cut off".to_string()),
    );
    assert_eq!(r.status, "error");
    assert_eq!(r.error.as_deref(), Some("Download read failed: cut off"));

    let r = track_apply_outcome(&mut db, &req, TrackFetchOutcome::Body(b"garbage".to_vec()));
    assert_eq!(r.status, "error");
    assert!(r.error.unwrap().starts_with("ZIP error: "));

    // None of the failures cached anything.
    assert!(!has_downloaded_map(&db, "t2").unwrap());
}

#[test]
fn track_sync_fetch_stores_inline() {
    let mut db = open_worker_db();
    let data = store_downloaded_track(&mut db, "sync1", &container_bytes()).unwrap();
    assert_eq!(data.info_dat, "{}");
    assert!(has_downloaded_map(&db, "sync1").unwrap());
    let err = store_downloaded_track(&mut db, "sync2", &b"junk".to_vec()).unwrap_err();
    assert!(err.starts_with("ZIP error: "));
    assert!(!has_downloaded_map(&db, "sync2").unwrap());
}

#[test]
fn lyrics_dedup_one_fetch_then_short_circuit() {
    let mut db = open_worker_db();
    let (req, key) = prepare_lyrics_fetch("Track".to_string(), Some("Artist".to_string()), None, None);

    // First queued entry: nothing cached, a real lookup happens.
    assert!(lyrics_cached_result(&db, &key).unwrap().is_none());
    let first = lyrics_apply_outcome(&mut db, &key, &req, LyricsFetchOutcome::Parsed(found_record()));
    assert_eq!(first.status, "success");

    // Second queued entry with the same key: answered from the cache.
    let second = lyrics_cached_result(&db, &key).unwrap().unwrap();
    assert_eq!(second.status, "success");
    assert_eq!(second.cache_key, key);
    assert!(second.data.is_some());
    assert!(second.error.is_none());
}

#[test]
fn lyrics_not_found_is_negatively_cached() {
    let mut db = open_worker_db();
    let (req, key) = prepare_lyrics_fetch("Track".to_string(), Some("Artist".to_string()), None, None);

    let res = lyrics_apply_outcome(&mut db, &key, &req, LyricsFetchOutcome::Http(404));
    assert_eq!(res.status, "not_found");
    assert!(res.data.is_none());
    assert!(res.error.is_none());

    // A later synchronous check answers the stored verdict, no network call.
    let entry = lyrics_cache_check(&db, "Track", Some("Artist")).unwrap().unwrap();
    assert!(!entry.found);
    assert!(entry.data.is_none());

    // And the worker's own re-check short-circuits to the same verdict.
    let again = lyrics_cached_result(&db, &key).unwrap().unwrap();
    assert_eq!(again.status, "not_found");
}

#[test]
fn lyrics_worker_failure_branches() {
    let mut db = open_worker_db();
    let (req, key) = prepare_lyrics_fetch("Track".to_string(), None, None, None);

    let r = lyrics_apply_outcome(&mut db, &key, &req, LyricsFetchOutcome::Transport("down".to_string()));
    assert_eq!(r.status, "error");
    assert_eq!(r.error.as_deref(), Some("HTTP request failed: down"));

    let r = lyrics_apply_outcome(&mut db, &key, &req, LyricsFetchOutcome::Http(500));
    assert_eq!(r.status, "error");
    assert_eq!(r.error.as_deref(), Some("LRCLIB API error: 500"));

    let r = lyrics_apply_outcome(
        &mut db,
        &key,
        &req,
        LyricsFetchOutcome::ParseFailed("bad json".to_string()),
    );
    assert_eq!(r.status, "error");
    assert_eq!(r.error.as_deref(), Some("JSON parse error: bad json"));

    // Failures are not cached: the key still reads as never looked up.
    assert!(lyrics_cache_check(&db, "Track", None).unwrap().is_none());
}

#[test]
fn lyrics_success_reproduces_record() {
    let mut db = open_worker_db();
    let (req, key) = prepare_lyrics_fetch(
        "Track".to_string(),
        Some("Artist".to_string()),
        Some("Album".to_string()),
        Some(180),
    );
    let rec = found_record();
    let res = lyrics_apply_outcome(&mut db, &key, &req, LyricsFetchOutcome::Parsed(rec));
    assert_eq!(res.status, "success");
    let data = res.data.unwrap();
    assert_eq!(data.id, 7);

    let entry = lyrics_cache_check(&db, "Track", Some("Artist")).unwrap().unwrap();
    assert!(entry.found);
    assert_eq!(entry.data.unwrap().synced_lyrics.as_deref(), Some("[00:01.00] text"));
}

#[test]
fn lyrics_prepare_returns_correlation_key() {
    let (req, key) = prepare_lyrics_fetch(
        "My Song".to_string(),
        Some("The Band".to_string()),
        None,
        Some(90),
    );
    assert_eq!(key, make_cache_key("My Song", Some("The Band")));
    assert_eq!(req.track_name, "My Song");
    assert_eq!(req.duration, Some(90));
}
