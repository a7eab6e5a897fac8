use beatcache::beatsaver::{
    load_browse_from_cache, load_map_from_cache, save_browse_to_cache, save_map_to_cache,
    BeatSaverDiff, BeatSaverMap, BeatSaverMapVersion, BeatSaverMetadata, BeatSaverStats,
};
use beatcache::lyrics::{
    check_cache_has_internal, check_cache_internal, lyrics_cache_check, lyrics_cache_has,
    save_not_found, save_to_cache, LrcLibResponse, LyricsCacheStatus,
};
use beatcache::mapdata::{
    has_downloaded_map, load_downloaded_map, save_downloaded_map, BeatSaverMapData,
};
use beatcache::store::CacheDb;

fn open_db() -> CacheDb {
    CacheDb::new(rusqlite::Connection::open_in_memory().unwrap()).unwrap()
}

fn sample_bundle() -> BeatSaverMapData {
    BeatSaverMapData {
        info_dat: "{\"version\":\"2.0.0\"}".to_string(),
        beatmaps: vec![
            ("Easy.dat".to_string(), "easy".to_string()),
            ("ExpertPlus.dat".to_string(), "expert+".to_string()),
        ],
        audio_base64: "c29uZw==".to_string(),
        cover_base64: None,
    }
}

fn sample_map(id: &str) -> BeatSaverMap {
    BeatSaverMap {
        id: id.to_string(),
        name: "A Map".to_string(),
        description: "desc".to_string(),
        metadata: BeatSaverMetadata {
            bpm: "128.5".to_string(),
            duration: "213".to_string(),
            song_name: "Song".to_string(),
            song_sub_name: "Sub".to_string(),
            song_author_name: "Author".to_string(),
            level_author_name: "Mapper".to_string(),
        },
        stats: BeatSaverStats {
            plays: 10,
            downloads: 20,
            upvotes: 30,
            downvotes: 4,
            score: "0.88".to_string(),
        },
        uploaded: "2024-05-01T00:00:00Z".to_string(),
        automapper: false,
        versions: vec![BeatSaverMapVersion {
            hash: "deadbeef".to_string(),
            key: "k1".to_string(),
            state: "Published".to_string(),
            download_url: "https://example.invalid/map.zip".to_string(),
            cover_url: "https://example.invalid/cover.png".to_string(),
            preview_url: "https://example.invalid/preview.mp3".to_string(),
            diffs: vec![BeatSaverDiff {
                njs: "16.0".to_string(),
                offset: "-0.2".to_string(),
                notes: 500,
                bombs: 3,
                obstacles: 12,
                nps: "5.4".to_string(),
                characteristic: "Standard".to_string(),
                difficulty: "ExpertPlus".to_string(),
            }],
        }],
    }
}

fn sample_lyrics() -> LrcLibResponse {
    LrcLibResponse {
        id: 4242,
        track_name: "Track".to_string(),
        artist_name: "Artist".to_string(),
        album_name: "Album".to_string(),
        duration: "233.5".to_string(),
        instrumental: false,
        plain_lyrics: Some("la la la".to_string()),
        synced_lyrics: None,
    }
}

#[test]
fn bundle_save_then_load_round_trips() {
    let mut db = open_db();
    let data = sample_bundle();
    save_downloaded_map(&mut db, "map1", &data).unwrap();
    let loaded = load_downloaded_map(&db, "map1").unwrap().unwrap();
    assert_eq!(loaded.info_dat, data.info_dat);
    assert_eq!(loaded.beatmaps, data.beatmaps);
    assert_eq!(loaded.audio_base64, data.audio_base64);
    assert_eq!(loaded.cover_base64, data.cover_base64);
}

#[test]
fn bundle_cover_round_trips() {
    let mut db = open_db();
    let mut data = sample_bundle();
    data.cover_base64 = Some("Y292ZXI=".to_string());
    save_downloaded_map(&mut db, "map2", &data).unwrap();
    let loaded = load_downloaded_map(&db, "map2").unwrap().unwrap();
    assert_eq!(loaded.cover_base64.as_deref(), Some("Y292ZXI="));
}

#[test]
fn bundle_absent_key_loads_nothing() {
    let db = open_db();
    assert!(load_downloaded_map(&db, "nope").unwrap().is_none());
    assert!(!has_downloaded_map(&db, "nope").unwrap());
}

#[test]
fn bundle_existence_check() {
    let mut db = open_db();
    assert!(!has_downloaded_map(&db, "map1").unwrap());
    save_downloaded_map(&mut db, "map1", &sample_bundle()).unwrap();
    assert!(has_downloaded_map(&db, "map1").unwrap());
}

#[test]
fn bundle_last_write_wins() {
    let mut db = open_db();
    let first = sample_bundle();
    let mut second = sample_bundle();
    second.info_dat = "{\"version\":\"2.1.0\"}".to_string();
    save_downloaded_map(&mut db, "map1", &first).unwrap();
    save_downloaded_map(&mut db, "map1", &second).unwrap();
    let loaded = load_downloaded_map(&db, "map1").unwrap().unwrap();
    assert_eq!(loaded.info_dat, second.info_dat);
}

#[test]
fn map_record_save_then_load_round_trips() {
    let mut db = open_db();
    let map = sample_map("abc1");
    save_map_to_cache(&mut db, &map).unwrap();
    let loaded = load_map_from_cache(&db, "abc1").unwrap().unwrap();
    assert_eq!(loaded.id, map.id);
    assert_eq!(loaded.name, map.name);
    assert_eq!(loaded.metadata.bpm, map.metadata.bpm);
    assert_eq!(loaded.stats.downvotes, map.stats.downvotes);
    assert_eq!(loaded.uploaded, map.uploaded);
    assert_eq!(loaded.automapper, map.automapper);
    assert_eq!(loaded.versions.len(), 1);
    assert_eq!(loaded.versions[0].hash, "deadbeef");
    assert_eq!(loaded.versions[0].diffs.len(), 1);
    assert_eq!(loaded.versions[0].diffs[0].offset, "-0.2");
    assert_eq!(loaded.versions[0].diffs[0].notes, 500);
}

#[test]
fn map_record_absent_id_loads_nothing() {
    let db = open_db();
    assert!(load_map_from_cache(&db, "missing").unwrap().is_none());
}

#[test]
fn browse_category_cache_precedence() {
    let mut db = open_db();
    let maps = vec![sample_map("id1"), sample_map("id2"), sample_map("id3")];
    save_browse_to_cache(&mut db, "latest", &maps).unwrap();
    // The cache-first lookup answers from the store without any network
    // adapter, and keeps the listing order.
    let cached = load_browse_from_cache(&db, "latest").unwrap().unwrap();
    let ids: Vec<&str> = cached.iter().map(|m| m.id.as_str()).collect();
    assert_eq!(ids, ["id1", "id2", "id3"]);
}

#[test]
fn browse_unknown_category_loads_nothing() {
    let db = open_db();
    assert!(load_browse_from_cache(&db, "nope").unwrap().is_none());
}

#[test]
fn browse_empty_listing_counts_as_missing() {
    let mut db = open_db();
    save_browse_to_cache(&mut db, "empty", &vec![]).unwrap();
    assert!(load_browse_from_cache(&db, "empty").unwrap().is_none());
}

#[test]
fn browse_replaces_previous_listing() {
    let mut db = open_db();
    save_browse_to_cache(&mut db, "latest", &vec![sample_map("old1")]).unwrap();
    save_browse_to_cache(&mut db, "latest", &vec![sample_map("new1"), sample_map("new2")])
        .unwrap();
    let cached = load_browse_from_cache(&db, "latest").unwrap().unwrap();
    let ids: Vec<&str> = cached.iter().map(|m| m.id.as_str()).collect();
    assert_eq!(ids, ["new1", "new2"]);
}

#[test]
fn lyrics_save_then_check_round_trips() {
    let mut db = open_db();
    let rec = sample_lyrics();
    save_to_cache(&mut db, "artist:track", &rec).unwrap();
    let entry = check_cache_internal(&db, "artist:track").unwrap().unwrap();
    assert!(entry.found);
    let data = entry.data.unwrap();
    assert_eq!(data.id, rec.id);
    assert_eq!(data.track_name, rec.track_name);
    assert_eq!(data.duration, rec.duration);
    assert_eq!(data.plain_lyrics, rec.plain_lyrics);
    assert_eq!(data.synced_lyrics, rec.synced_lyrics);
}

#[test]
fn lyrics_negative_entry_reads_back_as_absent_verdict() {
    let mut db = open_db();
    save_not_found(&mut db, "artist:track", "Track", "Artist").unwrap();
    let entry = check_cache_internal(&db, "artist:track").unwrap().unwrap();
    assert!(!entry.found);
    assert!(entry.data.is_none());
}

#[test]
fn lyrics_unknown_key_checks_as_never_looked_up() {
    let db = open_db();
    assert!(check_cache_internal(&db, "nobody:nothing").unwrap().is_none());
    assert!(lyrics_cache_check(&db, "Nothing", Some("Nobody")).unwrap().is_none());
}

#[test]
fn lyrics_probe_reports_text_presence() {
    let mut db = open_db();
    save_to_cache(&mut db, "a:one", &sample_lyrics()).unwrap();
    let mut instrumental = sample_lyrics();
    instrumental.plain_lyrics = None;
    instrumental.synced_lyrics = None;
    instrumental.instrumental = true;
    save_to_cache(&mut db, "a:two", &instrumental).unwrap();
    save_not_found(&mut db, "a:three", "Three", "A").unwrap();
    assert_eq!(
        check_cache_has_internal(&db, "a:one").unwrap().unwrap(),
        LyricsCacheStatus { found: true, has_lyrics: true }
    );
    assert_eq!(
        check_cache_has_internal(&db, "a:two").unwrap().unwrap(),
        LyricsCacheStatus { found: true, has_lyrics: false }
    );
    assert_eq!(
        check_cache_has_internal(&db, "a:three").unwrap().unwrap(),
        LyricsCacheStatus { found: false, has_lyrics: false }
    );
    assert!(check_cache_has_internal(&db, "a:four").unwrap().is_none());
}

#[test]
fn lyrics_probe_by_request_identity() {
    let mut db = open_db();
    save_to_cache(&mut db, "artist:track", &sample_lyrics()).unwrap();
    let st = lyrics_cache_has(&db, "Track", Some("Artist")).unwrap().unwrap();
    assert_eq!(st, LyricsCacheStatus { found: true, has_lyrics: true });
}

#[test]
fn lyrics_latest_save_wins() {
    let mut db = open_db();
    save_not_found(&mut db, "artist:track", "Track", "Artist").unwrap();
    save_to_cache(&mut db, "artist:track", &sample_lyrics()).unwrap();
    let entry = check_cache_internal(&db, "artist:track").unwrap().unwrap();
    assert!(entry.found);
    save_not_found(&mut db, "artist:track", "Track", "Artist").unwrap();
    let entry2 = check_cache_internal(&db, "artist:track").unwrap().unwrap();
    assert!(!entry2.found);
}
