use beatcache::lyrics::{build_lyrics_params, make_cache_key, LyricsFetchRequest};
use beatcache::numbers::{i64_to_dec, u64_to_dec};
use beatcache::search::{
    build_browse_url, build_map_url, build_search_params, default_page_size,
    BeatSaverSearchFilters,
};

fn plain_filters() -> BeatSaverSearchFilters {
    BeatSaverSearchFilters {
        sort_order: "Relevance".to_string(),
        tags: vec![],
        exclude_tags: vec![],
        min_bpm: None,
        max_bpm: None,
        min_nps: None,
        max_nps: None,
        min_duration: None,
        max_duration: None,
        min_rating: None,
        max_rating: None,
        curated: None,
        verified: None,
        automapper: None,
        from: None,
        to: None,
        leaderboard: None,
        page_size: 20,
    }
}

#[test]
fn default_page_size_is_twenty() {
    assert_eq!(default_page_size(), 20);
}

#[test]
fn search_url_deterministic() {
    let f1 = plain_filters();
    let f2 = plain_filters();
    let a = build_search_params("hello", 0, &f1);
    let b = build_search_params("hello", 0, &f2);
    assert_eq!(a, b);
}

#[test]
fn search_url_plain() {
    let url = build_search_params("hello", 0, &plain_filters());
    assert_eq!(
        url,
        "https://api.beatsaver.com/search/text/0?q=hello&sortOrder=Relevance"
    );
}

#[test]
fn search_url_default_page_size_has_no_parameter() {
    let url = build_search_params("x", 1, &plain_filters());
    assert!(!url.contains("pageSize"));
}

#[test]
fn search_url_page_size_fifty_has_parameter() {
    let mut f = plain_filters();
    f.page_size = 50;
    let url = build_search_params("x", 1, &f);
    assert!(url.ends_with("&pageSize=50"));
}

#[test]
fn search_url_full_filters() {
    let f = BeatSaverSearchFilters {
        sort_order: "Rating".to_string(),
        tags: vec!["pop".to_string(), "dance".to_string()],
        exclude_tags: vec!["meme".to_string()],
        min_bpm: Some("120".to_string()),
        max_bpm: Some("180.5".to_string()),
        min_nps: None,
        max_nps: None,
        min_duration: Some("60".to_string()),
        max_duration: None,
        min_rating: Some("0.7".to_string()),
        max_rating: None,
        curated: Some(true),
        verified: Some(false),
        automapper: None,
        from: Some("2024-01-01".to_string()),
        to: Some("".to_string()),
        leaderboard: Some("All".to_string()),
        page_size: 50,
    };
    let url = build_search_params("  hello world  ", 2, &f);
    assert_eq!(
        url,
        "https://api.beatsaver.com/search/text/2?q=hello%20world&sortOrder=Rating\
         &tags=pop%2Cdance%2C%21meme&minBpm=120&maxBpm=180.5&minDuration=60\
         &minRating=0.7&curated=true&verified=false&from=2024-01-01\
         &leaderboard=All&pageSize=50"
    );
}

#[test]
fn search_url_empty_query_omits_term() {
    let url = build_search_params("   ", 0, &plain_filters());
    assert_eq!(
        url,
        "https://api.beatsaver.com/search/text/0?sortOrder=Relevance"
    );
}

#[test]
fn browse_url_exact() {
    assert_eq!(
        build_browse_url("curated maps", 20),
        "https://api.beatsaver.com/maps/latest?sort=curated%20maps&automapper=false&pageSize=20"
    );
}

#[test]
fn map_url_exact() {
    assert_eq!(
        build_map_url("abc 123"),
        "https://api.beatsaver.com/maps/id/abc%20123"
    );
}

#[test]
fn cache_key_lowercases_artist_and_track() {
    assert_eq!(make_cache_key("My Song", Some("The Artist")), "the artist:my song");
}

#[test]
fn cache_key_unknown_artist() {
    assert_eq!(make_cache_key("Song", None), "unknown:song");
}

#[test]
fn cache_key_unicode() {
    assert_eq!(make_cache_key("LIED", Some("BJÖRK")), "björk:lied");
}

#[test]
fn lyrics_params_full() {
    let req = LyricsFetchRequest {
        track_name: "Track".to_string(),
        artist_name: Some("Artist".to_string()),
        album_name: Some("Album".to_string()),
        duration: Some(233),
    };
    let params = build_lyrics_params(&req);
    assert_eq!(
        params,
        vec![
            ("track_name".to_string(), "Track".to_string()),
            ("artist_name".to_string(), "Artist".to_string()),
            ("album_name".to_string(), "Album".to_string()),
            ("duration".to_string(), "233".to_string()),
        ]
    );
}

#[test]
fn lyrics_params_skip_empty_and_absent() {
    let req = LyricsFetchRequest {
        track_name: "Track".to_string(),
        artist_name: Some("".to_string()),
        album_name: None,
        duration: None,
    };
    let params = build_lyrics_params(&req);
    assert_eq!(params, vec![("track_name".to_string(), "Track".to_string())]);
}

#[test]
fn search_url_exclude_tags_only() {
    let mut f = plain_filters();
    f.exclude_tags = vec!["meme".to_string()];
    let url = build_search_params("", 0, &f);
    assert_eq!(
        url,
        "https://api.beatsaver.com/search/text/0?sortOrder=Relevance&tags=%21meme"
    );
}

#[test]
fn cache_key_identical_for_equal_identities() {
    assert_eq!(
        make_cache_key("SONG", Some("ARTIST")),
        make_cache_key("song", Some("artist"))
    );
}

#[test]
fn decimal_rendering() {
    assert_eq!(u64_to_dec(0), "0");
    assert_eq!(u64_to_dec(123456789), "123456789");
    assert_eq!(i64_to_dec(-42), "-42");
    assert_eq!(i64_to_dec(i64::MIN), "-9223372036854775808");
    assert_eq!(i64_to_dec(i64::MAX), "9223372036854775807");
}
