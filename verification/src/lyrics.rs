//! The lyrics side of the pipeline: the cache key, the durable lyrics
//! record (including the negative marker for a confirmed-absent lookup),
//! the cache operations, the query parameters of a lookup, and the decision
//! logic of the background worker.

use crate::numbers::{i64_to_dec, spec_dec_int};
use crate::store::{kv_of, lyrics_kind, lyrics_kind_str, CacheDb};
use crate::text::{lower_of, lowercase};
use crate::wire::{
    bool_part, decode_parts, encode_parts, i64_part, lemma_parse_frame_all, lemma_part_view,
    lemma_take_bool_part, lemma_take_i64_part, lemma_take_opt_str_part, lemma_take_str_part,
    opt_str_part, opt_text, pairs_view, push_part, spec_bool_part, spec_frame_all, spec_i64_part,
    spec_opt_str_part, spec_parse, spec_str_part, spec_take_bool, spec_take_i64,
    spec_take_opt_str, spec_take_str, str_part, take_bool, take_i64, take_opt_str, take_str,
};
use vstd::prelude::*;
use vstd::string::StringExecFns;

verus! {

// ---------------------------------------------------------------------------
// The cache key
// ---------------------------------------------------------------------------
/// The deterministic cache key of a lookup: the lower-cased form of
/// `artist:track`, with `unknown` standing in for a missing artist.
pub open spec fn spec_cache_key(track: Seq<char>, artist: Option<Seq<char>>) -> Seq<char> {
    lower_of(
        (match artist {
            Some(a) => a,
            None => "unknown"@,
        }) + ":"@ + track,
    )
}

/// Derives the cache key of a lookup; equal requests give equal keys.
pub fn make_cache_key(track_name: &str, artist_name: Option<&str>) -> (r: String)
    ensures
        r@ == spec_cache_key(
            track_name@,
            match artist_name {
                Some(a) => Some(a@),
                None => None,
            },
        ),
{
    let mut s = String::new();
    match artist_name {
        Some(a) => s.append(a),
        None => s.append("unknown"),
    }
    s.append(":");
    s.append(track_name);
    proof {
        assert(s@ =~= (match artist_name {
            Some(a) => a@,
            None => "unknown"@,
        }) + ":"@ + track_name@);
    }
    lowercase(s.as_str())
}

/// Two logically identical requests always derive the same key: any two
/// keys that meet the derivation's contract for one identity are equal.
pub proof fn lemma_cache_key_deterministic(
    track: Seq<char>,
    artist: Option<Seq<char>>,
    k1: Seq<char>,
    k2: Seq<char>,
)
    requires
        k1 == spec_cache_key(track, artist),
        k2 == spec_cache_key(track, artist),
    ensures
        k1 == k2,
{
}

// ---------------------------------------------------------------------------
// The record and its stored form
// ---------------------------------------------------------------------------
/// The ghost shape of a lyrics record.
pub ghost struct LrcView {
    pub id: int,
    pub track_name: Seq<char>,
    pub artist_name: Seq<char>,
    pub album_name: Seq<char>,
    pub duration: Seq<char>,
    pub instrumental: bool,
    pub plain_lyrics: Option<Seq<char>>,
    pub synced_lyrics: Option<Seq<char>>,
}

/// A lyrics record as the provider returns it; the duration is carried as
/// decimal text.
#[derive(Debug, Clone)]
pub struct LrcLibResponse {
    pub id: i64,
    pub track_name: String,
    pub artist_name: String,
    pub album_name: String,
    pub duration: String,
    pub instrumental: bool,
    pub plain_lyrics: Option<String>,
    pub synced_lyrics: Option<String>,
}

impl View for LrcLibResponse {
    type V = LrcView;

    open spec fn view(&self) -> LrcView {
        LrcView {
            id: self.id as int,
            track_name: self.track_name@,
            artist_name: self.artist_name@,
            album_name: self.album_name@,
            duration: self.duration@,
            instrumental: self.instrumental,
            plain_lyrics: opt_text(self.plain_lyrics),
            synced_lyrics: opt_text(self.synced_lyrics),
        }
    }
}

/// The ghost shape of a stored lyrics row: a found record, or the negative
/// marker meaning confirmed absent upstream.
pub ghost enum LyricsRowView {
    Found(LrcView),
    NotFound { track: Seq<char>, artist: Seq<char> },
}

/// A stored lyrics row read back from the cache.
#[derive(Debug, Clone)]
pub enum LyricsRow {
    Found(LrcLibResponse),
    NotFound { track: String, artist: String },
}

impl View for LyricsRow {
    type V = LyricsRowView;

    open spec fn view(&self) -> LyricsRowView {
        match self {
            LyricsRow::Found(d) => LyricsRowView::Found(d@),
            LyricsRow::NotFound { track, artist } => LyricsRowView::NotFound {
                track: track@,
                artist: artist@,
            },
        }
    }
}

/// The parts of a stored lyrics row: a presence flag, then the fields.
pub open spec fn spec_lyrics_parts(row: LyricsRowView) -> Seq<Seq<u8>> {
    match row {
        LyricsRowView::NotFound { track, artist } => seq![
            spec_bool_part(false),
            spec_str_part(track),
            spec_str_part(artist),
        ],
        LyricsRowView::Found(d) => seq![
            spec_bool_part(true),
            spec_i64_part(d.id),
            spec_str_part(d.track_name),
            spec_str_part(d.artist_name),
            spec_str_part(d.album_name),
            spec_str_part(d.duration),
            spec_bool_part(d.instrumental),
            spec_opt_str_part(d.plain_lyrics),
            spec_opt_str_part(d.synced_lyrics),
        ],
    }
}

/// The stored bytes of a lyrics row.
pub open spec fn spec_enc_lyrics(row: LyricsRowView) -> Seq<u8> {
    spec_frame_all(spec_lyrics_parts(row))
}

/// Reads a lyrics row back from stored bytes; `None` on malformed bytes.
pub open spec fn spec_dec_lyrics(b: Seq<u8>) -> Option<LyricsRowView> {
    match spec_parse(b) {
        None => None,
        Some(ps) => {
            if ps.len() >= 1 && spec_take_bool(ps[0]) is Some {
                if spec_take_bool(ps[0])->Some_0 {
                    if ps.len() == 9 && spec_take_i64(ps[1]) is Some && spec_take_str(
                        ps[2],
                    ) is Some && spec_take_str(ps[3]) is Some && spec_take_str(ps[4]) is Some
                        && spec_take_str(ps[5]) is Some && spec_take_bool(ps[6]) is Some
                        && spec_take_opt_str(ps[7]) is Some && spec_take_opt_str(ps[8]) is Some {
                        Some(
                            LyricsRowView::Found(
                                LrcView {
                                    id: spec_take_i64(ps[1])->Some_0,
                                    track_name: spec_take_str(ps[2])->Some_0,
                                    artist_name: spec_take_str(ps[3])->Some_0,
                                    album_name: spec_take_str(ps[4])->Some_0,
                                    duration: spec_take_str(ps[5])->Some_0,
                                    instrumental: spec_take_bool(ps[6])->Some_0,
                                    plain_lyrics: spec_take_opt_str(ps[7])->Some_0,
                                    synced_lyrics: spec_take_opt_str(ps[8])->Some_0,
                                },
                            ),
                        )
                    } else {
                        None
                    }
                } else {
                    if ps.len() == 3 && spec_take_str(ps[1]) is Some && spec_take_str(
                        ps[2],
                    ) is Some {
                        Some(
                            LyricsRowView::NotFound {
                                track: spec_take_str(ps[1])->Some_0,
                                artist: spec_take_str(ps[2])->Some_0,
                            },
                        )
                    } else {
                        None
                    }
                }
            } else {
                None
            }
        },
    }
}

/// Well-formedness of a ghost lyrics row: the id fits its machine type and
/// every part fits a length prefix. True of every row an executable value
/// can hold.
pub open spec fn lyrics_row_wf(row: LyricsRowView) -> bool {
    let ps = spec_lyrics_parts(row);
    &&& forall|i: int| 0 <= i < ps.len() ==> #[trigger] ps[i].len() <= u64::MAX
    &&& (row matches LyricsRowView::Found(d) ==> i64::MIN <= d.id <= i64::MAX)
}

/// Decoding inverts encoding: the round trip of one stored lyrics row.
pub proof fn lemma_dec_lyrics(row: LyricsRowView)
    requires
        lyrics_row_wf(row),
    ensures
        spec_dec_lyrics(spec_enc_lyrics(row)) == Some(row),
{
    let ps = spec_lyrics_parts(row);
    lemma_parse_frame_all(ps);
    match row {
        LyricsRowView::NotFound { track, artist } => {
            lemma_take_bool_part(false);
            lemma_take_str_part(track);
            lemma_take_str_part(artist);
        },
        LyricsRowView::Found(d) => {
            lemma_take_bool_part(true);
            lemma_take_i64_part(d.id);
            lemma_take_str_part(d.track_name);
            lemma_take_str_part(d.artist_name);
            lemma_take_str_part(d.album_name);
            lemma_take_str_part(d.duration);
            lemma_take_bool_part(d.instrumental);
            lemma_take_opt_str_part(d.plain_lyrics);
            lemma_take_opt_str_part(d.synced_lyrics);
        },
    }
}

/// Frames a found record into the bytes the store holds.
pub fn encode_lyrics_found(d: &LrcLibResponse) -> (r: Vec<u8>)
    ensures
        r@ == spec_enc_lyrics(LyricsRowView::Found(d@)),
{
    let mut parts: Vec<Vec<u8>> = Vec::new();
    push_part(&mut parts, bool_part(true));
    push_part(&mut parts, i64_part(d.id));
    push_part(&mut parts, str_part(d.track_name.as_str()));
    push_part(&mut parts, str_part(d.artist_name.as_str()));
    push_part(&mut parts, str_part(d.album_name.as_str()));
    push_part(&mut parts, str_part(d.duration.as_str()));
    push_part(&mut parts, bool_part(d.instrumental));
    push_part(&mut parts, opt_str_part(&d.plain_lyrics));
    push_part(&mut parts, opt_str_part(&d.synced_lyrics));
    proof {
        assert(parts.deep_view() =~= spec_lyrics_parts(LyricsRowView::Found(d@)));
    }
    encode_parts(&parts)
}

/// Frames a negative marker into the bytes the store holds.
pub fn encode_lyrics_not_found(track: &str, artist: &str) -> (r: Vec<u8>)
    ensures
        r@ == spec_enc_lyrics(LyricsRowView::NotFound { track: track@, artist: artist@ }),
{
    let mut parts: Vec<Vec<u8>> = Vec::new();
    push_part(&mut parts, bool_part(false));
    push_part(&mut parts, str_part(track));
    push_part(&mut parts, str_part(artist));
    proof {
        assert(parts.deep_view() =~= spec_lyrics_parts(
            LyricsRowView::NotFound { track: track@, artist: artist@ },
        ));
    }
    encode_parts(&parts)
}

/// Reads a lyrics row back from stored bytes.
pub fn decode_lyrics(b: &Vec<u8>) -> (r: Option<LyricsRow>)
    ensures
        match r {
            Some(row) => spec_dec_lyrics(b@) == Some(row@),
            None => spec_dec_lyrics(b@) is None,
        },
{
    let parts = match decode_parts(b) {
        Some(p) => p,
        None => {
            return None;
        },
    };
    let n = parts.len();
    if n < 1 {
        return None;
    }
    proof {
        lemma_part_view(parts, 0);
    }
    let found = match take_bool(&parts[0]) {
        Some(f) => f,
        None => {
            return None;
        },
    };
    if found {
        if n != 9 {
            return None;
        }
        proof {
            lemma_part_view(parts, 1);
            lemma_part_view(parts, 2);
            lemma_part_view(parts, 3);
            lemma_part_view(parts, 4);
            lemma_part_view(parts, 5);
            lemma_part_view(parts, 6);
            lemma_part_view(parts, 7);
            lemma_part_view(parts, 8);
        }
        let id = match take_i64(&parts[1]) {
            Some(v) => v,
            None => {
                return None;
            },
        };
        let track_name = match take_str(&parts[2]) {
            Some(v) => v,
            None => {
                return None;
            },
        };
        let artist_name = match take_str(&parts[3]) {
            Some(v) => v,
            None => {
                return None;
            },
        };
        let album_name = match take_str(&parts[4]) {
            Some(v) => v,
            None => {
                return None;
            },
        };
        let duration = match take_str(&parts[5]) {
            Some(v) => v,
            None => {
                return None;
            },
        };
        let instrumental = match take_bool(&parts[6]) {
            Some(v) => v,
            None => {
                return None;
            },
        };
        let plain_lyrics = match take_opt_str(&parts[7]) {
            Some(v) => v,
            None => {
                return None;
            },
        };
        let synced_lyrics = match take_opt_str(&parts[8]) {
            Some(v) => v,
            None => {
                return None;
            },
        };
        Some(
            LyricsRow::Found(
                LrcLibResponse {
                    id,
                    track_name,
                    artist_name,
                    album_name,
                    duration,
                    instrumental,
                    plain_lyrics,
                    synced_lyrics,
                },
            ),
        )
    } else {
        if n != 3 {
            return None;
        }
        proof {
            lemma_part_view(parts, 1);
            lemma_part_view(parts, 2);
        }
        let track = match take_str(&parts[1]) {
            Some(v) => v,
            None => {
                return None;
            },
        };
        let artist = match take_str(&parts[2]) {
            Some(v) => v,
            None => {
                return None;
            },
        };
        Some(LyricsRow::NotFound { track, artist })
    }
}

// ---------------------------------------------------------------------------
// Cache operations
// ---------------------------------------------------------------------------
/// The ghost shape of a cache check answer.
pub ghost struct LyricsCacheEntryView {
    pub found: bool,
    pub data: Option<LrcView>,
}

/// The answer of a synchronous cache lookup: whether the key was ever
/// resolved, and the record when the resolution found one.
#[derive(Debug, Clone)]
pub struct LyricsCacheEntry {
    pub found: bool,
    pub data: Option<LrcLibResponse>,
}

impl View for LyricsCacheEntry {
    type V = LyricsCacheEntryView;

    open spec fn view(&self) -> LyricsCacheEntryView {
        LyricsCacheEntryView {
            found: self.found,
            data: match self.data {
                Some(d) => Some(d@),
                None => None,
            },
        }
    }
}

/// The answer of the lightweight existence probe.
#[derive(Clone, Copy, Debug, PartialEq, Eq, Structural)]
pub struct LyricsCacheStatus {
    pub found: bool,
    pub has_lyrics: bool,
}

/// The cache entry a stored row reads back as.
pub open spec fn spec_entry_of_row(row: LyricsRowView) -> LyricsCacheEntryView {
    match row {
        LyricsRowView::Found(d) => LyricsCacheEntryView { found: true, data: Some(d) },
        LyricsRowView::NotFound { .. } => LyricsCacheEntryView { found: false, data: None },
    }
}

/// The probe answer a stored row reads back as.
pub open spec fn spec_status_of_row(row: LyricsRowView) -> LyricsCacheStatus {
    match row {
        LyricsRowView::Found(d) => LyricsCacheStatus {
            found: true,
            has_lyrics: d.synced_lyrics is Some || d.plain_lyrics is Some,
        },
        LyricsRowView::NotFound { .. } => LyricsCacheStatus { found: false, has_lyrics: false },
    }
}

/// What a cache check yields on a given store: `Some(None)` when the key is
/// absent, `Some(Some(entry))` when a stored row reads back, and `None`
/// when the stored row is malformed (reported as an error).
pub open spec fn spec_check_cache(
    kv: Map<(Seq<char>, Seq<char>), Seq<u8>>,
    key: Seq<char>,
) -> Option<Option<LyricsCacheEntryView>> {
    if !kv.contains_key((lyrics_kind(), key)) {
        Some(None)
    } else {
        match spec_dec_lyrics(kv[(lyrics_kind(), key)]) {
            Some(row) => Some(Some(spec_entry_of_row(row))),
            None => None,
        }
    }
}

/// What the existence probe yields on a given store, in the same shape.
pub open spec fn spec_check_cache_has(
    kv: Map<(Seq<char>, Seq<char>), Seq<u8>>,
    key: Seq<char>,
) -> Option<Option<LyricsCacheStatus>> {
    if !kv.contains_key((lyrics_kind(), key)) {
        Some(None)
    } else {
        match spec_dec_lyrics(kv[(lyrics_kind(), key)]) {
            Some(row) => Some(Some(spec_status_of_row(row))),
            None => None,
        }
    }
}

/// Looks a cache key up and rebuilds the stored verdict; a stored row that
/// does not read back is reported as an error.
pub fn check_cache_internal(db: &CacheDb, cache_key: &str) -> (r: Result<
    Option<LyricsCacheEntry>,
    String,
>)
    ensures
        r matches Ok(Some(e)) ==> spec_check_cache(kv_of(*db), cache_key@) == Some(Some(e@)),
        r matches Ok(None) ==> spec_check_cache(kv_of(*db), cache_key@) == Some(
            None::<LyricsCacheEntryView>,
        ),
{
    match db.get(lyrics_kind_str(), cache_key) {
        Err(e) => Err(e),
        Ok(None) => Ok(None),
        Ok(Some(blob)) => match decode_lyrics(&blob) {
            None => Err(String::from_str("corrupt cached lyrics row")),
            Some(LyricsRow::NotFound { .. }) => Ok(
                Some(LyricsCacheEntry { found: false, data: None }),
            ),
            Some(LyricsRow::Found(d)) => Ok(Some(LyricsCacheEntry { found: true, data: Some(d) })),
        },
    }
}

/// Answers the lightweight probe: whether the key was resolved and whether
/// any lyrics text is present.
pub fn check_cache_has_internal(db: &CacheDb, cache_key: &str) -> (r: Result<
    Option<LyricsCacheStatus>,
    String,
>)
    ensures
        r matches Ok(Some(st)) ==> spec_check_cache_has(kv_of(*db), cache_key@) == Some(Some(st)),
        r matches Ok(None) ==> spec_check_cache_has(kv_of(*db), cache_key@) == Some(
            None::<LyricsCacheStatus>,
        ),
{
    match db.get(lyrics_kind_str(), cache_key) {
        Err(e) => Err(e),
        Ok(None) => Ok(None),
        Ok(Some(blob)) => match decode_lyrics(&blob) {
            None => Err(String::from_str("corrupt cached lyrics row")),
            Some(LyricsRow::NotFound { .. }) => Ok(
                Some(LyricsCacheStatus { found: false, has_lyrics: false }),
            ),
            Some(LyricsRow::Found(d)) => {
                let has_lyrics = d.synced_lyrics.is_some() || d.plain_lyrics.is_some();
                Ok(Some(LyricsCacheStatus { found: true, has_lyrics }))
            },
        },
    }
}

/// Persists a found record under its cache key; the latest save wins.
pub fn save_to_cache(db: &mut CacheDb, cache_key: &str, data: &LrcLibResponse) -> (r: Result<
    (),
    String,
>)
    ensures
        r is Ok ==> kv_of(*final(db)) == kv_of(*old(db)).insert(
            (lyrics_kind(), cache_key@),
            spec_enc_lyrics(LyricsRowView::Found(data@)),
        ),
        r is Err ==> kv_of(*final(db)) == kv_of(*old(db)),
{
    let blob = encode_lyrics_found(data);
    db.put(lyrics_kind_str(), cache_key, &blob)
}

/// Persists the negative marker for a lookup the provider answered as
/// absent; a later check then reports the verdict without a network call.
pub fn save_not_found(db: &mut CacheDb, cache_key: &str, track_name: &str, artist_name: &str) -> (r:
    Result<(), String>)
    ensures
        r is Ok ==> kv_of(*final(db)) == kv_of(*old(db)).insert(
            (lyrics_kind(), cache_key@),
            spec_enc_lyrics(LyricsRowView::NotFound { track: track_name@, artist: artist_name@ }),
        ),
        r is Err ==> kv_of(*final(db)) == kv_of(*old(db)),
{
    let blob = encode_lyrics_not_found(track_name, artist_name);
    db.put(lyrics_kind_str(), cache_key, &blob)
}

/// The synchronous cache-only lookup by request identity.
pub fn lyrics_cache_check(db: &CacheDb, track_name: &str, artist_name: Option<&str>) -> (r: Result<
    Option<LyricsCacheEntry>,
    String,
>)
    ensures
        ({
            let key = spec_cache_key(
                track_name@,
                match artist_name {
                    Some(a) => Some(a@),
                    None => None,
                },
            );
            &&& (r matches Ok(Some(e)) ==> spec_check_cache(kv_of(*db), key) == Some(Some(e@)))
            &&& (r matches Ok(None) ==> spec_check_cache(kv_of(*db), key) == Some(
                None::<LyricsCacheEntryView>,
            ))
        }),
{
    let key = make_cache_key(track_name, artist_name);
    check_cache_internal(db, key.as_str())
}

/// The synchronous existence probe by request identity.
pub fn lyrics_cache_has(db: &CacheDb, track_name: &str, artist_name: Option<&str>) -> (r: Result<
    Option<LyricsCacheStatus>,
    String,
>)
    ensures
        ({
            let key = spec_cache_key(
                track_name@,
                match artist_name {
                    Some(a) => Some(a@),
                    None => None,
                },
            );
            &&& (r matches Ok(Some(st)) ==> spec_check_cache_has(kv_of(*db), key) == Some(
                Some(st),
            ))
            &&& (r matches Ok(None) ==> spec_check_cache_has(kv_of(*db), key) == Some(
                None::<LyricsCacheStatus>,
            ))
        }),
{
    let key = make_cache_key(track_name, artist_name);
    check_cache_has_internal(db, key.as_str())
}

// ---------------------------------------------------------------------------
// The fetch request and its query parameters
// ---------------------------------------------------------------------------
/// The ghost shape of a fetch request.
pub ghost struct LyricsRequestView {
    pub track_name: Seq<char>,
    pub artist_name: Option<Seq<char>>,
    pub album_name: Option<Seq<char>>,
    pub duration: Option<int>,
}

/// One queued lyrics lookup; immutable once enqueued. The duration is in
/// whole seconds and is given only when it is positive.
#[derive(Debug, Clone)]
pub struct LyricsFetchRequest {
    pub track_name: String,
    pub artist_name: Option<String>,
    pub album_name: Option<String>,
    pub duration: Option<i64>,
}

impl View for LyricsFetchRequest {
    type V = LyricsRequestView;

    open spec fn view(&self) -> LyricsRequestView {
        LyricsRequestView {
            track_name: self.track_name@,
            artist_name: opt_text(self.artist_name),
            album_name: opt_text(self.album_name),
            duration: match self.duration {
                Some(d) => Some(d as int),
                None => None,
            },
        }
    }
}

/// The artist parameter: present exactly when an artist is given and not
/// empty.
pub open spec fn spec_artist_param(artist: Option<Seq<char>>) -> Seq<(Seq<char>, Seq<char>)> {
    if artist is Some && artist->Some_0.len() > 0 {
        seq![("artist_name"@, artist->Some_0)]
    } else {
        seq![]
    }
}

/// The album parameter: present exactly when an album is given and not
/// empty.
pub open spec fn spec_album_param(album: Option<Seq<char>>) -> Seq<(Seq<char>, Seq<char>)> {
    if album is Some && album->Some_0.len() > 0 {
        seq![("album_name"@, album->Some_0)]
    } else {
        seq![]
    }
}

/// The duration parameter: present exactly when a duration is given, in
/// decimal seconds.
pub open spec fn spec_duration_param(d: Option<int>) -> Seq<(Seq<char>, Seq<char>)> {
    if d is Some {
        seq![("duration"@, spec_dec_int(d->Some_0))]
    } else {
        seq![]
    }
}

/// The query parameters of one lookup, in their fixed order.
pub open spec fn spec_lyrics_params(req: LyricsRequestView) -> Seq<(Seq<char>, Seq<char>)> {
    seq![("track_name"@, req.track_name)] + spec_artist_param(req.artist_name) + spec_album_param(
        req.album_name,
    ) + spec_duration_param(req.duration)
}

/// Builds the query parameters of one lookup; the list is a function of the
/// request alone.
pub fn build_lyrics_params(req: &LyricsFetchRequest) -> (r: Vec<(String, String)>)
    ensures
        pairs_view(r@) == spec_lyrics_params(req@),
{
    let ghost base = seq![("track_name"@, req@.track_name)];
    let mut params: Vec<(String, String)> = Vec::new();
    params.push((String::from_str("track_name"), req.track_name.clone()));
    proof {
        assert(pairs_view(params@) =~= base);
    }
    match &req.artist_name {
        Some(a) => {
            if !a.as_str().is_empty() {
                params.push((String::from_str("artist_name"), a.clone()));
            }
            proof {
                assert(pairs_view(params@) =~= base + spec_artist_param(req@.artist_name));
            }
        },
        None => {
            proof {
                assert(pairs_view(params@) =~= base + spec_artist_param(req@.artist_name));
            }
        },
    }
    let ghost with_artist = base + spec_artist_param(req@.artist_name);
    match &req.album_name {
        Some(a) => {
            if !a.as_str().is_empty() {
                params.push((String::from_str("album_name"), a.clone()));
            }
            proof {
                assert(pairs_view(params@) =~= with_artist + spec_album_param(req@.album_name));
            }
        },
        None => {
            proof {
                assert(pairs_view(params@) =~= with_artist + spec_album_param(req@.album_name));
            }
        },
    }
    let ghost with_album = with_artist + spec_album_param(req@.album_name);
    match req.duration {
        Some(d) => {
            params.push((String::from_str("duration"), i64_to_dec(d)));
            proof {
                assert(pairs_view(params@) =~= with_album + spec_duration_param(req@.duration));
            }
        },
        None => {
            proof {
                assert(pairs_view(params@) =~= with_album + spec_duration_param(req@.duration));
            }
        },
    }
    proof {
        assert(with_album + spec_duration_param(req@.duration) =~= spec_lyrics_params(req@));
    }
    params
}

/// Computes the correlation key and the immutable request of one enqueue
/// call; the producer keeps the key and hands the pair to the queue.
pub fn prepare_lyrics_fetch(
    track_name: String,
    artist_name: Option<String>,
    album_name: Option<String>,
    duration: Option<i64>,
) -> (r: (LyricsFetchRequest, String))
    ensures
        r.1@ == spec_cache_key(track_name@, opt_text(artist_name)),
        r.0@ == (LyricsRequestView {
            track_name: track_name@,
            artist_name: opt_text(artist_name),
            album_name: opt_text(album_name),
            duration: match duration {
                Some(d) => Some(d as int),
                None => None,
            },
        }),
{
    let key = make_cache_key(
        track_name.as_str(),
        match &artist_name {
            Some(a) => Some(a.as_str()),
            None => None,
        },
    );
    (LyricsFetchRequest { track_name, artist_name, album_name, duration }, key)
}

// ---------------------------------------------------------------------------
// The worker's decision logic
// ---------------------------------------------------------------------------
/// The ghost shape of one emitted result.
pub ghost struct LyricsResultView {
    pub cache_key: Seq<char>,
    pub status: Seq<char>,
    pub data: Option<LrcView>,
    pub error: Option<Seq<char>>,
}

/// One emitted fetch result, correlated by cache key; a failure is always
/// materialized as this value, never thrown past the worker.
#[derive(Debug, Clone)]
pub struct LyricsFetchResult {
    pub cache_key: String,
    pub status: String,
    pub data: Option<LrcLibResponse>,
    pub error: Option<String>,
}

impl View for LyricsFetchResult {
    type V = LyricsResultView;

    open spec fn view(&self) -> LyricsResultView {
        LyricsResultView {
            cache_key: self.cache_key@,
            status: self.status@,
            data: match self.data {
                Some(d) => Some(d@),
                None => None,
            },
            error: opt_text(self.error),
        }
    }
}

/// What came back from one attempted lookup: the transport failed, the
/// provider answered with a bare status, or a success body was parsed or
/// failed to parse.
#[derive(Debug, Clone)]
pub enum LyricsFetchOutcome {
    Transport(String),
    Http(u16),
    Parsed(LrcLibResponse),
    ParseFailed(String),
}

/// The result the worker answers from the cache when the store already
/// holds a readable row for the key; `None` otherwise.
pub open spec fn spec_cached_result(
    kv: Map<(Seq<char>, Seq<char>), Seq<u8>>,
    key: Seq<char>,
) -> Option<LyricsResultView> {
    let checked = spec_check_cache(kv, key);
    if checked is Some && checked->Some_0 is Some {
        let e = checked->Some_0->Some_0;
        Some(
            LyricsResultView {
                cache_key: key,
                status: if e.found {
                    crate::status::status_success()
                } else {
                    crate::status::status_not_found()
                },
                data: e.data,
                error: None,
            },
        )
    } else {
        None
    }
}

/// The dedup re-check of the lyrics worker: on a successful store read the
/// answer is exact in both directions, so a stored verdict is reproduced
/// and an absent key short-circuits nothing; only a failed store read is
/// reported as an error, and the caller then fetches.
pub fn lyrics_cached_result(db: &CacheDb, cache_key: &String) -> (r: Result<
    Option<LyricsFetchResult>,
    String,
>)
    ensures
        r matches Ok(Some(res)) ==> spec_cached_result(kv_of(*db), cache_key@) == Some(res@),
        r matches Ok(None) ==> spec_cached_result(kv_of(*db), cache_key@) is None,
{
    match check_cache_internal(db, cache_key.as_str()) {
        Ok(Some(entry)) => {
            let status = if entry.found {
                String::from_str(crate::status::status_success_str())
            } else {
                String::from_str(crate::status::status_not_found_str())
            };
            Ok(
                Some(
                    LyricsFetchResult {
                        cache_key: cache_key.clone(),
                        status,
                        data: entry.data,
                        error: None,
                    },
                ),
            )
        },
        Ok(None) => Ok(None),
        Err(e) => Err(e),
    }
}

/// The negative row a 404 answer stores for a request.
pub open spec fn spec_not_found_row(req: LyricsRequestView) -> LyricsRowView {
    LyricsRowView::NotFound {
        track: req.track_name,
        artist: match req.artist_name {
            Some(a) => a,
            None => "unknown"@,
        },
    }
}

/// Turns the outcome of one attempted lookup into the terminal result,
/// caching a found record or a confirmed absence best-effort: a storage
/// failure never downgrades the reported outcome.
pub fn lyrics_apply_outcome(
    db: &mut CacheDb,
    cache_key: &String,
    req: &LyricsFetchRequest,
    outcome: LyricsFetchOutcome,
) -> (r: LyricsFetchResult)
    ensures
        r@.cache_key == cache_key@,
        outcome matches LyricsFetchOutcome::Transport(e) ==> ({
            &&& kv_of(*final(db)) == kv_of(*old(db))
            &&& r@.status == crate::status::status_error()
            &&& r@.data is None
            &&& r@.error == Some("HTTP request failed: "@ + e@)
        }),
        outcome matches LyricsFetchOutcome::Http(s) ==> (if s == 404 {
            &&& (kv_of(*final(db)) == kv_of(*old(db)).insert(
                (lyrics_kind(), cache_key@),
                spec_enc_lyrics(spec_not_found_row(req@)),
            ) || kv_of(*final(db)) == kv_of(*old(db)))
            &&& r@.status == crate::status::status_not_found()
            &&& r@.data is None
            &&& r@.error is None
        } else {
            &&& kv_of(*final(db)) == kv_of(*old(db))
            &&& r@.status == crate::status::status_error()
            &&& r@.data is None
            &&& r@.error == Some("LRCLIB API error: "@ + crate::numbers::spec_dec(s as nat))
        }),
        outcome matches LyricsFetchOutcome::Parsed(d) ==> ({
            &&& (kv_of(*final(db)) == kv_of(*old(db)).insert(
                (lyrics_kind(), cache_key@),
                spec_enc_lyrics(LyricsRowView::Found(d@)),
            ) || kv_of(*final(db)) == kv_of(*old(db)))
            &&& r@.status == crate::status::status_success()
            &&& r@.data == Some(d@)
            &&& r@.error is None
        }),
        outcome matches LyricsFetchOutcome::ParseFailed(e) ==> ({
            &&& kv_of(*final(db)) == kv_of(*old(db))
            &&& r@.status == crate::status::status_error()
            &&& r@.data is None
            &&& r@.error == Some("JSON parse error: "@ + e@)
        }),
{
    match outcome {
        LyricsFetchOutcome::Transport(e) => {
            let mut msg = String::from_str("HTTP request failed: ");
            msg.append(e.as_str());
            LyricsFetchResult {
                cache_key: cache_key.clone(),
                status: String::from_str(crate::status::status_error_str()),
                data: None,
                error: Some(msg),
            }
        },
        LyricsFetchOutcome::Http(s) => {
            if s == 404 {
                let artist = match &req.artist_name {
                    Some(a) => a.as_str(),
                    None => "unknown",
                };
                let _ = save_not_found(db, cache_key.as_str(), req.track_name.as_str(), artist);
                LyricsFetchResult {
                    cache_key: cache_key.clone(),
                    status: String::from_str(crate::status::status_not_found_str()),
                    data: None,
                    error: None,
                }
            } else {
                let mut msg = String::from_str("LRCLIB API error: ");
                msg.append(crate::numbers::u64_to_dec(s as u64).as_str());
                LyricsFetchResult {
                    cache_key: cache_key.clone(),
                    status: String::from_str(crate::status::status_error_str()),
                    data: None,
                    error: Some(msg),
                }
            }
        },
        LyricsFetchOutcome::Parsed(d) => {
            let _ = save_to_cache(db, cache_key.as_str(), &d);
            LyricsFetchResult {
                cache_key: cache_key.clone(),
                status: String::from_str(crate::status::status_success_str()),
                data: Some(d),
                error: None,
            }
        },
        LyricsFetchOutcome::ParseFailed(e) => {
            let mut msg = String::from_str("JSON parse error: ");
            msg.append(e.as_str());
            LyricsFetchResult {
                cache_key: cache_key.clone(),
                status: String::from_str(crate::status::status_error_str()),
                data: None,
                error: Some(msg),
            }
        },
    }
}

// ---------------------------------------------------------------------------
// Laws
// ---------------------------------------------------------------------------
/// Round trip: a found record saved under a key is the record a subsequent
/// cache check under that key yields. Well-formedness holds of every record
/// an executable value can hold.
pub proof fn lemma_lyrics_round_trip(
    kv: Map<(Seq<char>, Seq<char>), Seq<u8>>,
    key: Seq<char>,
    d: LrcView,
)
    requires
        lyrics_row_wf(LyricsRowView::Found(d)),
    ensures
        ({
            let kv2 = kv.insert((lyrics_kind(), key), spec_enc_lyrics(LyricsRowView::Found(d)));
            spec_check_cache(kv2, key) == Some(
                Some(LyricsCacheEntryView { found: true, data: Some(d) }),
            )
        }),
{
    lemma_dec_lyrics(LyricsRowView::Found(d));
}

/// Negative caching: a lookup the provider answered 404 leaves a stored
/// verdict, and a subsequent cache check reports found as false with no
/// data, without any network call.
pub proof fn lemma_negative_cache(
    kv: Map<(Seq<char>, Seq<char>), Seq<u8>>,
    key: Seq<char>,
    track: Seq<char>,
    artist: Seq<char>,
)
    requires
        lyrics_row_wf(LyricsRowView::NotFound { track, artist }),
    ensures
        ({
            let kv2 = kv.insert(
                (lyrics_kind(), key),
                spec_enc_lyrics(LyricsRowView::NotFound { track, artist }),
            );
            spec_check_cache(kv2, key) == Some(
                Some(LyricsCacheEntryView { found: false, data: None }),
            )
        }),
{
    lemma_dec_lyrics(LyricsRowView::NotFound { track, artist });
}

/// Dedup: once a worker has stored its verdict for a key, the re-check of
/// the next request for that key answers from the cache, reproducing the
/// stored verdict, and no fetch happens.
pub proof fn lemma_lyrics_dedup(
    kv: Map<(Seq<char>, Seq<char>), Seq<u8>>,
    key: Seq<char>,
    row: LyricsRowView,
)
    requires
        lyrics_row_wf(row),
    ensures
        ({
            let kv2 = kv.insert((lyrics_kind(), key), spec_enc_lyrics(row));
            spec_cached_result(kv2, key) == Some(
                LyricsResultView {
                    cache_key: key,
                    status: if row is Found {
                        crate::status::status_success()
                    } else {
                        crate::status::status_not_found()
                    },
                    data: spec_entry_of_row(row).data,
                    error: None,
                },
            )
        }),
{
    lemma_dec_lyrics(row);
}

} // verus!
