//! The map service records and the map side of the pipeline: the detail
//! record with its versions and difficulties, the browse listings, their
//! durable forms, and the decision logic of the track worker.

use crate::archive::{extract_map_data, spec_extract, zip_entries, zip_readable};
use crate::mapdata::{spec_enc_bundle, BeatSaverMapData};
use crate::numbers::u64_to_dec;
use crate::status::{
    status_already_cached, status_already_cached_str, status_error, status_error_str,
    status_success, status_success_str,
};
use crate::store::{browse_kind, browse_kind_str, download_kind, kv_of, map_kind, map_kind_str, CacheDb};
use crate::wire::{
    bool_part, decode_parts, encode_parts, i64_part, lemma_parse_frame_all, lemma_part_view,
    lemma_take_bool_part, lemma_take_i64_part, lemma_take_str_part, opt_text, push_part,
    spec_bool_part, spec_frame_all, spec_i64_part, spec_parse, spec_str_part, spec_take_bool,
    spec_take_i64, spec_take_str, str_part, strs_view, take_bool, take_i64, take_str,
};
use vstd::prelude::*;
use vstd::string::StringExecFns;

verus! {

// ---------------------------------------------------------------------------
// The record types; fractional figures are carried as decimal text
// ---------------------------------------------------------------------------
/// The ghost shape of one difficulty.
pub ghost struct DiffView {
    pub njs: Seq<char>,
    pub offset: Seq<char>,
    pub notes: int,
    pub bombs: int,
    pub obstacles: int,
    pub nps: Seq<char>,
    pub characteristic: Seq<char>,
    pub difficulty: Seq<char>,
}

/// One difficulty of a map version.
#[derive(Debug, Clone)]
pub struct BeatSaverDiff {
    pub njs: String,
    pub offset: String,
    pub notes: i64,
    pub bombs: i64,
    pub obstacles: i64,
    pub nps: String,
    pub characteristic: String,
    pub difficulty: String,
}

impl View for BeatSaverDiff {
    type V = DiffView;

    open spec fn view(&self) -> DiffView {
        DiffView {
            njs: self.njs@,
            offset: self.offset@,
            notes: self.notes as int,
            bombs: self.bombs as int,
            obstacles: self.obstacles as int,
            nps: self.nps@,
            characteristic: self.characteristic@,
            difficulty: self.difficulty@,
        }
    }
}

/// The ghost shape of one uploaded version.
pub ghost struct VersionView {
    pub hash: Seq<char>,
    pub key: Seq<char>,
    pub state: Seq<char>,
    pub download_url: Seq<char>,
    pub cover_url: Seq<char>,
    pub preview_url: Seq<char>,
    pub diffs: Seq<DiffView>,
}

/// One uploaded version of a map.
#[derive(Debug, Clone)]
pub struct BeatSaverMapVersion {
    pub hash: String,
    pub key: String,
    pub state: String,
    pub download_url: String,
    pub cover_url: String,
    pub preview_url: String,
    pub diffs: Vec<BeatSaverDiff>,
}

/// The view of a difficulty list.
pub open spec fn diffs_view(ds: Seq<BeatSaverDiff>) -> Seq<DiffView> {
    ds.map_values(|d: BeatSaverDiff| d@)
}

impl View for BeatSaverMapVersion {
    type V = VersionView;

    open spec fn view(&self) -> VersionView {
        VersionView {
            hash: self.hash@,
            key: self.key@,
            state: self.state@,
            download_url: self.download_url@,
            cover_url: self.cover_url@,
            preview_url: self.preview_url@,
            diffs: diffs_view(self.diffs@),
        }
    }
}

/// The ghost shape of the song metadata.
pub ghost struct MetadataView {
    pub bpm: Seq<char>,
    pub duration: Seq<char>,
    pub song_name: Seq<char>,
    pub song_sub_name: Seq<char>,
    pub song_author_name: Seq<char>,
    pub level_author_name: Seq<char>,
}

/// The song metadata of a map.
#[derive(Debug, Clone)]
pub struct BeatSaverMetadata {
    pub bpm: String,
    pub duration: String,
    pub song_name: String,
    pub song_sub_name: String,
    pub song_author_name: String,
    pub level_author_name: String,
}

impl View for BeatSaverMetadata {
    type V = MetadataView;

    open spec fn view(&self) -> MetadataView {
        MetadataView {
            bpm: self.bpm@,
            duration: self.duration@,
            song_name: self.song_name@,
            song_sub_name: self.song_sub_name@,
            song_author_name: self.song_author_name@,
            level_author_name: self.level_author_name@,
        }
    }
}

/// The ghost shape of the community statistics.
pub ghost struct StatsView {
    pub plays: int,
    pub downloads: int,
    pub upvotes: int,
    pub downvotes: int,
    pub score: Seq<char>,
}

/// The community statistics of a map.
#[derive(Debug, Clone)]
pub struct BeatSaverStats {
    pub plays: i64,
    pub downloads: i64,
    pub upvotes: i64,
    pub downvotes: i64,
    pub score: String,
}

impl View for BeatSaverStats {
    type V = StatsView;

    open spec fn view(&self) -> StatsView {
        StatsView {
            plays: self.plays as int,
            downloads: self.downloads as int,
            upvotes: self.upvotes as int,
            downvotes: self.downvotes as int,
            score: self.score@,
        }
    }
}

/// The ghost shape of one map detail record.
pub ghost struct MapRecordView {
    pub id: Seq<char>,
    pub name: Seq<char>,
    pub description: Seq<char>,
    pub metadata: MetadataView,
    pub stats: StatsView,
    pub uploaded: Seq<char>,
    pub automapper: bool,
    pub versions: Seq<VersionView>,
}

/// One map detail record, as the service describes a map.
#[derive(Debug, Clone)]
pub struct BeatSaverMap {
    pub id: String,
    pub name: String,
    pub description: String,
    pub metadata: BeatSaverMetadata,
    pub stats: BeatSaverStats,
    pub uploaded: String,
    pub automapper: bool,
    pub versions: Vec<BeatSaverMapVersion>,
}

/// The view of a version list.
pub open spec fn versions_view(vs: Seq<BeatSaverMapVersion>) -> Seq<VersionView> {
    vs.map_values(|v: BeatSaverMapVersion| v@)
}

impl View for BeatSaverMap {
    type V = MapRecordView;

    open spec fn view(&self) -> MapRecordView {
        MapRecordView {
            id: self.id@,
            name: self.name@,
            description: self.description@,
            metadata: self.metadata@,
            stats: self.stats@,
            uploaded: self.uploaded@,
            automapper: self.automapper,
            versions: versions_view(self.versions@),
        }
    }
}

/// A page of records and, for a search, the pagination figures.
#[derive(Debug, Clone)]
pub struct BeatSaverSearchResponse {
    pub docs: Vec<BeatSaverMap>,
    pub info: Option<BeatSaverPaginationInfo>,
}

/// The pagination figures of a search; the summed duration is carried as
/// decimal text.
#[derive(Debug, Clone)]
pub struct BeatSaverPaginationInfo {
    pub total: i64,
    pub pages: i64,
    pub duration: String,
}

// ---------------------------------------------------------------------------
// The stored form of a record
// ---------------------------------------------------------------------------
/// The parts of one difficulty.
#[verifier::opaque]
pub open spec fn spec_diff_parts(d: DiffView) -> Seq<Seq<u8>> {
    seq![
        spec_str_part(d.njs),
        spec_str_part(d.offset),
        spec_i64_part(d.notes),
        spec_i64_part(d.bombs),
        spec_i64_part(d.obstacles),
        spec_str_part(d.nps),
        spec_str_part(d.characteristic),
        spec_str_part(d.difficulty),
    ]
}

/// One difficulty framed as a single part.
pub open spec fn spec_enc_diff(d: DiffView) -> Seq<u8> {
    spec_frame_all(spec_diff_parts(d))
}

/// The parts of one version: six texts, then the difficulty list as one
/// part.
#[verifier::opaque]
pub open spec fn spec_version_parts(v: VersionView) -> Seq<Seq<u8>> {
    seq![
        spec_str_part(v.hash),
        spec_str_part(v.key),
        spec_str_part(v.state),
        spec_str_part(v.download_url),
        spec_str_part(v.cover_url),
        spec_str_part(v.preview_url),
        spec_frame_all(v.diffs.map_values(|d: DiffView| spec_enc_diff(d))),
    ]
}

/// One version framed as a single part.
pub open spec fn spec_enc_version(v: VersionView) -> Seq<u8> {
    spec_frame_all(spec_version_parts(v))
}

/// The parts of one record: the scalar fields, then the version list as
/// one part.
#[verifier::opaque]
pub open spec fn spec_map_parts(m: MapRecordView) -> Seq<Seq<u8>> {
    seq![
        spec_str_part(m.id),
        spec_str_part(m.name),
        spec_str_part(m.description),
        spec_str_part(m.metadata.bpm),
        spec_str_part(m.metadata.duration),
        spec_str_part(m.metadata.song_name),
        spec_str_part(m.metadata.song_sub_name),
        spec_str_part(m.metadata.song_author_name),
        spec_str_part(m.metadata.level_author_name),
        spec_i64_part(m.stats.plays),
        spec_i64_part(m.stats.downloads),
        spec_i64_part(m.stats.upvotes),
        spec_i64_part(m.stats.downvotes),
        spec_str_part(m.stats.score),
        spec_str_part(m.uploaded),
        spec_bool_part(m.automapper),
        spec_frame_all(m.versions.map_values(|v: VersionView| spec_enc_version(v))),
    ]
}

/// The stored bytes of one record.
pub open spec fn spec_enc_map(m: MapRecordView) -> Seq<u8> {
    spec_frame_all(spec_map_parts(m))
}

/// Reads one difficulty back from its part.
#[verifier::opaque]
pub open spec fn spec_dec_diff(b: Seq<u8>) -> Option<DiffView> {
    match spec_parse(b) {
        None => None,
        Some(ps) => {
            if ps.len() == 8 && spec_take_str(ps[0]) is Some && spec_take_str(ps[1]) is Some
                && spec_take_i64(ps[2]) is Some && spec_take_i64(ps[3]) is Some && spec_take_i64(
                ps[4],
            ) is Some && spec_take_str(ps[5]) is Some && spec_take_str(ps[6]) is Some
                && spec_take_str(ps[7]) is Some {
                Some(
                    DiffView {
                        njs: spec_take_str(ps[0])->Some_0,
                        offset: spec_take_str(ps[1])->Some_0,
                        notes: spec_take_i64(ps[2])->Some_0,
                        bombs: spec_take_i64(ps[3])->Some_0,
                        obstacles: spec_take_i64(ps[4])->Some_0,
                        nps: spec_take_str(ps[5])->Some_0,
                        characteristic: spec_take_str(ps[6])->Some_0,
                        difficulty: spec_take_str(ps[7])->Some_0,
                    },
                )
            } else {
                None
            }
        },
    }
}

/// Reads a difficulty list back from its parts.
pub open spec fn spec_dec_diffs(ps: Seq<Seq<u8>>) -> Option<Seq<DiffView>>
    decreases ps.len(),
{
    if ps.len() == 0 {
        Some(seq![])
    } else if spec_dec_diff(ps[0]) is Some && spec_dec_diffs(ps.drop_first()) is Some {
        Some(seq![spec_dec_diff(ps[0])->Some_0] + spec_dec_diffs(ps.drop_first())->Some_0)
    } else {
        None
    }
}

/// Reads one version back from its part.
#[verifier::opaque]
pub open spec fn spec_dec_version(b: Seq<u8>) -> Option<VersionView> {
    match spec_parse(b) {
        None => None,
        Some(ps) => {
            if ps.len() == 7 && spec_take_str(ps[0]) is Some && spec_take_str(ps[1]) is Some
                && spec_take_str(ps[2]) is Some && spec_take_str(ps[3]) is Some && spec_take_str(
                ps[4],
            ) is Some && spec_take_str(ps[5]) is Some && spec_parse(ps[6]) is Some
                && spec_dec_diffs(spec_parse(ps[6])->Some_0) is Some {
                Some(
                    VersionView {
                        hash: spec_take_str(ps[0])->Some_0,
                        key: spec_take_str(ps[1])->Some_0,
                        state: spec_take_str(ps[2])->Some_0,
                        download_url: spec_take_str(ps[3])->Some_0,
                        cover_url: spec_take_str(ps[4])->Some_0,
                        preview_url: spec_take_str(ps[5])->Some_0,
                        diffs: spec_dec_diffs(spec_parse(ps[6])->Some_0)->Some_0,
                    },
                )
            } else {
                None
            }
        },
    }
}

/// Reads a version list back from its parts.
pub open spec fn spec_dec_versions(ps: Seq<Seq<u8>>) -> Option<Seq<VersionView>>
    decreases ps.len(),
{
    if ps.len() == 0 {
        Some(seq![])
    } else if spec_dec_version(ps[0]) is Some && spec_dec_versions(ps.drop_first()) is Some {
        Some(seq![spec_dec_version(ps[0])->Some_0] + spec_dec_versions(ps.drop_first())->Some_0)
    } else {
        None
    }
}

/// Reads one record back from stored bytes; `None` on malformed bytes.
#[verifier::opaque]
pub open spec fn spec_dec_map(b: Seq<u8>) -> Option<MapRecordView> {
    match spec_parse(b) {
        None => None,
        Some(ps) => {
            if ps.len() == 17 && spec_take_str(ps[0]) is Some && spec_take_str(ps[1]) is Some
                && spec_take_str(ps[2]) is Some && spec_take_str(ps[3]) is Some && spec_take_str(
                ps[4],
            ) is Some && spec_take_str(ps[5]) is Some && spec_take_str(ps[6]) is Some
                && spec_take_str(ps[7]) is Some && spec_take_str(ps[8]) is Some && spec_take_i64(
                ps[9],
            ) is Some && spec_take_i64(ps[10]) is Some && spec_take_i64(ps[11]) is Some
                && spec_take_i64(ps[12]) is Some && spec_take_str(ps[13]) is Some
                && spec_take_str(ps[14]) is Some && spec_take_bool(ps[15]) is Some && spec_parse(
                ps[16],
            ) is Some && spec_dec_versions(spec_parse(ps[16])->Some_0) is Some {
                Some(
                    MapRecordView {
                        id: spec_take_str(ps[0])->Some_0,
                        name: spec_take_str(ps[1])->Some_0,
                        description: spec_take_str(ps[2])->Some_0,
                        metadata: MetadataView {
                            bpm: spec_take_str(ps[3])->Some_0,
                            duration: spec_take_str(ps[4])->Some_0,
                            song_name: spec_take_str(ps[5])->Some_0,
                            song_sub_name: spec_take_str(ps[6])->Some_0,
                            song_author_name: spec_take_str(ps[7])->Some_0,
                            level_author_name: spec_take_str(ps[8])->Some_0,
                        },
                        stats: StatsView {
                            plays: spec_take_i64(ps[9])->Some_0,
                            downloads: spec_take_i64(ps[10])->Some_0,
                            upvotes: spec_take_i64(ps[11])->Some_0,
                            downvotes: spec_take_i64(ps[12])->Some_0,
                            score: spec_take_str(ps[13])->Some_0,
                        },
                        uploaded: spec_take_str(ps[14])->Some_0,
                        automapper: spec_take_bool(ps[15])->Some_0,
                        versions: spec_dec_versions(spec_parse(ps[16])->Some_0)->Some_0,
                    },
                )
            } else {
                None
            }
        },
    }
}

// ---------------------------------------------------------------------------
// Round trips of the stored form
// ---------------------------------------------------------------------------
/// Well-formedness of a ghost difficulty: machine ranges and part bounds.
/// True of every difficulty an executable value can hold.
pub open spec fn diff_wf(d: DiffView) -> bool {
    &&& forall|i: int|
        0 <= i < spec_diff_parts(d).len() ==> #[trigger] spec_diff_parts(d)[i].len() <= u64::MAX
    &&& i64::MIN <= d.notes <= i64::MAX
    &&& i64::MIN <= d.bombs <= i64::MAX
    &&& i64::MIN <= d.obstacles <= i64::MAX
}

/// Well-formedness of a ghost version.
pub open spec fn version_wf(v: VersionView) -> bool {
    &&& forall|i: int| 0 <= i < v.diffs.len() ==> diff_wf(#[trigger] v.diffs[i])
    &&& forall|i: int|
        0 <= i < v.diffs.len() ==> spec_enc_diff(#[trigger] v.diffs[i]).len() <= u64::MAX
    &&& forall|i: int|
        0 <= i < spec_version_parts(v).len() ==> #[trigger] spec_version_parts(v)[i].len()
            <= u64::MAX
}

/// Well-formedness of a ghost record.
pub open spec fn map_record_wf(m: MapRecordView) -> bool {
    &&& forall|i: int| 0 <= i < m.versions.len() ==> version_wf(#[trigger] m.versions[i])
    &&& forall|i: int|
        0 <= i < m.versions.len() ==> spec_enc_version(#[trigger] m.versions[i]).len() <= u64::MAX
    &&& forall|i: int|
        0 <= i < spec_map_parts(m).len() ==> #[trigger] spec_map_parts(m)[i].len() <= u64::MAX
    &&& i64::MIN <= m.stats.plays <= i64::MAX
    &&& i64::MIN <= m.stats.downloads <= i64::MAX
    &&& i64::MIN <= m.stats.upvotes <= i64::MAX
    &&& i64::MIN <= m.stats.downvotes <= i64::MAX
}

/// Decoding inverts encoding for one difficulty.
pub proof fn lemma_dec_diff(d: DiffView)
    requires
        diff_wf(d),
    ensures
        spec_dec_diff(spec_enc_diff(d)) == Some(d),
{
    reveal(spec_diff_parts);
    reveal(spec_dec_diff);
    lemma_parse_frame_all(spec_diff_parts(d));
    lemma_take_str_part(d.njs);
    lemma_take_str_part(d.offset);
    lemma_take_i64_part(d.notes);
    lemma_take_i64_part(d.bombs);
    lemma_take_i64_part(d.obstacles);
    lemma_take_str_part(d.nps);
    lemma_take_str_part(d.characteristic);
    lemma_take_str_part(d.difficulty);
}

/// Decoding inverts encoding for a difficulty list.
pub proof fn lemma_dec_diffs(ds: Seq<DiffView>)
    requires
        forall|i: int| 0 <= i < ds.len() ==> diff_wf(#[trigger] ds[i]),
    ensures
        spec_dec_diffs(ds.map_values(|d: DiffView| spec_enc_diff(d))) == Some(ds),
    decreases ds.len(),
{
    let ps = ds.map_values(|d: DiffView| spec_enc_diff(d));
    if ds.len() == 0 {
        assert(ps =~= Seq::<Seq<u8>>::empty());
        assert(ds =~= Seq::<DiffView>::empty());
    } else {
        lemma_dec_diff(ds[0]);
        lemma_dec_diffs(ds.drop_first());
        assert(ps.drop_first() =~= ds.drop_first().map_values(|d: DiffView| spec_enc_diff(d)));
        assert(seq![ds[0]] + ds.drop_first() =~= ds);
    }
}

/// Decoding inverts encoding for one version.
pub proof fn lemma_dec_version(v: VersionView)
    requires
        version_wf(v),
    ensures
        spec_dec_version(spec_enc_version(v)) == Some(v),
{
    reveal(spec_version_parts);
    reveal(spec_dec_version);
    lemma_parse_frame_all(spec_version_parts(v));
    lemma_take_str_part(v.hash);
    lemma_take_str_part(v.key);
    lemma_take_str_part(v.state);
    lemma_take_str_part(v.download_url);
    lemma_take_str_part(v.cover_url);
    lemma_take_str_part(v.preview_url);
    lemma_parse_frame_all(v.diffs.map_values(|d: DiffView| spec_enc_diff(d)));
    lemma_dec_diffs(v.diffs);
}

/// Decoding inverts encoding for a version list.
pub proof fn lemma_dec_versions(vs: Seq<VersionView>)
    requires
        forall|i: int| 0 <= i < vs.len() ==> version_wf(#[trigger] vs[i]),
    ensures
        spec_dec_versions(vs.map_values(|v: VersionView| spec_enc_version(v))) == Some(vs),
    decreases vs.len(),
{
    let ps = vs.map_values(|v: VersionView| spec_enc_version(v));
    if vs.len() == 0 {
        assert(ps =~= Seq::<Seq<u8>>::empty());
        assert(vs =~= Seq::<VersionView>::empty());
    } else {
        lemma_dec_version(vs[0]);
        lemma_dec_versions(vs.drop_first());
        assert(ps.drop_first() =~= vs.drop_first().map_values(
            |v: VersionView| spec_enc_version(v),
        ));
        assert(seq![vs[0]] + vs.drop_first() =~= vs);
    }
}

/// Decoding inverts encoding for one record: the round trip of the map
/// detail cache.
pub proof fn lemma_dec_map(m: MapRecordView)
    requires
        map_record_wf(m),
    ensures
        spec_dec_map(spec_enc_map(m)) == Some(m),
{
    reveal(spec_map_parts);
    reveal(spec_dec_map);
    lemma_parse_frame_all(spec_map_parts(m));
    lemma_take_str_part(m.id);
    lemma_take_str_part(m.name);
    lemma_take_str_part(m.description);
    lemma_take_str_part(m.metadata.bpm);
    lemma_take_str_part(m.metadata.duration);
    lemma_take_str_part(m.metadata.song_name);
    lemma_take_str_part(m.metadata.song_sub_name);
    lemma_take_str_part(m.metadata.song_author_name);
    lemma_take_str_part(m.metadata.level_author_name);
    lemma_take_i64_part(m.stats.plays);
    lemma_take_i64_part(m.stats.downloads);
    lemma_take_i64_part(m.stats.upvotes);
    lemma_take_i64_part(m.stats.downvotes);
    lemma_take_str_part(m.stats.score);
    lemma_take_str_part(m.uploaded);
    lemma_take_bool_part(m.automapper);
    lemma_parse_frame_all(m.versions.map_values(|v: VersionView| spec_enc_version(v)));
    lemma_dec_versions(m.versions);
}

// ---------------------------------------------------------------------------
// The executable codec
// ---------------------------------------------------------------------------
/// Frames one difficulty.
pub fn encode_diff(d: &BeatSaverDiff) -> (r: Vec<u8>)
    ensures
        r@ == spec_enc_diff(d@),
{
    let mut parts: Vec<Vec<u8>> = Vec::new();
    push_part(&mut parts, str_part(d.njs.as_str()));
    push_part(&mut parts, str_part(d.offset.as_str()));
    push_part(&mut parts, i64_part(d.notes));
    push_part(&mut parts, i64_part(d.bombs));
    push_part(&mut parts, i64_part(d.obstacles));
    push_part(&mut parts, str_part(d.nps.as_str()));
    push_part(&mut parts, str_part(d.characteristic.as_str()));
    push_part(&mut parts, str_part(d.difficulty.as_str()));
    proof {
        reveal(spec_diff_parts);
        assert(parts.deep_view() =~= spec_diff_parts(d@));
    }
    encode_parts(&parts)
}

/// Frames one version.
#[verifier::loop_isolation(false)]
pub fn encode_version(v: &BeatSaverMapVersion) -> (r: Vec<u8>)
    ensures
        r@ == spec_enc_version(v@),
{
    let ghost enc = v@.diffs.map_values(|d: DiffView| spec_enc_diff(d));
    let mut diff_parts: Vec<Vec<u8>> = Vec::new();
    proof {
        assert(diff_parts.deep_view() =~= enc.take(0));
    }
    let mut i: usize = 0;
    while i < v.diffs.len()
        invariant
            i <= v.diffs@.len(),
            diff_parts.deep_view() == enc.take(i as int),
        decreases v.diffs@.len() - i,
    {
        let ghost taken = enc.take(i as int);
        push_part(&mut diff_parts, encode_diff(&v.diffs[i]));
        proof {
            assert(enc[i as int] == spec_enc_diff(v@.diffs[i as int]));
            assert(taken.push(enc[i as int]) =~= enc.take(i as int + 1));
        }
        i = i + 1;
    }
    proof {
        assert(enc.take(v.diffs@.len() as int) =~= enc);
    }
    let blob = encode_parts(&diff_parts);
    let mut parts: Vec<Vec<u8>> = Vec::new();
    push_part(&mut parts, str_part(v.hash.as_str()));
    push_part(&mut parts, str_part(v.key.as_str()));
    push_part(&mut parts, str_part(v.state.as_str()));
    push_part(&mut parts, str_part(v.download_url.as_str()));
    push_part(&mut parts, str_part(v.cover_url.as_str()));
    push_part(&mut parts, str_part(v.preview_url.as_str()));
    push_part(&mut parts, blob);
    proof {
        reveal(spec_version_parts);
        assert(parts.deep_view() =~= spec_version_parts(v@));
    }
    encode_parts(&parts)
}

/// Frames one record into the bytes the store holds.
#[verifier::loop_isolation(false)]
pub fn encode_map(m: &BeatSaverMap) -> (r: Vec<u8>)
    ensures
        r@ == spec_enc_map(m@),
{
    let ghost enc = m@.versions.map_values(|v: VersionView| spec_enc_version(v));
    let mut version_parts: Vec<Vec<u8>> = Vec::new();
    proof {
        assert(version_parts.deep_view() =~= enc.take(0));
    }
    let mut i: usize = 0;
    while i < m.versions.len()
        invariant
            i <= m.versions@.len(),
            version_parts.deep_view() == enc.take(i as int),
        decreases m.versions@.len() - i,
    {
        let ghost taken = enc.take(i as int);
        push_part(&mut version_parts, encode_version(&m.versions[i]));
        proof {
            assert(enc[i as int] == spec_enc_version(m@.versions[i as int]));
            assert(taken.push(enc[i as int]) =~= enc.take(i as int + 1));
        }
        i = i + 1;
    }
    proof {
        assert(enc.take(m.versions@.len() as int) =~= enc);
    }
    let blob = encode_parts(&version_parts);
    let mut parts: Vec<Vec<u8>> = Vec::new();
    push_part(&mut parts, str_part(m.id.as_str()));
    push_part(&mut parts, str_part(m.name.as_str()));
    push_part(&mut parts, str_part(m.description.as_str()));
    push_part(&mut parts, str_part(m.metadata.bpm.as_str()));
    push_part(&mut parts, str_part(m.metadata.duration.as_str()));
    push_part(&mut parts, str_part(m.metadata.song_name.as_str()));
    push_part(&mut parts, str_part(m.metadata.song_sub_name.as_str()));
    push_part(&mut parts, str_part(m.metadata.song_author_name.as_str()));
    push_part(&mut parts, str_part(m.metadata.level_author_name.as_str()));
    push_part(&mut parts, i64_part(m.stats.plays));
    push_part(&mut parts, i64_part(m.stats.downloads));
    push_part(&mut parts, i64_part(m.stats.upvotes));
    push_part(&mut parts, i64_part(m.stats.downvotes));
    push_part(&mut parts, str_part(m.stats.score.as_str()));
    push_part(&mut parts, str_part(m.uploaded.as_str()));
    push_part(&mut parts, bool_part(m.automapper));
    push_part(&mut parts, blob);
    proof {
        reveal(spec_map_parts);
        assert(parts.deep_view() =~= spec_map_parts(m@));
    }
    encode_parts(&parts)
}

/// Reads one difficulty back from its part.
pub fn decode_diff(b: &Vec<u8>) -> (r: Option<BeatSaverDiff>)
    ensures
        match r {
            Some(d) => spec_dec_diff(b@) == Some(d@),
            None => spec_dec_diff(b@) is None,
        },
{
    proof {
        reveal(spec_dec_diff);
    }
    let parts = match decode_parts(b) {
        Some(p) => p,
        None => {
            return None;
        },
    };
    if parts.len() != 8 {
        return None;
    }
    proof {
        lemma_part_view(parts, 0);
        lemma_part_view(parts, 1);
        lemma_part_view(parts, 2);
        lemma_part_view(parts, 3);
        lemma_part_view(parts, 4);
        lemma_part_view(parts, 5);
        lemma_part_view(parts, 6);
        lemma_part_view(parts, 7);
    }
    let njs = match take_str(&parts[0]) {
        Some(x) => x,
        None => {
            return None;
        },
    };
    let offset = match take_str(&parts[1]) {
        Some(x) => x,
        None => {
            return None;
        },
    };
    let notes = match take_i64(&parts[2]) {
        Some(x) => x,
        None => {
            return None;
        },
    };
    let bombs = match take_i64(&parts[3]) {
        Some(x) => x,
        None => {
            return None;
        },
    };
    let obstacles = match take_i64(&parts[4]) {
        Some(x) => x,
        None => {
            return None;
        },
    };
    let nps = match take_str(&parts[5]) {
        Some(x) => x,
        None => {
            return None;
        },
    };
    let characteristic = match take_str(&parts[6]) {
        Some(x) => x,
        None => {
            return None;
        },
    };
    let difficulty = match take_str(&parts[7]) {
        Some(x) => x,
        None => {
            return None;
        },
    };
    Some(BeatSaverDiff { njs, offset, notes, bombs, obstacles, nps, characteristic, difficulty })
}

/// Reads a difficulty list back from its framed blob.
#[verifier::loop_isolation(false)]
pub fn decode_diffs_blob(b: &Vec<u8>) -> (r: Option<Vec<BeatSaverDiff>>)
    ensures
        match r {
            Some(ds) => spec_parse(b@) is Some && spec_dec_diffs(spec_parse(b@)->Some_0) == Some(
                diffs_view(ds@),
            ),
            None => spec_parse(b@) is None || spec_dec_diffs(spec_parse(b@)->Some_0) is None,
        },
{
    let parts = match decode_parts(b) {
        Some(p) => p,
        None => {
            return None;
        },
    };
    let ghost pv = parts.deep_view();
    let n = parts.len();
    let mut acc: Vec<BeatSaverDiff> = Vec::new();
    let mut i: usize = 0;
    proof {
        assert(pv.skip(0) =~= pv);
        assert(diffs_view(acc@) =~= Seq::<DiffView>::empty());
        assert(forall|rest: Seq<DiffView>| #[trigger] (diffs_view(acc@) + rest) =~= rest);
    }
    while i < n
        invariant
            i <= n,
            n == parts@.len(),
            pv == parts.deep_view(),
            spec_dec_diffs(pv) == match spec_dec_diffs(pv.skip(i as int)) {
                Some(rest) => Some(diffs_view(acc@) + rest),
                None => None::<Seq<DiffView>>,
            },
        decreases n - i,
    {
        proof {
            lemma_part_view(parts, i as int);
            assert(pv.skip(i as int)[0] == pv[i as int]);
        }
        let d = match decode_diff(&parts[i]) {
            Some(d) => d,
            None => {
                return None;
            },
        };
        proof {
            assert(pv.skip(i as int).drop_first() =~= pv.skip(i as int + 1));
            let ghost dv = diffs_view(acc@);
            assert(forall|rest: Seq<DiffView>|
                dv + (seq![d@] + rest) =~= #[trigger] (dv.push(d@) + rest));
        }
        let ghost old_acc = acc@;
        acc.push(d);
        proof {
            assert(diffs_view(acc@) =~= diffs_view(old_acc).push(acc@[acc@.len() - 1]@));
        }
        i = i + 1;
    }
    proof {
        assert(pv.skip(n as int) =~= Seq::<Seq<u8>>::empty());
        assert(diffs_view(acc@) + Seq::<DiffView>::empty() =~= diffs_view(acc@));
    }
    Some(acc)
}

/// Reads one version back from its part.
pub fn decode_version(b: &Vec<u8>) -> (r: Option<BeatSaverMapVersion>)
    ensures
        match r {
            Some(v) => spec_dec_version(b@) == Some(v@),
            None => spec_dec_version(b@) is None,
        },
{
    proof {
        reveal(spec_dec_version);
    }
    let parts = match decode_parts(b) {
        Some(p) => p,
        None => {
            return None;
        },
    };
    if parts.len() != 7 {
        return None;
    }
    proof {
        lemma_part_view(parts, 0);
        lemma_part_view(parts, 1);
        lemma_part_view(parts, 2);
        lemma_part_view(parts, 3);
        lemma_part_view(parts, 4);
        lemma_part_view(parts, 5);
        lemma_part_view(parts, 6);
    }
    let hash = match take_str(&parts[0]) {
        Some(x) => x,
        None => {
            return None;
        },
    };
    let key = match take_str(&parts[1]) {
        Some(x) => x,
        None => {
            return None;
        },
    };
    let state = match take_str(&parts[2]) {
        Some(x) => x,
        None => {
            return None;
        },
    };
    let download_url = match take_str(&parts[3]) {
        Some(x) => x,
        None => {
            return None;
        },
    };
    let cover_url = match take_str(&parts[4]) {
        Some(x) => x,
        None => {
            return None;
        },
    };
    let preview_url = match take_str(&parts[5]) {
        Some(x) => x,
        None => {
            return None;
        },
    };
    let diffs = match decode_diffs_blob(&parts[6]) {
        Some(x) => x,
        None => {
            return None;
        },
    };
    Some(BeatSaverMapVersion { hash, key, state, download_url, cover_url, preview_url, diffs })
}

/// Reads one record back from stored bytes.
#[verifier::loop_isolation(false)]
pub fn decode_map(b: &Vec<u8>) -> (r: Option<BeatSaverMap>)
    ensures
        match r {
            Some(m) => spec_dec_map(b@) == Some(m@),
            None => spec_dec_map(b@) is None,
        },
{
    proof {
        reveal(spec_dec_map);
    }
    let parts = match decode_parts(b) {
        Some(p) => p,
        None => {
            return None;
        },
    };
    if parts.len() != 17 {
        return None;
    }
    proof {
        lemma_part_view(parts, 0);
        lemma_part_view(parts, 1);
        lemma_part_view(parts, 2);
        lemma_part_view(parts, 3);
        lemma_part_view(parts, 4);
        lemma_part_view(parts, 5);
        lemma_part_view(parts, 6);
        lemma_part_view(parts, 7);
        lemma_part_view(parts, 8);
        lemma_part_view(parts, 9);
        lemma_part_view(parts, 10);
        lemma_part_view(parts, 11);
        lemma_part_view(parts, 12);
        lemma_part_view(parts, 13);
        lemma_part_view(parts, 14);
        lemma_part_view(parts, 15);
        lemma_part_view(parts, 16);
    }
    let id = match take_str(&parts[0]) {
        Some(x) => x,
        None => {
            return None;
        },
    };
    let name = match take_str(&parts[1]) {
        Some(x) => x,
        None => {
            return None;
        },
    };
    let description = match take_str(&parts[2]) {
        Some(x) => x,
        None => {
            return None;
        },
    };
    let bpm = match take_str(&parts[3]) {
        Some(x) => x,
        None => {
            return None;
        },
    };
    let duration = match take_str(&parts[4]) {
        Some(x) => x,
        None => {
            return None;
        },
    };
    let song_name = match take_str(&parts[5]) {
        Some(x) => x,
        None => {
            return None;
        },
    };
    let song_sub_name = match take_str(&parts[6]) {
        Some(x) => x,
        None => {
            return None;
        },
    };
    let song_author_name = match take_str(&parts[7]) {
        Some(x) => x,
        None => {
            return None;
        },
    };
    let level_author_name = match take_str(&parts[8]) {
        Some(x) => x,
        None => {
            return None;
        },
    };
    let plays = match take_i64(&parts[9]) {
        Some(x) => x,
        None => {
            return None;
        },
    };
    let downloads = match take_i64(&parts[10]) {
        Some(x) => x,
        None => {
            return None;
        },
    };
    let upvotes = match take_i64(&parts[11]) {
        Some(x) => x,
        None => {
            return None;
        },
    };
    let downvotes = match take_i64(&parts[12]) {
        Some(x) => x,
        None => {
            return None;
        },
    };
    let score = match take_str(&parts[13]) {
        Some(x) => x,
        None => {
            return None;
        },
    };
    let uploaded = match take_str(&parts[14]) {
        Some(x) => x,
        None => {
            return None;
        },
    };
    let automapper = match take_bool(&parts[15]) {
        Some(x) => x,
        None => {
            return None;
        },
    };
    let versions = match decode_versions_blob(&parts[16]) {
        Some(x) => x,
        None => {
            return None;
        },
    };
    Some(
        BeatSaverMap {
            id,
            name,
            description,
            metadata: BeatSaverMetadata {
                bpm,
                duration,
                song_name,
                song_sub_name,
                song_author_name,
                level_author_name,
            },
            stats: BeatSaverStats { plays, downloads, upvotes, downvotes, score },
            uploaded,
            automapper,
            versions,
        },
    )
}

/// Reads a version list back from its framed blob.
#[verifier::loop_isolation(false)]
pub fn decode_versions_blob(b: &Vec<u8>) -> (r: Option<Vec<BeatSaverMapVersion>>)
    ensures
        match r {
            Some(vs) => spec_parse(b@) is Some && spec_dec_versions(spec_parse(b@)->Some_0)
                == Some(versions_view(vs@)),
            None => spec_parse(b@) is None || spec_dec_versions(spec_parse(b@)->Some_0) is None,
        },
{
    let parts = match decode_parts(b) {
        Some(p) => p,
        None => {
            return None;
        },
    };
    let ghost pv = parts.deep_view();
    let n = parts.len();
    let mut acc: Vec<BeatSaverMapVersion> = Vec::new();
    let mut i: usize = 0;
    proof {
        assert(pv.skip(0) =~= pv);
        assert(versions_view(acc@) =~= Seq::<VersionView>::empty());
        assert(forall|rest: Seq<VersionView>| #[trigger] (versions_view(acc@) + rest) =~= rest);
    }
    while i < n
        invariant
            i <= n,
            n == parts@.len(),
            pv == parts.deep_view(),
            spec_dec_versions(pv) == match spec_dec_versions(pv.skip(i as int)) {
                Some(rest) => Some(versions_view(acc@) + rest),
                None => None::<Seq<VersionView>>,
            },
        decreases n - i,
    {
        proof {
            lemma_part_view(parts, i as int);
            assert(pv.skip(i as int)[0] == pv[i as int]);
        }
        let v = match decode_version(&parts[i]) {
            Some(v) => v,
            None => {
                return None;
            },
        };
        proof {
            assert(pv.skip(i as int).drop_first() =~= pv.skip(i as int + 1));
            let ghost vv = versions_view(acc@);
            assert(forall|rest: Seq<VersionView>|
                vv + (seq![v@] + rest) =~= #[trigger] (vv.push(v@) + rest));
        }
        let ghost old_acc = acc@;
        acc.push(v);
        proof {
            assert(versions_view(acc@) =~= versions_view(old_acc).push(acc@[acc@.len() - 1]@));
        }
        i = i + 1;
    }
    proof {
        assert(pv.skip(n as int) =~= Seq::<Seq<u8>>::empty());
        assert(versions_view(acc@) + Seq::<VersionView>::empty() =~= versions_view(acc@));
    }
    Some(acc)
}

// ---------------------------------------------------------------------------
// The record cache
// ---------------------------------------------------------------------------
/// The view of a record list.
pub open spec fn maps_view(ms: Seq<BeatSaverMap>) -> Seq<MapRecordView> {
    ms.map_values(|m: BeatSaverMap| m@)
}

/// The ids of a record list, in order.
pub open spec fn ids_of(ms: Seq<MapRecordView>) -> Seq<Seq<char>> {
    ms.map_values(|m: MapRecordView| m.id)
}

/// What a record lookup yields on a given store: `Some(None)` when absent,
/// `Some(Some(record))` when the stored row reads back, `None` when it is
/// malformed (reported as an error).
pub open spec fn spec_load_map(
    kv: Map<(Seq<char>, Seq<char>), Seq<u8>>,
    id: Seq<char>,
) -> Option<Option<MapRecordView>> {
    if !kv.contains_key((map_kind(), id)) {
        Some(None)
    } else {
        match spec_dec_map(kv[(map_kind(), id)]) {
            Some(m) => Some(Some(m)),
            None => None,
        }
    }
}

/// Persists one record under its id; the latest save wins.
pub fn save_map_to_cache(db: &mut CacheDb, map: &BeatSaverMap) -> (r: Result<(), String>)
    ensures
        r is Ok ==> kv_of(*final(db)) == kv_of(*old(db)).insert(
            (map_kind(), map@.id),
            spec_enc_map(map@),
        ),
        r is Err ==> kv_of(*final(db)) == kv_of(*old(db)),
{
    let blob = encode_map(map);
    db.put(map_kind_str(), map.id.as_str(), &blob)
}

/// Loads the record stored under an id, if any; a stored row that does not
/// read back is reported as an error.
pub fn load_map_from_cache(db: &CacheDb, map_id: &str) -> (r: Result<Option<BeatSaverMap>, String>)
    ensures
        r matches Ok(Some(m)) ==> spec_load_map(kv_of(*db), map_id@) == Some(Some(m@)),
        r matches Ok(None) ==> spec_load_map(kv_of(*db), map_id@) == Some(
            None::<MapRecordView>,
        ),
{
    match db.get(map_kind_str(), map_id) {
        Err(e) => Err(e),
        Ok(None) => Ok(None),
        Ok(Some(blob)) => match decode_map(&blob) {
            Some(m) => Ok(Some(m)),
            None => Err(String::from_str("corrupt cached map record")),
        },
    }
}

/// The store after saving the flagged records of a list in order: the
/// saves a best-effort pass managed to make.
pub open spec fn spec_save_subset(
    kv: Map<(Seq<char>, Seq<char>), Seq<u8>>,
    ms: Seq<MapRecordView>,
    kept: Seq<bool>,
) -> Map<(Seq<char>, Seq<char>), Seq<u8>>
    recommends
        kept.len() == ms.len(),
    decreases ms.len(),
{
    if ms.len() == 0 {
        kv
    } else {
        spec_save_subset(
            if kept[0] {
                kv.insert((map_kind(), ms[0].id), spec_enc_map(ms[0]))
            } else {
                kv
            },
            ms.drop_first(),
            kept.drop_first(),
        )
    }
}

/// Saving one more record extends the subset fold by one step.
pub proof fn lemma_save_subset_push(
    kv: Map<(Seq<char>, Seq<char>), Seq<u8>>,
    ms: Seq<MapRecordView>,
    kept: Seq<bool>,
    m: MapRecordView,
    keep: bool,
)
    requires
        kept.len() == ms.len(),
    ensures
        spec_save_subset(kv, ms.push(m), kept.push(keep)) == if keep {
            spec_save_subset(kv, ms, kept).insert((map_kind(), m.id), spec_enc_map(m))
        } else {
            spec_save_subset(kv, ms, kept)
        },
    decreases ms.len(),
{
    let q = ms.push(m);
    let kq = kept.push(keep);
    if ms.len() == 0 {
        assert(q[0] == m);
        assert(kq[0] == keep);
        assert(q.drop_first() =~= Seq::<MapRecordView>::empty());
        assert(kq.drop_first() =~= Seq::<bool>::empty());
        let kv1 = if keep {
            kv.insert((map_kind(), m.id), spec_enc_map(m))
        } else {
            kv
        };
        assert(spec_save_subset(kv1, q.drop_first(), kq.drop_first()) == kv1);
        assert(spec_save_subset(kv, ms, kept) == kv);
    } else {
        assert(q[0] == ms[0]);
        assert(kq[0] == kept[0]);
        assert(q.drop_first() =~= ms.drop_first().push(m));
        assert(kq.drop_first() =~= kept.drop_first().push(keep));
        let kv1 = if kept[0] {
            kv.insert((map_kind(), ms[0].id), spec_enc_map(ms[0]))
        } else {
            kv
        };
        lemma_save_subset_push(kv1, ms.drop_first(), kept.drop_first(), m, keep);
    }
}

/// Persists every record of a page, best-effort: a failed save stops
/// neither the pass nor the rest, and the store holds exactly the saves
/// that went through, in order.
#[verifier::loop_isolation(false)]
pub fn cache_search_results(db: &mut CacheDb, maps: &Vec<BeatSaverMap>)
    ensures
        exists|kept: Seq<bool>|
            kept.len() == maps@.len() && kv_of(*final(db)) == spec_save_subset(
                kv_of(*old(db)),
                maps_view(maps@),
                kept,
            ),
{
    let ghost kv0 = kv_of(*db);
    let ghost mv = maps_view(maps@);
    let ghost mut kept: Seq<bool> = Seq::<bool>::empty();
    let mut i: usize = 0;
    proof {
        assert(mv.len() == maps@.len());
        assert(mv.take(0) =~= Seq::<MapRecordView>::empty());
    }
    while i < maps.len()
        invariant
            i <= maps@.len(),
            kept.len() == i,
            kv_of(*db) == spec_save_subset(kv0, mv.take(i as int), kept),
        decreases maps@.len() - i,
    {
        let ghost taken = mv.take(i as int);
        let ghost kept0 = kept;
        let saved = save_map_to_cache(db, &maps[i]);
        proof {
            let keep = saved is Ok;
            kept = kept0.push(keep);
            lemma_save_subset_push(kv0, taken, kept0, mv[i as int], keep);
            assert(taken.push(mv[i as int]) =~= mv.take(i as int + 1));
        }
        i = i + 1;
    }
    proof {
        assert(mv.take(maps@.len() as int) =~= mv);
    }
}

// ---------------------------------------------------------------------------
// Browse listings
// ---------------------------------------------------------------------------
/// The stored bytes of a category listing: the ordered ids, framed.
pub open spec fn spec_enc_browse(ids: Seq<Seq<char>>) -> Seq<u8> {
    spec_frame_all(ids.map_values(|s: Seq<char>| spec_str_part(s)))
}

/// Reads an id list back from its parts.
pub open spec fn spec_dec_ids(ps: Seq<Seq<u8>>) -> Option<Seq<Seq<char>>>
    decreases ps.len(),
{
    if ps.len() == 0 {
        Some(seq![])
    } else if spec_take_str(ps[0]) is Some && spec_dec_ids(ps.drop_first()) is Some {
        Some(seq![spec_take_str(ps[0])->Some_0] + spec_dec_ids(ps.drop_first())->Some_0)
    } else {
        None
    }
}

/// Reading an id list back yields the original ids.
pub proof fn lemma_dec_ids(ids: Seq<Seq<char>>)
    requires
        forall|i: int| 0 <= i < ids.len() ==> #[trigger] spec_str_part(ids[i]).len() <= u64::MAX,
    ensures
        spec_parse(spec_enc_browse(ids)) is Some,
        spec_dec_ids(spec_parse(spec_enc_browse(ids))->Some_0) == Some(ids),
    decreases ids.len(),
{
    let ps = ids.map_values(|s: Seq<char>| spec_str_part(s));
    lemma_parse_frame_all(ps);
    lemma_dec_ids_parts(ids);
}

/// Reading the parts of an id list yields the original ids.
proof fn lemma_dec_ids_parts(ids: Seq<Seq<char>>)
    ensures
        spec_dec_ids(ids.map_values(|s: Seq<char>| spec_str_part(s))) == Some(ids),
    decreases ids.len(),
{
    let ps = ids.map_values(|s: Seq<char>| spec_str_part(s));
    if ids.len() == 0 {
        assert(ps =~= Seq::<Seq<u8>>::empty());
        assert(ids =~= Seq::<Seq<char>>::empty());
    } else {
        lemma_take_str_part(ids[0]);
        lemma_dec_ids_parts(ids.drop_first());
        assert(ps.drop_first() =~= ids.drop_first().map_values(|s: Seq<char>| spec_str_part(s)));
        assert(seq![ids[0]] + ids.drop_first() =~= ids);
    }
}

/// Frames an id list.
#[verifier::loop_isolation(false)]
pub fn encode_browse(ids: &Vec<String>) -> (r: Vec<u8>)
    ensures
        r@ == spec_enc_browse(strs_view(ids@)),
{
    let ghost enc = strs_view(ids@).map_values(|s: Seq<char>| spec_str_part(s));
    let mut parts: Vec<Vec<u8>> = Vec::new();
    proof {
        assert(parts.deep_view() =~= enc.take(0));
    }
    let mut i: usize = 0;
    while i < ids.len()
        invariant
            i <= ids@.len(),
            parts.deep_view() == enc.take(i as int),
        decreases ids@.len() - i,
    {
        let ghost taken = enc.take(i as int);
        push_part(&mut parts, str_part(ids[i].as_str()));
        proof {
            assert(enc[i as int] == spec_str_part(strs_view(ids@)[i as int]));
            assert(taken.push(enc[i as int]) =~= enc.take(i as int + 1));
        }
        i = i + 1;
    }
    proof {
        assert(enc.take(ids@.len() as int) =~= enc);
    }
    encode_parts(&parts)
}

/// Reads an id list back from its framed blob.
#[verifier::loop_isolation(false)]
pub fn decode_browse(b: &Vec<u8>) -> (r: Option<Vec<String>>)
    ensures
        match r {
            Some(ids) => spec_parse(b@) is Some && spec_dec_ids(spec_parse(b@)->Some_0) == Some(
                strs_view(ids@),
            ),
            None => spec_parse(b@) is None || spec_dec_ids(spec_parse(b@)->Some_0) is None,
        },
{
    let parts = match decode_parts(b) {
        Some(p) => p,
        None => {
            return None;
        },
    };
    let ghost pv = parts.deep_view();
    let n = parts.len();
    let mut acc: Vec<String> = Vec::new();
    let mut i: usize = 0;
    proof {
        assert(pv.skip(0) =~= pv);
        assert(strs_view(acc@) =~= Seq::<Seq<char>>::empty());
        assert(forall|rest: Seq<Seq<char>>| #[trigger] (strs_view(acc@) + rest) =~= rest);
    }
    while i < n
        invariant
            i <= n,
            n == parts@.len(),
            pv == parts.deep_view(),
            spec_dec_ids(pv) == match spec_dec_ids(pv.skip(i as int)) {
                Some(rest) => Some(strs_view(acc@) + rest),
                None => None::<Seq<Seq<char>>>,
            },
        decreases n - i,
    {
        proof {
            lemma_part_view(parts, i as int);
            assert(pv.skip(i as int)[0] == pv[i as int]);
        }
        let id = match take_str(&parts[i]) {
            Some(s) => s,
            None => {
                return None;
            },
        };
        proof {
            assert(pv.skip(i as int).drop_first() =~= pv.skip(i as int + 1));
            let ghost sv = strs_view(acc@);
            assert(forall|rest: Seq<Seq<char>>|
                sv + (seq![id@] + rest) =~= #[trigger] (sv.push(id@) + rest));
        }
        let ghost old_acc = acc@;
        acc.push(id);
        proof {
            assert(strs_view(acc@) =~= strs_view(old_acc).push(acc@[acc@.len() - 1]@));
        }
        i = i + 1;
    }
    proof {
        assert(pv.skip(n as int) =~= Seq::<Seq<u8>>::empty());
        assert(strs_view(acc@) + Seq::<Seq<char>>::empty() =~= strs_view(acc@));
    }
    Some(acc)
}

/// The store after saving each record of a list in order.
pub open spec fn spec_save_maps(
    kv: Map<(Seq<char>, Seq<char>), Seq<u8>>,
    ms: Seq<MapRecordView>,
) -> Map<(Seq<char>, Seq<char>), Seq<u8>>
    decreases ms.len(),
{
    if ms.len() == 0 {
        kv
    } else {
        spec_save_maps(kv.insert((map_kind(), ms[0].id), spec_enc_map(ms[0])), ms.drop_first())
    }
}

/// Saving one more record extends the fold by one insertion.
pub proof fn lemma_save_maps_push(
    kv: Map<(Seq<char>, Seq<char>), Seq<u8>>,
    ms: Seq<MapRecordView>,
    m: MapRecordView,
)
    ensures
        spec_save_maps(kv, ms.push(m)) == spec_save_maps(kv, ms).insert(
            (map_kind(), m.id),
            spec_enc_map(m),
        ),
    decreases ms.len(),
{
    let q = ms.push(m);
    if ms.len() == 0 {
        assert(q[0] == m);
        assert(q.drop_first() =~= Seq::<MapRecordView>::empty());
        assert(spec_save_maps(kv.insert((map_kind(), m.id), spec_enc_map(m)), q.drop_first())
            == kv.insert((map_kind(), m.id), spec_enc_map(m)));
    } else {
        assert(q[0] == ms[0]);
        assert(q.drop_first() =~= ms.drop_first().push(m));
        lemma_save_maps_push(
            kv.insert((map_kind(), ms[0].id), spec_enc_map(ms[0])),
            ms.drop_first(),
            m,
        );
    }
}

/// A record row not named by the list keeps its state through the fold.
pub proof fn lemma_save_maps_other_id(
    kv: Map<(Seq<char>, Seq<char>), Seq<u8>>,
    ms: Seq<MapRecordView>,
    id: Seq<char>,
)
    requires
        forall|i: int| 0 <= i < ms.len() ==> (#[trigger] ms[i].id) != id,
    ensures
        spec_save_maps(kv, ms).contains_key((map_kind(), id)) <==> kv.contains_key(
            (map_kind(), id),
        ),
        spec_save_maps(kv, ms).contains_key((map_kind(), id)) ==> spec_save_maps(kv, ms)[(
            map_kind(),
            id,
        )] == kv[(map_kind(), id)],
    decreases ms.len(),
{
    if ms.len() == 0 {
    } else {
        assert(ms[0].id != id);
        assert(forall|i: int|
            0 <= i < ms.drop_first().len() ==> (#[trigger] ms.drop_first()[i].id) == ms[i + 1].id
                && ms[i + 1].id != id);
        lemma_save_maps_other_id(
            kv.insert((map_kind(), ms[0].id), spec_enc_map(ms[0])),
            ms.drop_first(),
            id,
        );
    }
}

/// After the fold, the row of each listed record holds that record's bytes
/// (the last occurrence of an id winning; with distinct ids, each its own).
#[verifier::rlimit(50)]
pub proof fn lemma_save_maps_lookup(
    kv: Map<(Seq<char>, Seq<char>), Seq<u8>>,
    ms: Seq<MapRecordView>,
    j: int,
)
    requires
        0 <= j < ms.len(),
        forall|p: int, q: int| 0 <= p < q < ms.len() ==> ms[p].id != ms[q].id,
    ensures
        spec_save_maps(kv, ms).contains_key((map_kind(), ms[j].id)),
        spec_save_maps(kv, ms)[(map_kind(), ms[j].id)] == spec_enc_map(ms[j]),
    decreases ms.len(),
{
    let kv1 = kv.insert((map_kind(), ms[0].id), spec_enc_map(ms[0]));
    if j == 0 {
        assert(forall|i: int|
            0 <= i < ms.drop_first().len() ==> (#[trigger] ms.drop_first()[i].id) == ms[i + 1].id
                && ms[i + 1].id != ms[0].id);
        lemma_save_maps_other_id(kv1, ms.drop_first(), ms[0].id);
    } else {
        assert(forall|p: int, q: int|
            0 <= p < q < ms.drop_first().len() ==> (#[trigger] ms.drop_first()[p].id) == ms[p
                + 1].id && (#[trigger] ms.drop_first()[q].id) == ms[q + 1].id && ms[p + 1].id
                != ms[q + 1].id);
        lemma_save_maps_lookup(kv1, ms.drop_first(), j - 1);
        assert(ms.drop_first()[j - 1] == ms[j]);
    }
}

/// Persists a browse page: each record, then the ordered id listing of the
/// category. The first failure is reported and stops the save.
#[verifier::loop_isolation(false)]
#[verifier::rlimit(50)]
pub fn save_browse_to_cache(db: &mut CacheDb, category: &str, maps: &Vec<BeatSaverMap>) -> (r:
    Result<(), String>)
    ensures
        r is Ok ==> kv_of(*final(db)) == spec_save_maps(kv_of(*old(db)), maps_view(maps@)).insert(
            (browse_kind(), category@),
            spec_enc_browse(ids_of(maps_view(maps@))),
        ),
        r is Err ==> exists|n: int|
            0 <= n <= maps@.len() && kv_of(*final(db)) == spec_save_maps(
                kv_of(*old(db)),
                #[trigger] maps_view(maps@).take(n),
            ),
{
    let ghost kv0 = kv_of(*db);
    let ghost mv = maps_view(maps@);
    let mut i: usize = 0;
    proof {
        assert(mv.take(0) =~= Seq::<MapRecordView>::empty());
    }
    while i < maps.len()
        invariant
            i <= maps@.len(),
            kv_of(*db) == spec_save_maps(kv0, mv.take(i as int)),
        decreases maps@.len() - i,
    {
        let ghost taken = mv.take(i as int);
        match save_map_to_cache(db, &maps[i]) {
            Ok(_) => {
                proof {
                    lemma_save_maps_push(kv0, taken, mv[i as int]);
                    assert(taken.push(mv[i as int]) =~= mv.take(i as int + 1));
                }
            },
            Err(e) => {
                return Err(e);
            },
        }
        i = i + 1;
    }
    proof {
        assert(mv.take(maps@.len() as int) =~= mv);
    }
    let mut ids: Vec<String> = Vec::new();
    let mut j: usize = 0;
    proof {
        assert(strs_view(ids@) =~= ids_of(mv).take(0));
    }
    while j < maps.len()
        invariant
            j <= maps@.len(),
            kv_of(*db) == spec_save_maps(kv0, mv),
            strs_view(ids@) == ids_of(mv).take(j as int),
        decreases maps@.len() - j,
    {
        let ghost taken = ids_of(mv).take(j as int);
        ids.push(maps[j].id.clone());
        proof {
            assert(ids_of(mv)[j as int] == mv[j as int].id);
            assert(strs_view(ids@) =~= taken.push(ids_of(mv)[j as int]));
            assert(taken.push(ids_of(mv)[j as int]) =~= ids_of(mv).take(j as int + 1));
        }
        j = j + 1;
    }
    proof {
        assert(ids_of(mv).take(maps@.len() as int) =~= ids_of(mv));
    }
    let blob = encode_browse(&ids);
    let r = db.put(browse_kind_str(), category, &blob);
    proof {
        if r is Err {
            assert(kv_of(*db) == spec_save_maps(kv0, mv.take(maps@.len() as int)));
        }
    }
    r
}

/// What loading a list of ids yields: the records whose rows read back, in
/// listing order, absent ids skipped; `None` when some row is malformed.
pub open spec fn spec_load_list(
    kv: Map<(Seq<char>, Seq<char>), Seq<u8>>,
    ids: Seq<Seq<char>>,
) -> Option<Seq<MapRecordView>>
    decreases ids.len(),
{
    if ids.len() == 0 {
        Some(seq![])
    } else {
        let h = spec_load_map(kv, ids[0]);
        if h is None {
            None
        } else if h->Some_0 is None {
            spec_load_list(kv, ids.drop_first())
        } else {
            let rest = spec_load_list(kv, ids.drop_first());
            if rest is None {
                None
            } else {
                Some(seq![h->Some_0->Some_0] + rest->Some_0)
            }
        }
    }
}

/// What the cache-first browse lookup yields: `Some(None)` when the
/// category has no usable listing, `Some(Some(records))` when it has, and
/// `None` when a stored row is malformed (reported as an error).
pub open spec fn spec_load_browse(
    kv: Map<(Seq<char>, Seq<char>), Seq<u8>>,
    cat: Seq<char>,
) -> Option<Option<Seq<MapRecordView>>> {
    if !kv.contains_key((browse_kind(), cat)) {
        Some(None)
    } else {
        let parsed = spec_parse(kv[(browse_kind(), cat)]);
        if parsed is None {
            None
        } else {
            let decoded = spec_dec_ids(parsed->Some_0);
            if decoded is None {
                None
            } else {
                let ids = decoded->Some_0;
                if ids.len() == 0 {
                    Some(None)
                } else {
                    let loaded = spec_load_list(kv, ids);
                    if loaded is None {
                        None
                    } else if loaded->Some_0.len() == 0 {
                        Some(None)
                    } else {
                        Some(Some(loaded->Some_0))
                    }
                }
            }
        }
    }
}

/// Loads the cached listing of a category: the cached records in listing
/// order, or nothing when the category has no usable listing. No network
/// is involved.
#[verifier::loop_isolation(false)]
pub fn load_browse_from_cache(db: &CacheDb, category: &str) -> (r: Result<
    Option<Vec<BeatSaverMap>>,
    String,
>)
    ensures
        r matches Ok(Some(ms)) ==> spec_load_browse(kv_of(*db), category@) == Some(
            Some(maps_view(ms@)),
        ),
        r matches Ok(None) ==> spec_load_browse(kv_of(*db), category@) == Some(
            None::<Seq<MapRecordView>>,
        ),
{
    let blob = match db.get(browse_kind_str(), category) {
        Err(e) => {
            return Err(e);
        },
        Ok(None) => {
            return Ok(None);
        },
        Ok(Some(b)) => b,
    };
    let ids = match decode_browse(&blob) {
        Some(ids) => ids,
        None => {
            return Err(String::from_str("corrupt cached browse listing"));
        },
    };
    if ids.len() == 0 {
        return Ok(None);
    }
    let ghost idv = strs_view(ids@);
    let mut found: Vec<BeatSaverMap> = Vec::new();
    let mut i: usize = 0;
    proof {
        assert(idv.skip(0) =~= idv);
        assert(maps_view(found@) =~= Seq::<MapRecordView>::empty());
        assert(forall|rest: Seq<MapRecordView>| #[trigger] (maps_view(found@) + rest) =~= rest);
    }
    while i < ids.len()
        invariant
            i <= ids@.len(),
            idv == strs_view(ids@),
            spec_load_list(kv_of(*db), idv) == match spec_load_list(
                kv_of(*db),
                idv.skip(i as int),
            ) {
                Some(rest) => Some(maps_view(found@) + rest),
                None => None::<Seq<MapRecordView>>,
            },
        decreases ids@.len() - i,
    {
        proof {
            assert(idv.skip(i as int)[0] == idv[i as int]);
            assert(idv.skip(i as int).drop_first() =~= idv.skip(i as int + 1));
        }
        match load_map_from_cache(db, ids[i].as_str()) {
            Err(e) => {
                return Err(e);
            },
            Ok(None) => {},
            Ok(Some(m)) => {
                proof {
                    let ghost fv = maps_view(found@);
                    assert(forall|rest: Seq<MapRecordView>|
                        fv + (seq![m@] + rest) =~= #[trigger] (fv.push(m@) + rest));
                }
                let ghost old_found = found@;
                found.push(m);
                proof {
                    assert(maps_view(found@) =~= maps_view(old_found).push(
                        found@[found@.len() - 1]@,
                    ));
                }
            },
        }
        i = i + 1;
    }
    proof {
        assert(idv.skip(ids@.len() as int) =~= Seq::<Seq<char>>::empty());
        assert(maps_view(found@) + Seq::<MapRecordView>::empty() =~= maps_view(found@));
    }
    if found.len() == 0 {
        Ok(None)
    } else {
        Ok(Some(found))
    }
}

/// Cache precedence: once a browse category holds a saved listing, the
/// cache-first lookup yields exactly the saved records, in order, whatever
/// the network would answer. Well-formedness and distinct ids hold of what
/// the service returns for a page.
#[verifier::rlimit(50)]
pub proof fn lemma_browse_precedence(
    kv: Map<(Seq<char>, Seq<char>), Seq<u8>>,
    cat: Seq<char>,
    ms: Seq<MapRecordView>,
)
    requires
        ms.len() > 0,
        forall|i: int| 0 <= i < ms.len() ==> map_record_wf(#[trigger] ms[i]),
        forall|i: int|
            0 <= i < ms.len() ==> spec_str_part((#[trigger] ms[i]).id).len() <= u64::MAX,
        forall|p: int, q: int| 0 <= p < q < ms.len() ==> ms[p].id != ms[q].id,
    ensures
        ({
            let kv2 = spec_save_maps(kv, ms).insert((browse_kind(), cat), spec_enc_browse(ids_of(ms)));
            spec_load_browse(kv2, cat) == Some(Some(ms))
        }),
{
    let kv2 = spec_save_maps(kv, ms).insert((browse_kind(), cat), spec_enc_browse(ids_of(ms)));
    let ids = ids_of(ms);
    assert(forall|i: int|
        0 <= i < ids.len() ==> #[trigger] spec_str_part(ids[i]).len() <= u64::MAX) by {
        assert(forall|i: int|
            0 <= i < ids.len() ==> #[trigger] ids[i] == ms[i].id && spec_str_part(ms[i].id).len()
                <= u64::MAX);
    }
    lemma_dec_ids(ids);
    lemma_load_saved_list(kv, kv2, cat, ms, 0);
    assert(ids.skip(0) =~= ids);
    assert(ms.skip(0) =~= ms);
    assert(spec_load_list(kv2, ids) == Some(ms));
    assert(ids.len() == ms.len());
}

/// Each suffix of a saved listing loads back as itself.
#[verifier::rlimit(50)]
proof fn lemma_load_saved_list(
    kv: Map<(Seq<char>, Seq<char>), Seq<u8>>,
    kv2: Map<(Seq<char>, Seq<char>), Seq<u8>>,
    cat: Seq<char>,
    ms: Seq<MapRecordView>,
    j: int,
)
    requires
        0 <= j <= ms.len(),
        forall|i: int| 0 <= i < ms.len() ==> map_record_wf(#[trigger] ms[i]),
        forall|p: int, q: int| 0 <= p < q < ms.len() ==> ms[p].id != ms[q].id,
        kv2 == spec_save_maps(kv, ms).insert((browse_kind(), cat), spec_enc_browse(ids_of(ms))),
    ensures
        spec_load_list(kv2, ids_of(ms).skip(j)) == Some(ms.skip(j)),
    decreases ms.len() - j,
{
    crate::store::lemma_kinds_distinct();
    let ids = ids_of(ms);
    if j == ms.len() {
        assert(ids.skip(j) =~= Seq::<Seq<char>>::empty());
        assert(ms.skip(j) =~= Seq::<MapRecordView>::empty());
    } else {
        lemma_save_maps_lookup(kv, ms, j);
        assert(ids.skip(j)[0] == ids[j]);
        assert(ids[j] == ms[j].id);
        assert(kv2.contains_key((map_kind(), ms[j].id)));
        assert(kv2[(map_kind(), ms[j].id)] == spec_enc_map(ms[j]));
        lemma_dec_map(ms[j]);
        assert(spec_load_map(kv2, ids.skip(j)[0]) == Some(Some(ms[j])));
        lemma_load_saved_list(kv, kv2, cat, ms, j + 1);
        assert(ids.skip(j).drop_first() =~= ids.skip(j + 1));
        assert(seq![ms[j]] + ms.skip(j + 1) =~= ms.skip(j));
    }
}

// ---------------------------------------------------------------------------
// The track worker's decision logic
// ---------------------------------------------------------------------------
/// The ghost shape of a queued track fetch.
pub ghost struct TrackRequestView {
    pub map_id: Seq<char>,
    pub download_url: Seq<char>,
}

/// One queued track fetch; immutable once enqueued.
#[derive(Debug, Clone)]
pub struct TrackFetchRequest {
    pub map_id: String,
    pub download_url: String,
}

impl View for TrackFetchRequest {
    type V = TrackRequestView;

    open spec fn view(&self) -> TrackRequestView {
        TrackRequestView { map_id: self.map_id@, download_url: self.download_url@ }
    }
}

/// The ghost shape of one emitted track result.
pub ghost struct TrackResultView {
    pub map_id: Seq<char>,
    pub status: Seq<char>,
    pub error: Option<Seq<char>>,
}

/// One emitted track result, correlated by map id; a failure is always
/// materialized as this value, never thrown past the worker.
#[derive(Debug, Clone)]
pub struct TrackFetchResult {
    pub map_id: String,
    pub status: String,
    pub error: Option<String>,
}

impl View for TrackFetchResult {
    type V = TrackResultView;

    open spec fn view(&self) -> TrackResultView {
        TrackResultView { map_id: self.map_id@, status: self.status@, error: opt_text(self.error) }
    }
}

/// What came back from one attempted download: the transport failed, the
/// service answered with a bare status, the body could not be read, or the
/// container bytes arrived.
#[derive(Debug, Clone)]
pub enum TrackFetchOutcome {
    Transport(String),
    Http(u16),
    ReadFailed(String),
    Body(Vec<u8>),
}

/// The result the worker answers from the cache when the store already
/// holds a bundle for the key; `None` otherwise.
pub open spec fn spec_track_cached(
    kv: Map<(Seq<char>, Seq<char>), Seq<u8>>,
    id: Seq<char>,
) -> Option<TrackResultView> {
    if kv.contains_key((download_kind(), id)) {
        Some(TrackResultView { map_id: id, status: status_already_cached(), error: None })
    } else {
        None
    }
}

/// The dedup re-check of the track worker: on a successful store read the
/// answer is exact in both directions, so a held key short-circuits to the
/// already-cached result and an absent key short-circuits nothing; only a
/// failed store read is reported as an error, and the caller then fetches.
pub fn track_cached_result(db: &CacheDb, map_id: &String) -> (r: Result<
    Option<TrackFetchResult>,
    String,
>)
    ensures
        r matches Ok(Some(res)) ==> spec_track_cached(kv_of(*db), map_id@) == Some(res@),
        r matches Ok(None) ==> spec_track_cached(kv_of(*db), map_id@) is None,
{
    match crate::mapdata::has_downloaded_map(db, map_id.as_str()) {
        Ok(true) => Ok(
            Some(
                TrackFetchResult {
                    map_id: map_id.clone(),
                    status: String::from_str(status_already_cached_str()),
                    error: None,
                },
            ),
        ),
        Ok(false) => Ok(None),
        Err(e) => Err(e),
    }
}

/// Dedup: once a worker has stored a bundle for a key, the re-check of the
/// next request for that key answers already-cached, and no fetch happens.
pub proof fn lemma_track_dedup(
    kv: Map<(Seq<char>, Seq<char>), Seq<u8>>,
    id: Seq<char>,
    blob: Seq<u8>,
)
    ensures
        spec_track_cached(kv.insert((download_kind(), id), blob), id) == Some(
            TrackResultView { map_id: id, status: status_already_cached(), error: None },
        ),
{
}

/// Turns the outcome of one attempted download into the terminal result,
/// extracting and caching the bundle best-effort: a storage failure never
/// downgrades a successful fetch.
pub fn track_apply_outcome(
    db: &mut CacheDb,
    req: &TrackFetchRequest,
    outcome: TrackFetchOutcome,
) -> (r: TrackFetchResult)
    ensures
        r@.map_id == req@.map_id,
        outcome matches TrackFetchOutcome::Transport(e) ==> ({
            &&& kv_of(*final(db)) == kv_of(*old(db))
            &&& r@.status == status_error()
            &&& r@.error == Some("Download failed: "@ + e@)
        }),
        outcome matches TrackFetchOutcome::Http(s) ==> ({
            &&& kv_of(*final(db)) == kv_of(*old(db))
            &&& r@.status == status_error()
            &&& r@.error == Some("HTTP "@ + crate::numbers::spec_dec(s as nat))
        }),
        outcome matches TrackFetchOutcome::ReadFailed(e) ==> ({
            &&& kv_of(*final(db)) == kv_of(*old(db))
            &&& r@.status == status_error()
            &&& r@.error == Some("Download read failed: "@ + e@)
        }),
        outcome matches TrackFetchOutcome::Body(b) ==> ({
            &&& (zip_entries(b@) matches Some(es) ==> ((zip_readable(b@) && spec_extract(
                es,
            ) is Ok) ==> r@.status == status_success()))
            &&& (r@.status == status_success() ==> (zip_entries(b@) matches Some(es)
                && spec_extract(es) matches Ok(d) && (kv_of(*final(db)) == kv_of(*old(db)).insert(
                (download_kind(), req@.map_id),
                spec_enc_bundle(d),
            ) || kv_of(*final(db)) == kv_of(*old(db))) && r@.error is None))
            &&& (r@.status != status_success() ==> ({
                &&& r@.status == status_error()
                &&& r@.error is Some
                &&& kv_of(*final(db)) == kv_of(*old(db))
            }))
            &&& (zip_entries(b@) matches Some(es) && spec_extract(es) is Err ==> r@.status
                == status_error())
            &&& (zip_entries(b@) is None ==> r@.status == status_error())
        }),
{
    match outcome {
        TrackFetchOutcome::Transport(e) => {
            let mut msg = String::from_str("Download failed: ");
            msg.append(e.as_str());
            TrackFetchResult {
                map_id: req.map_id.clone(),
                status: String::from_str(status_error_str()),
                error: Some(msg),
            }
        },
        TrackFetchOutcome::Http(s) => {
            let mut msg = String::from_str("HTTP ");
            msg.append(u64_to_dec(s as u64).as_str());
            TrackFetchResult {
                map_id: req.map_id.clone(),
                status: String::from_str(status_error_str()),
                error: Some(msg),
            }
        },
        TrackFetchOutcome::ReadFailed(e) => {
            let mut msg = String::from_str("Download read failed: ");
            msg.append(e.as_str());
            TrackFetchResult {
                map_id: req.map_id.clone(),
                status: String::from_str(status_error_str()),
                error: Some(msg),
            }
        },
        TrackFetchOutcome::Body(b) => {
            proof {
                crate::status::lemma_status_distinct();
            }
            match extract_map_data(&b) {
                Ok(data) => {
                    let _ = crate::mapdata::save_downloaded_map(db, req.map_id.as_str(), &data);
                    TrackFetchResult {
                        map_id: req.map_id.clone(),
                        status: String::from_str(status_success_str()),
                        error: None,
                    }
                },
                Err(e) => TrackFetchResult {
                    map_id: req.map_id.clone(),
                    status: String::from_str(status_error_str()),
                    error: Some(e.message()),
                },
            }
        },
    }
}

/// The synchronous inline fetch completion: extracts the downloaded bytes
/// and caches the bundle best-effort, handing the bundle (or the
/// extraction failure's message) straight back to the caller.
pub fn store_downloaded_track(db: &mut CacheDb, map_id: &str, bytes: &Vec<u8>) -> (r: Result<
    BeatSaverMapData,
    String,
>)
    ensures
        r matches Ok(d) ==> zip_entries(bytes@) matches Some(es) && spec_extract(es) == Ok::<
            crate::mapdata::MapDataView,
            crate::archive::ExtractKind,
        >(d@) && (kv_of(*final(db)) == kv_of(*old(db)).insert(
            (download_kind(), map_id@),
            spec_enc_bundle(d@),
        ) || kv_of(*final(db)) == kv_of(*old(db))),
        r is Err ==> kv_of(*final(db)) == kv_of(*old(db)),
        zip_entries(bytes@) matches Some(es) ==> (zip_readable(bytes@) ==> (match r {
            Ok(d) => spec_extract(es) == Ok::<
                crate::mapdata::MapDataView,
                crate::archive::ExtractKind,
            >(d@),
            Err(_) => spec_extract(es) is Err,
        })),
{
    match extract_map_data(bytes) {
        Ok(data) => {
            let _ = crate::mapdata::save_downloaded_map(db, map_id, &data);
            Ok(data)
        },
        Err(e) => Err(e.message()),
    }
}

} // verus!
