//! The extracted map bundle: the primary descriptor, the difficulty files
//! under their original-case names, the audio payload and the optional cover
//! image, both payloads carried as base64 text. The bundle is framed into
//! bytes for the durable store, and framing round-trips.

use crate::store::{download_kind, download_kind_str, kv_of, CacheDb};
use crate::wire::{
    decode_parts, encode_parts, lemma_parse_frame_all, lemma_part_view, lemma_take_opt_str_part,
    lemma_take_str_part, opt_str_part, pairs_view, push_part, spec_frame_all, spec_opt_str_part,
    spec_parse, spec_str_part, spec_take_opt_str, spec_take_str, str_part, take_opt_str, take_str,
};
use vstd::prelude::*;
use vstd::string::StringExecFns;

verus! {

/// The ghost shape of an extracted map bundle.
pub ghost struct MapDataView {
    pub info_dat: Seq<char>,
    pub beatmaps: Seq<(Seq<char>, Seq<char>)>,
    pub audio_base64: Seq<char>,
    pub cover_base64: Option<Seq<char>>,
}

/// An extracted map bundle: the durable artifact of one map download.
#[derive(Debug, Clone)]
pub struct BeatSaverMapData {
    pub info_dat: String,
    pub beatmaps: Vec<(String, String)>,
    pub audio_base64: String,
    pub cover_base64: Option<String>,
}

impl View for BeatSaverMapData {
    type V = MapDataView;

    open spec fn view(&self) -> MapDataView {
        MapDataView {
            info_dat: self.info_dat@,
            beatmaps: pairs_view(self.beatmaps@),
            audio_base64: self.audio_base64@,
            cover_base64: match self.cover_base64 {
                Some(s) => Some(s@),
                None => None,
            },
        }
    }
}

/// The difficulty-file names of a bundle are pairwise distinct.
pub open spec fn unique_names(ms: Seq<(Seq<char>, Seq<char>)>) -> bool {
    forall|i: int, j: int| 0 <= i < j < ms.len() ==> ms[i].0 != ms[j].0
}

// ---------------------------------------------------------------------------
// Framing
// ---------------------------------------------------------------------------
/// The parts of the filename/content list: two parts per entry.
pub open spec fn spec_pair_parts(ms: Seq<(Seq<char>, Seq<char>)>) -> Seq<Seq<u8>>
    decreases ms.len(),
{
    if ms.len() == 0 {
        seq![]
    } else {
        seq![spec_str_part(ms[0].0), spec_str_part(ms[0].1)] + spec_pair_parts(ms.drop_first())
    }
}

/// All parts of a bundle: the three fixed fields, then the entry pairs.
pub open spec fn spec_bundle_parts(d: MapDataView) -> Seq<Seq<u8>> {
    seq![
        spec_str_part(d.info_dat),
        spec_str_part(d.audio_base64),
        spec_opt_str_part(d.cover_base64),
    ] + spec_pair_parts(d.beatmaps)
}

/// The stored bytes of a bundle.
pub open spec fn spec_enc_bundle(d: MapDataView) -> Seq<u8> {
    spec_frame_all(spec_bundle_parts(d))
}

/// Reads a filename/content list back from its parts.
pub open spec fn spec_dec_pairs(ps: Seq<Seq<u8>>) -> Option<Seq<(Seq<char>, Seq<char>)>>
    decreases ps.len(),
{
    if ps.len() == 0 {
        Some(seq![])
    } else if ps.len() == 1 {
        None
    } else if spec_take_str(ps[0]) is Some && spec_take_str(ps[1]) is Some && spec_dec_pairs(
        ps.skip(2),
    ) is Some {
        Some(
            seq![(spec_take_str(ps[0])->Some_0, spec_take_str(ps[1])->Some_0)] + spec_dec_pairs(
                ps.skip(2),
            )->Some_0,
        )
    } else {
        None
    }
}

/// Reads a bundle back from stored bytes; `None` on malformed bytes.
pub open spec fn spec_dec_bundle(b: Seq<u8>) -> Option<MapDataView> {
    match spec_parse(b) {
        None => None,
        Some(ps) => {
            if ps.len() >= 3 && spec_take_str(ps[0]) is Some && spec_take_str(ps[1]) is Some
                && spec_take_opt_str(ps[2]) is Some && spec_dec_pairs(ps.skip(3)) is Some {
                Some(
                    MapDataView {
                        info_dat: spec_take_str(ps[0])->Some_0,
                        beatmaps: spec_dec_pairs(ps.skip(3))->Some_0,
                        audio_base64: spec_take_str(ps[1])->Some_0,
                        cover_base64: spec_take_opt_str(ps[2])->Some_0,
                    },
                )
            } else {
                None
            }
        },
    }
}

/// Every part of a bundle fits a length prefix; true of every bundle an
/// executable value can hold.
pub open spec fn bundle_bounded(d: MapDataView) -> bool {
    let ps = spec_bundle_parts(d);
    forall|i: int| 0 <= i < ps.len() ==> #[trigger] ps[i].len() <= u64::MAX
}

/// Appending one entry extends the pair parts by its two parts.
pub proof fn lemma_pair_parts_push(ms: Seq<(Seq<char>, Seq<char>)>, m: (Seq<char>, Seq<char>))
    ensures
        spec_pair_parts(ms.push(m)) == spec_pair_parts(ms) + seq![
            spec_str_part(m.0),
            spec_str_part(m.1),
        ],
    decreases ms.len(),
{
    let q = ms.push(m);
    if ms.len() == 0 {
        assert(q[0] == m);
        assert(q.drop_first() =~= Seq::<(Seq<char>, Seq<char>)>::empty());
        assert(spec_pair_parts(q.drop_first()) == Seq::<Seq<u8>>::empty());
        assert(spec_pair_parts(q) =~= spec_pair_parts(ms) + seq![
            spec_str_part(m.0),
            spec_str_part(m.1),
        ]);
    } else {
        assert(q[0] == ms[0]);
        assert(q.drop_first() =~= ms.drop_first().push(m));
        lemma_pair_parts_push(ms.drop_first(), m);
        let a = seq![spec_str_part(ms[0].0), spec_str_part(ms[0].1)];
        let b = spec_pair_parts(ms.drop_first());
        let c = seq![spec_str_part(m.0), spec_str_part(m.1)];
        assert(spec_pair_parts(q) == a + spec_pair_parts(q.drop_first()));
        assert(spec_pair_parts(q.drop_first()) == b + c);
        assert(spec_pair_parts(ms) == a + b);
        assert(a + (b + c) =~= (a + b) + c);
    }
}

/// Reading pair parts back yields the original list.
pub proof fn lemma_dec_pairs(ms: Seq<(Seq<char>, Seq<char>)>)
    ensures
        spec_dec_pairs(spec_pair_parts(ms)) == Some(ms),
    decreases ms.len(),
{
    if ms.len() == 0 {
    } else {
        lemma_take_str_part(ms[0].0);
        lemma_take_str_part(ms[0].1);
        lemma_dec_pairs(ms.drop_first());
        let ps = spec_pair_parts(ms);
        assert(ps.skip(2) =~= spec_pair_parts(ms.drop_first()));
        assert(ms[0] == (ms[0].0, ms[0].1));
        assert(seq![(ms[0].0, ms[0].1)] + ms.drop_first() =~= ms);
    }
}

/// Decoding inverts encoding: the round trip of one bundle.
pub proof fn lemma_dec_bundle(d: MapDataView)
    requires
        bundle_bounded(d),
    ensures
        spec_dec_bundle(spec_enc_bundle(d)) == Some(d),
{
    let ps = spec_bundle_parts(d);
    lemma_parse_frame_all(ps);
    lemma_take_str_part(d.info_dat);
    lemma_take_str_part(d.audio_base64);
    lemma_take_opt_str_part(d.cover_base64);
    assert(ps.skip(3) =~= spec_pair_parts(d.beatmaps));
    lemma_dec_pairs(d.beatmaps);
}

/// Frames a bundle into the bytes the store holds.
pub fn encode_bundle(d: &BeatSaverMapData) -> (r: Vec<u8>)
    ensures
        r@ == spec_enc_bundle(d@),
{
    let ghost fixed = seq![
        spec_str_part(d@.info_dat),
        spec_str_part(d@.audio_base64),
        spec_opt_str_part(d@.cover_base64),
    ];
    let mut parts: Vec<Vec<u8>> = Vec::new();
    push_part(&mut parts, str_part(d.info_dat.as_str()));
    push_part(&mut parts, str_part(d.audio_base64.as_str()));
    push_part(&mut parts, opt_str_part(&d.cover_base64));
    proof {
        assert(parts.deep_view() =~= fixed + spec_pair_parts(d@.beatmaps.take(0)));
    }
    let mut i: usize = 0;
    while i < d.beatmaps.len()
        invariant
            i <= d.beatmaps.len(),
            parts.deep_view() == fixed + spec_pair_parts(d@.beatmaps.take(i as int)),
        decreases d.beatmaps.len() - i,
    {
        let ghost taken = d@.beatmaps.take(i as int);
        let name = &d.beatmaps[i].0;
        let text = &d.beatmaps[i].1;
        push_part(&mut parts, str_part(name.as_str()));
        push_part(&mut parts, str_part(text.as_str()));
        proof {
            let m = d@.beatmaps[i as int];
            assert(m == (name@, text@));
            lemma_pair_parts_push(taken, m);
            assert(taken.push(m) =~= d@.beatmaps.take(i as int + 1));
            assert(parts.deep_view() =~= fixed + spec_pair_parts(taken.push(m)));
        }
        i = i + 1;
    }
    proof {
        assert(d@.beatmaps.take(d.beatmaps.len() as int) =~= d@.beatmaps);
        assert(parts.deep_view() =~= spec_bundle_parts(d@));
    }
    encode_parts(&parts)
}

/// Reads a bundle back from stored bytes.
#[verifier::loop_isolation(false)]
pub fn decode_bundle(b: &Vec<u8>) -> (r: Option<BeatSaverMapData>)
    ensures
        match r {
            Some(d) => spec_dec_bundle(b@) == Some(d@),
            None => spec_dec_bundle(b@) is None,
        },
{
    let parts = match decode_parts(b) {
        Some(p) => p,
        None => {
            return None;
        },
    };
    let ghost pv = parts.deep_view();
    let n = parts.len();
    if n < 3 {
        return None;
    }
    proof {
        lemma_part_view(parts, 0);
        lemma_part_view(parts, 1);
        lemma_part_view(parts, 2);
    }
    let info_dat = match take_str(&parts[0]) {
        Some(s) => s,
        None => {
            return None;
        },
    };
    let audio_base64 = match take_str(&parts[1]) {
        Some(s) => s,
        None => {
            return None;
        },
    };
    let cover_base64 = match take_opt_str(&parts[2]) {
        Some(o) => o,
        None => {
            return None;
        },
    };
    let mut maps: Vec<(String, String)> = Vec::new();
    let mut i: usize = 3;
    proof {
        assert(pairs_view(maps@) =~= Seq::<(Seq<char>, Seq<char>)>::empty());
        assert(forall|rest: Seq<(Seq<char>, Seq<char>)>| #[trigger]
            (pairs_view(maps@) + rest) =~= rest);
    }
    while i < n
        invariant
            3 <= i <= n,
            n == parts@.len(),
            pv == parts.deep_view(),
            spec_dec_pairs(pv.skip(3)) == match spec_dec_pairs(pv.skip(i as int)) {
                Some(rest) => Some(pairs_view(maps@) + rest),
                None => None::<Seq<(Seq<char>, Seq<char>)>>,
            },
        decreases n - i,
    {
        if n - i == 1 {
            return None;
        }
        proof {
            lemma_part_view(parts, i as int);
            lemma_part_view(parts, i as int + 1);
            assert(pv.skip(i as int)[0] == pv[i as int]);
            assert(pv.skip(i as int)[1] == pv[i as int + 1]);
        }
        let name = match take_str(&parts[i]) {
            Some(s) => s,
            None => {
                return None;
            },
        };
        let text = match take_str(&parts[i + 1]) {
            Some(s) => s,
            None => {
                return None;
            },
        };
        proof {
            assert(pv.skip(i as int).skip(2) =~= pv.skip(i as int + 2));
            let ghost mv = pairs_view(maps@);
            assert(forall|rest: Seq<(Seq<char>, Seq<char>)>|
                mv + (seq![(name@, text@)] + rest) =~= #[trigger] (mv.push((name@, text@))
                    + rest));
        }
        let ghost old_maps = maps@;
        maps.push((name, text));
        proof {
            assert(pairs_view(maps@) =~= pairs_view(old_maps).push((maps@[maps@.len() - 1].0@,
            maps@[maps@.len() - 1].1@)));
        }
        i = i + 2;
    }
    proof {
        assert(pv.skip(n as int) =~= Seq::<Seq<u8>>::empty());
        assert(pairs_view(maps@) + Seq::<(Seq<char>, Seq<char>)>::empty() =~= pairs_view(maps@));
    }
    Some(
        BeatSaverMapData {
            info_dat,
            beatmaps: maps,
            audio_base64,
            cover_base64,
        },
    )
}

// ---------------------------------------------------------------------------
// Store operations
// ---------------------------------------------------------------------------
/// Persists an extracted bundle under its map id; the latest save wins.
pub fn save_downloaded_map(db: &mut CacheDb, map_id: &str, data: &BeatSaverMapData) -> (r: Result<
    (),
    String,
>)
    ensures
        r is Ok ==> kv_of(*final(db)) == kv_of(*old(db)).insert(
            (download_kind(), map_id@),
            spec_enc_bundle(data@),
        ),
        r is Err ==> kv_of(*final(db)) == kv_of(*old(db)),
{
    let blob = encode_bundle(data);
    db.put(download_kind_str(), map_id, &blob)
}

/// Loads the bundle stored under a map id, if any; a stored row that does
/// not frame back is reported as an error.
pub fn load_downloaded_map(db: &CacheDb, map_id: &str) -> (r: Result<
    Option<BeatSaverMapData>,
    String,
>)
    ensures
        r matches Ok(Some(d)) ==> kv_of(*db).contains_key((download_kind(), map_id@))
            && spec_dec_bundle(kv_of(*db)[(download_kind(), map_id@)]) == Some(d@),
        r matches Ok(None) ==> !kv_of(*db).contains_key((download_kind(), map_id@)),
{
    match db.get(download_kind_str(), map_id) {
        Err(e) => Err(e),
        Ok(None) => Ok(None),
        Ok(Some(blob)) => match decode_bundle(&blob) {
            Some(d) => Ok(Some(d)),
            None => Err(String::from_str("corrupt cached map bundle")),
        },
    }
}

/// Reports whether a bundle is stored under the map id: the pure cache
/// existence check.
pub fn has_downloaded_map(db: &CacheDb, map_id: &str) -> (r: Result<bool, String>)
    ensures
        r matches Ok(b) ==> b == kv_of(*db).contains_key((download_kind(), map_id@)),
{
    db.has(download_kind_str(), map_id)
}

/// Round trip: saving a bundle under a key and loading that key yields an
/// equal bundle. Boundedness holds of every bundle an executable value can
/// hold.
pub proof fn lemma_bundle_round_trip(
    kv: Map<(Seq<char>, Seq<char>), Seq<u8>>,
    map_id: Seq<char>,
    d: MapDataView,
)
    requires
        bundle_bounded(d),
    ensures
        ({
            let kv2 = kv.insert((download_kind(), map_id), spec_enc_bundle(d));
            &&& kv2.contains_key((download_kind(), map_id))
            &&& spec_dec_bundle(kv2[(download_kind(), map_id)]) == Some(d)
        }),
{
    lemma_dec_bundle(d);
}

} // verus!
