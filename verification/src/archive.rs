//! Archive extraction: a multi-entry compressed container is parsed into a
//! typed bundle. Entries are classified by the lower-cased suffix of their
//! names; contents are stored under the original-case names. Extraction
//! fails with a typed error when the container is corrupt, holds no audio
//! entry, or holds no usable descriptor.

use crate::b64::{base64_encode, spec_b64_chars};
use crate::mapdata::{unique_names, BeatSaverMapData, MapDataView};
use crate::text::{lower_of, lowercase};
use crate::wire::{bytes_to_string, pairs_view, spec_take_str};
use vstd::prelude::*;
use vstd::slice::slice_to_vec;
use vstd::string::{StrSliceExecFns, StringExecFns};

verus! {

// ---------------------------------------------------------------------------
// Reading the container
// ---------------------------------------------------------------------------
/// A parsed container held open for entry reads.
#[verifier::external_body]
pub struct MapArchive {
    inner: zip::ZipArchive<std::io::Cursor<Vec<u8>>>,
}

/// What a container parses to: its (name, contents) entries in archive
/// order, or nothing when the container is refused. A function of the
/// bytes alone.
pub uninterp spec fn zip_entries(bytes: Seq<u8>) -> Option<Seq<(Seq<char>, Seq<u8>)>>;

/// True when every entry of the container at these bytes reads back, that
/// is, decompresses without error. The container is held fully in memory,
/// so this too is a function of the bytes alone.
pub uninterp spec fn zip_readable(bytes: Seq<u8>) -> bool;

/// The entries of an opened archive.
pub uninterp spec fn entries_of(a: MapArchive) -> Seq<(Seq<char>, Seq<u8>)>;

/// Whether every entry of an opened archive reads back.
pub uninterp spec fn archive_readable(a: MapArchive) -> bool;

/// Relies on zip::ZipArchive::new: whether the bytes open, what they hold,
/// and whether each entry will read back are all deterministic in the
/// bytes.
#[verifier::external_body]
fn open_archive(bytes: &Vec<u8>) -> (r: Result<MapArchive, String>)
    ensures
        r matches Ok(a) ==> zip_entries(bytes@) == Some(entries_of(a)) && archive_readable(a)
            == zip_readable(bytes@),
        r is Err ==> zip_entries(bytes@) is None,
{
    match zip::ZipArchive::new(std::io::Cursor::new(bytes.clone())) {
        Ok(inner) => Ok(MapArchive { inner }),
        Err(e) => Err(e.to_string()),
    }
}

/// Relies on zip::ZipArchive::len: the number of entries.
#[verifier::external_body]
fn archive_len(a: &MapArchive) -> (r: usize)
    ensures
        r == entries_of(*a).len(),
{
    a.inner.len()
}

/// Relies on zip::ZipArchive::by_index, zip::read::ZipFile::name and
/// std::io::Read::read_to_end: one entry's name and decompressed contents.
/// Reading fails only on an entry that does not read back (corrupt or
/// encrypted compressed data), so it succeeds on a readable archive; the
/// archive's entry list and readability are unchanged either way.
#[verifier::external_body]
fn read_entry(a: &mut MapArchive, i: usize) -> (r: Result<(String, Vec<u8>), String>)
    requires
        i < entries_of(*old(a)).len(),
    ensures
        entries_of(*final(a)) == entries_of(*old(a)),
        archive_readable(*final(a)) == archive_readable(*old(a)),
        r matches Ok(e) ==> (e.0@, e.1@) == entries_of(*old(a))[i as int],
        archive_readable(*old(a)) ==> r is Ok,
{
    let mut file = match a.inner.by_index(i) {
        Ok(f) => f,
        Err(e) => {
            return Err(e.to_string());
        },
    };
    let name = file.name().to_string();
    let mut buf = Vec::new();
    match std::io::Read::read_to_end(&mut file, &mut buf) {
        Ok(_) => Ok((name, buf)),
        Err(e) => Err(e.to_string()),
    }
}

// ---------------------------------------------------------------------------
// Text comparisons
// ---------------------------------------------------------------------------
/// True when `s` ends in `suffix`.
pub open spec fn spec_ends_with(s: Seq<char>, suffix: Seq<char>) -> bool {
    s.len() >= suffix.len() && s.subrange(s.len() - suffix.len(), s.len() as int) == suffix
}

/// Compares two texts for equality.
pub fn str_eq(s: &str, t: &str) -> (r: bool)
    ensures
        r == (s@ == t@),
{
    let n = s.unicode_len();
    let m = t.unicode_len();
    if n != m {
        proof {
            assert(s@ != t@);
        }
        return false;
    }
    let mut i: usize = 0;
    while i < n
        invariant
            i <= n,
            n == s@.len(),
            n == t@.len(),
            forall|j: int| 0 <= j < i ==> s@[j] == t@[j],
        decreases n - i,
    {
        if s.get_char(i) != t.get_char(i) {
            proof {
                assert(s@[i as int] != t@[i as int]);
            }
            return false;
        }
        i = i + 1;
    }
    proof {
        assert(s@ =~= t@);
    }
    true
}

/// Tests whether a text ends in a suffix.
pub fn str_ends_with(s: &str, suffix: &str) -> (r: bool)
    ensures
        r == spec_ends_with(s@, suffix@),
{
    let n = s.unicode_len();
    let m = suffix.unicode_len();
    if n < m {
        return false;
    }
    let ghost tail = s@.subrange(s@.len() - suffix@.len(), s@.len() as int);
    let mut i: usize = 0;
    while i < m
        invariant
            i <= m,
            m <= n,
            n == s@.len(),
            m == suffix@.len(),
            tail == s@.subrange(s@.len() - suffix@.len(), s@.len() as int),
            forall|j: int| 0 <= j < i ==> tail[j] == suffix@[j],
        decreases m - i,
    {
        let c = s.get_char(n - m + i);
        let d = suffix.get_char(i);
        proof {
            assert(tail[i as int] == s@[n - m + i as int]);
        }
        if c != d {
            proof {
                assert(tail[i as int] != suffix@[i as int]);
                assert(tail != suffix@);
            }
            return false;
        }
        i = i + 1;
    }
    proof {
        assert(tail =~= suffix@);
    }
    true
}

// ---------------------------------------------------------------------------
// Classification
// ---------------------------------------------------------------------------
/// True of an entry whose lower-cased name is exactly the descriptor name.
pub open spec fn is_info_entry(name: Seq<char>) -> bool {
    lower_of(name) == "info.dat"@
}

/// True of a difficulty file: a `.dat` suffix, but not the descriptor.
pub open spec fn is_dat_entry(name: Seq<char>) -> bool {
    !is_info_entry(name) && spec_ends_with(lower_of(name), ".dat"@)
}

/// True of an audio entry.
pub open spec fn is_audio_entry(name: Seq<char>) -> bool {
    !is_info_entry(name) && !is_dat_entry(name) && (spec_ends_with(lower_of(name), ".ogg"@)
        || spec_ends_with(lower_of(name), ".egg"@))
}

/// True of a cover-image entry.
pub open spec fn is_cover_entry(name: Seq<char>) -> bool {
    !is_info_entry(name) && !is_dat_entry(name) && !is_audio_entry(name) && (spec_ends_with(
        lower_of(name),
        ".jpg"@,
    ) || spec_ends_with(lower_of(name), ".jpeg"@) || spec_ends_with(lower_of(name), ".png"@))
}

/// Case-insensitivity: classification reads only the lower-cased name, so
/// two names with one lower-cased form are classified identically; the
/// original-case name is still what the mapping keys keep.
pub proof fn lemma_classification_case_insensitive(n1: Seq<char>, n2: Seq<char>)
    requires
        lower_of(n1) == lower_of(n2),
    ensures
        is_info_entry(n1) == is_info_entry(n2),
        is_dat_entry(n1) == is_dat_entry(n2),
        is_audio_entry(n1) == is_audio_entry(n2),
        is_cover_entry(n1) == is_cover_entry(n2),
{
}

/// Replaces the value under a name, or appends the pair when the name is
/// new: names stay unique and insertion order is kept.
pub open spec fn upsert_pair(
    ms: Seq<(Seq<char>, Seq<char>)>,
    k: Seq<char>,
    v: Seq<char>,
) -> Seq<(Seq<char>, Seq<char>)> {
    if exists|i: int| 0 <= i < ms.len() && ms[i].0 == k {
        let i = choose|i: int| 0 <= i < ms.len() && ms[i].0 == k;
        ms.update(i, (k, v))
    } else {
        ms.push((k, v))
    }
}

/// The extraction state after some entries have been walked.
pub ghost struct ExtractState {
    pub info: Option<Seq<char>>,
    pub beatmaps: Seq<(Seq<char>, Seq<char>)>,
    pub audio: Option<Seq<u8>>,
    pub cover: Option<Seq<u8>>,
}

/// The state before any entry.
pub open spec fn empty_state() -> ExtractState {
    ExtractState { info: None, beatmaps: seq![], audio: None, cover: None }
}

/// One entry applied to the state: the descriptor is decoded as text and
/// the first occurrence wins; any other `.dat` is decoded as text and
/// stored under its original-case name, the last occurrence of one name
/// winning; audio and cover keep the last occurrence; anything else is
/// ignored. `None` when a text entry is not UTF-8.
pub open spec fn spec_step(st: ExtractState, name: Seq<char>, data: Seq<u8>) -> Option<
    ExtractState,
> {
    if is_info_entry(name) {
        if st.info is Some {
            Some(st)
        } else {
            match spec_take_str(data) {
                Some(text) => Some(ExtractState { info: Some(text), ..st }),
                None => None,
            }
        }
    } else if is_dat_entry(name) {
        match spec_take_str(data) {
            Some(text) => Some(ExtractState { beatmaps: upsert_pair(st.beatmaps, name, text), ..st }),
            None => None,
        }
    } else if is_audio_entry(name) {
        Some(ExtractState { audio: Some(data), ..st })
    } else if is_cover_entry(name) {
        Some(ExtractState { cover: Some(data), ..st })
    } else {
        Some(st)
    }
}

/// All entries applied in order.
pub open spec fn spec_run(entries: Seq<(Seq<char>, Seq<u8>)>, st: ExtractState) -> Option<
    ExtractState,
>
    decreases entries.len(),
{
    if entries.len() == 0 {
        Some(st)
    } else {
        match spec_step(st, entries[0].0, entries[0].1) {
            None => None,
            Some(st2) => spec_run(entries.drop_first(), st2),
        }
    }
}

/// The kind of an extraction failure.
pub ghost enum ExtractKind {
    Corrupt,
    NoAudio,
    NoDescriptor,
}

/// A typed extraction failure.
#[derive(Debug, Clone)]
pub enum ExtractError {
    CorruptContainer(String),
    MissingAudio,
    MissingDescriptor,
}

/// The kind of a failure value.
pub open spec fn kind_of(e: ExtractError) -> ExtractKind {
    match e {
        ExtractError::CorruptContainer(_) => ExtractKind::Corrupt,
        ExtractError::MissingAudio => ExtractKind::NoAudio,
        ExtractError::MissingDescriptor => ExtractKind::NoDescriptor,
    }
}

impl ExtractError {
    /// A human-readable message, as the pipeline reports it.
    pub fn message(&self) -> (r: String)
        ensures
            *self matches ExtractError::CorruptContainer(s) ==> r@ == s@,
            *self is MissingAudio ==> r@ == "No audio file found in ZIP"@,
            *self is MissingDescriptor ==> r@ == "No Info.dat found in ZIP"@,
    {
        match self {
            ExtractError::CorruptContainer(s) => s.clone(),
            ExtractError::MissingAudio => String::from_str("No audio file found in ZIP"),
            ExtractError::MissingDescriptor => String::from_str("No Info.dat found in ZIP"),
        }
    }
}

/// What a list of entries extracts to: the walked state, then the
/// post-conditions; binary payloads become base64 text.
pub open spec fn spec_extract(entries: Seq<(Seq<char>, Seq<u8>)>) -> Result<
    MapDataView,
    ExtractKind,
> {
    match spec_run(entries, empty_state()) {
        None => Err(ExtractKind::Corrupt),
        Some(st) => {
            if st.audio is None {
                Err(ExtractKind::NoAudio)
            } else if st.info is None || st.info->Some_0.len() == 0 {
                Err(ExtractKind::NoDescriptor)
            } else {
                Ok(
                    MapDataView {
                        info_dat: st.info->Some_0,
                        beatmaps: st.beatmaps,
                        audio_base64: spec_b64_chars(st.audio->Some_0),
                        cover_base64: match st.cover {
                            Some(c) => Some(spec_b64_chars(c)),
                            None => None,
                        },
                    },
                )
            }
        },
    }
}

/// The view of an entry list.
pub open spec fn entries_view(es: Seq<(String, Vec<u8>)>) -> Seq<(Seq<char>, Seq<u8>)> {
    es.map_values(|e: (String, Vec<u8>)| (e.0@, e.1@))
}

/// The view of an optional byte payload.
pub open spec fn opt_bytes(o: Option<Vec<u8>>) -> Option<Seq<u8>> {
    match o {
        Some(v) => Some(v@),
        None => None,
    }
}

/// The view of an optional text value.
pub open spec fn opt_view(o: Option<String>) -> Option<Seq<char>> {
    match o {
        Some(s) => Some(s@),
        None => None,
    }
}

/// The ghost state the walk's locals stand for.
pub open spec fn state_of(
    info: Option<String>,
    maps: Seq<(String, String)>,
    audio: Option<Vec<u8>>,
    cover: Option<Vec<u8>>,
) -> ExtractState {
    ExtractState {
        info: opt_view(info),
        beatmaps: pairs_view(maps),
        audio: opt_bytes(audio),
        cover: opt_bytes(cover),
    }
}

/// Replaces the value under a name or appends the pair, keeping names
/// unique and order stable.
fn upsert_exec(maps: &mut Vec<(String, String)>, name: &String, text: String)
    requires
        unique_names(pairs_view(old(maps)@)),
    ensures
        pairs_view(final(maps)@) == upsert_pair(pairs_view(old(maps)@), name@, text@),
        unique_names(pairs_view(final(maps)@)),
{
    let n = maps.len();
    let mut j: usize = 0;
    while j < n
        invariant
            j <= n,
            n == maps@.len(),
            maps@ == old(maps)@,
            forall|k: int| 0 <= k < j ==> pairs_view(maps@)[k].0 != name@,
            unique_names(pairs_view(maps@)),
        decreases n - j,
    {
        if str_eq(maps[j].0.as_str(), name.as_str()) {
            let ghost mv = pairs_view(maps@);
            proof {
                assert(mv[j as int].0 == name@);
                assert(exists|k: int| 0 <= k < mv.len() && mv[k].0 == name@);
                let k = choose|k: int| 0 <= k < mv.len() && mv[k].0 == name@;
                assert(k == j as int) by {
                    if k < j as int {
                        assert(mv[k].0 != name@);
                    } else if k > j as int {
                        assert(mv[j as int].0 == mv[k].0);
                    }
                }
            }
            maps.remove(j);
            maps.insert(j, (name.clone(), text));
            proof {
                assert(pairs_view(maps@) =~= mv.update(j as int, (name@, text@)));
                assert forall|p: int, q: int|
                    0 <= p < q < pairs_view(maps@).len() implies pairs_view(maps@)[p].0
                    != pairs_view(maps@)[q].0 by {
                    assert(mv[p].0 != mv[q].0);
                }
            }
            return ;
        }
        j = j + 1;
    }
    let ghost mv = pairs_view(maps@);
    maps.push((name.clone(), text));
    proof {
        assert(forall|k: int| 0 <= k < mv.len() ==> mv[k].0 != name@);
        assert(!(exists|k: int| 0 <= k < mv.len() && mv[k].0 == name@));
        assert(pairs_view(maps@) =~= mv.push((name@, text@)));
        assert forall|p: int, q: int|
            0 <= p < q < pairs_view(maps@).len() implies pairs_view(maps@)[p].0 != pairs_view(
            maps@,
        )[q].0 by {
            if q < mv.len() {
                assert(mv[p].0 != mv[q].0);
            } else {
                assert(mv[p].0 != name@);
            }
        }
    }
}

/// Extracts a typed bundle from a list of (name, contents) entries: the
/// decision logic of extraction, exact over `spec_extract`.
#[verifier::loop_isolation(false)]
pub fn extract_from_entries(entries: &Vec<(String, Vec<u8>)>) -> (r: Result<
    BeatSaverMapData,
    ExtractError,
>)
    ensures
        r matches Ok(d) ==> spec_extract(entries_view(entries@)) == Ok::<
            MapDataView,
            ExtractKind,
        >(d@) && unique_names(d@.beatmaps),
        r matches Err(e) ==> spec_extract(entries_view(entries@)) == Err::<
            MapDataView,
            ExtractKind,
        >(kind_of(e)),
{
    let ghost ev = entries_view(entries@);
    let mut info: Option<String> = None;
    let mut maps: Vec<(String, String)> = Vec::new();
    let mut audio: Option<Vec<u8>> = None;
    let mut cover: Option<Vec<u8>> = None;
    let n = entries.len();
    let mut i: usize = 0;
    proof {
        assert(ev.skip(0) =~= ev);
        assert(pairs_view(maps@) =~= Seq::<(Seq<char>, Seq<char>)>::empty());
    }
    while i < n
        invariant
            i <= n,
            n == entries@.len(),
            spec_run(ev, empty_state()) == spec_run(
                ev.skip(i as int),
                state_of(info, maps@, audio, cover),
            ),
            unique_names(pairs_view(maps@)),
        decreases n - i,
    {
        let ghost st = state_of(info, maps@, audio, cover);
        let ghost suffix = ev.skip(i as int);
        let name = &entries[i].0;
        let data = &entries[i].1;
        proof {
            assert(ev[i as int] == (name@, data@));
            assert(suffix[0] == ev[i as int]);
            assert(suffix.drop_first() =~= ev.skip(i as int + 1));
        }
        let low = lowercase(name.as_str());
        if str_eq(low.as_str(), "info.dat") {
            if info.is_none() {
                match bytes_to_string(slice_to_vec(data.as_slice())) {
                    Some(text) => {
                        info = Some(text);
                    },
                    None => {
                        let mut msg = String::from_str("Read ");
                        msg.append(name.as_str());
                        msg.append(": invalid UTF-8");
                        return Err(ExtractError::CorruptContainer(msg));
                    },
                }
            }
        } else if str_ends_with(low.as_str(), ".dat") {
            match bytes_to_string(slice_to_vec(data.as_slice())) {
                Some(text) => {
                    upsert_exec(&mut maps, name, text);
                },
                None => {
                    let mut msg = String::from_str("Read ");
                    msg.append(name.as_str());
                    msg.append(": invalid UTF-8");
                    return Err(ExtractError::CorruptContainer(msg));
                },
            }
        } else if str_ends_with(low.as_str(), ".ogg") || str_ends_with(low.as_str(), ".egg") {
            audio = Some(slice_to_vec(data.as_slice()));
        } else if str_ends_with(low.as_str(), ".jpg") || str_ends_with(low.as_str(), ".jpeg")
            || str_ends_with(low.as_str(), ".png") {
            cover = Some(slice_to_vec(data.as_slice()));
        }
        proof {
            assert(spec_step(st, name@, data@) == Some(state_of(info, maps@, audio, cover)));
        }
        i = i + 1;
    }
    proof {
        assert(ev.skip(n as int) =~= Seq::<(Seq<char>, Seq<u8>)>::empty());
    }
    let audio_vec = match audio {
        Some(v) => v,
        None => {
            return Err(ExtractError::MissingAudio);
        },
    };
    let info_str = match info {
        Some(s) => s,
        None => {
            return Err(ExtractError::MissingDescriptor);
        },
    };
    if info_str.as_str().is_empty() {
        return Err(ExtractError::MissingDescriptor);
    }
    let audio_base64 = base64_encode(audio_vec.as_slice());
    let cover_base64 = match cover {
        Some(c) => Some(base64_encode(c.as_slice())),
        None => None,
    };
    Ok(BeatSaverMapData { info_dat: info_str, beatmaps: maps, audio_base64, cover_base64 })
}

/// Extracts a typed bundle from the raw bytes of a container: parses the
/// container and walks its entries. An unreadable container or entry is a
/// corrupt-container failure; on a container that parses and whose entries
/// all read back, the result is exactly what the entries extract to, so
/// extraction is a function of the bytes.
#[verifier::loop_isolation(false)]
pub fn extract_map_data(bytes: &Vec<u8>) -> (r: Result<BeatSaverMapData, ExtractError>)
    ensures
        zip_entries(bytes@) is None ==> (r matches Err(e) && e matches
            ExtractError::CorruptContainer(_)),
        zip_entries(bytes@) matches Some(es) ==> (match r {
            Ok(d) => spec_extract(es) == Ok::<MapDataView, ExtractKind>(d@) && unique_names(
                d@.beatmaps,
            ),
            Err(e) => spec_extract(es) == Err::<MapDataView, ExtractKind>(kind_of(e)) || (e
                matches ExtractError::CorruptContainer(_)),
        }),
        zip_entries(bytes@) matches Some(es) ==> (zip_readable(bytes@) ==> (match r {
            Ok(d) => spec_extract(es) == Ok::<MapDataView, ExtractKind>(d@) && unique_names(
                d@.beatmaps,
            ),
            Err(e) => spec_extract(es) == Err::<MapDataView, ExtractKind>(kind_of(e)),
        })),
{
    let mut archive = match open_archive(bytes) {
        Ok(a) => a,
        Err(e) => {
            let mut msg = String::from_str("ZIP error: ");
            msg.append(e.as_str());
            return Err(ExtractError::CorruptContainer(msg));
        },
    };
    let n = archive_len(&archive);
    let mut entries: Vec<(String, Vec<u8>)> = Vec::new();
    proof {
        assert(entries_view(entries@) =~= entries_of(archive).take(0));
    }
    let mut i: usize = 0;
    while i < n
        invariant
            i <= n,
            n == entries_of(archive).len(),
            zip_entries(bytes@) == Some(entries_of(archive)),
            archive_readable(archive) == zip_readable(bytes@),
            entries_view(entries@) == entries_of(archive).take(i as int),
        decreases n - i,
    {
        match read_entry(&mut archive, i) {
            Ok(e) => {
                let ghost oldev = entries_view(entries@);
                let ghost epair = (e.0@, e.1@);
                entries.push(e);
                proof {
                    assert(entries_view(entries@) =~= oldev.push(epair));
                    assert(entries_of(archive).take(i as int).push(entries_of(archive)[i as int])
                        =~= entries_of(archive).take(i as int + 1));
                }
            },
            Err(e) => {
                proof {
                    assert(!zip_readable(bytes@));
                }
                let mut msg = String::from_str("ZIP entry error: ");
                msg.append(e.as_str());
                return Err(ExtractError::CorruptContainer(msg));
            },
        }
        i = i + 1;
    }
    proof {
        assert(entries_of(archive).take(n as int) =~= entries_of(archive));
    }
    extract_from_entries(&entries)
}

// ---------------------------------------------------------------------------
// Laws of extraction
// ---------------------------------------------------------------------------
/// How the walk's audio and descriptor fields relate to the entries: each
/// is present after the walk exactly when it was present before or some
/// entry of the walked list is classified for it.
pub proof fn lemma_run_fields(entries: Seq<(Seq<char>, Seq<u8>)>, st: ExtractState)
    requires
        spec_run(entries, st) is Some,
    ensures
        ({
            let st2 = spec_run(entries, st)->Some_0;
            &&& (st2.audio is Some <==> st.audio is Some || exists|i: int|
                0 <= i < entries.len() && is_audio_entry(#[trigger] entries[i].0))
            &&& (st2.info is Some <==> st.info is Some || exists|i: int|
                0 <= i < entries.len() && is_info_entry(#[trigger] entries[i].0))
        }),
    decreases entries.len(),
{
    if entries.len() == 0 {
    } else {
        let st1 = spec_step(st, entries[0].0, entries[0].1)->Some_0;
        let rest = entries.drop_first();
        lemma_run_fields(rest, st1);
        assert(st1.audio is Some <==> st.audio is Some || is_audio_entry(entries[0].0));
        assert(st1.info is Some <==> st.info is Some || is_info_entry(entries[0].0));
        if exists|i: int| 0 <= i < rest.len() && is_audio_entry(#[trigger] rest[i].0) {
            let i = choose|i: int| 0 <= i < rest.len() && is_audio_entry(#[trigger] rest[i].0);
            assert(entries[i + 1].0 == rest[i].0);
            assert(is_audio_entry(entries[i + 1].0));
        }
        if exists|i: int| 1 <= i < entries.len() && is_audio_entry(#[trigger] entries[i].0) {
            let i = choose|i: int| 1 <= i < entries.len() && is_audio_entry(
                #[trigger] entries[i].0,
            );
            assert(rest[i - 1].0 == entries[i].0);
            assert(is_audio_entry(rest[i - 1].0));
        }
        if exists|i: int| 0 <= i < rest.len() && is_info_entry(#[trigger] rest[i].0) {
            let i = choose|i: int| 0 <= i < rest.len() && is_info_entry(#[trigger] rest[i].0);
            assert(entries[i + 1].0 == rest[i].0);
            assert(is_info_entry(entries[i + 1].0));
        }
        if exists|i: int| 1 <= i < entries.len() && is_info_entry(#[trigger] entries[i].0) {
            let i = choose|i: int| 1 <= i < entries.len() && is_info_entry(#[trigger] entries[i].0);
            assert(rest[i - 1].0 == entries[i].0);
            assert(is_info_entry(rest[i - 1].0));
        }
    }
}

/// True when some pair of the list carries the name.
pub open spec fn has_name(ms: Seq<(Seq<char>, Seq<char>)>, k: Seq<char>) -> bool {
    exists|i: int| 0 <= i < ms.len() && ms[i].0 == k
}

/// Replacing-or-appending under one name adds exactly that name.
pub proof fn lemma_upsert_names(
    ms: Seq<(Seq<char>, Seq<char>)>,
    k: Seq<char>,
    v: Seq<char>,
    k2: Seq<char>,
)
    ensures
        has_name(upsert_pair(ms, k, v), k2) <==> (has_name(ms, k2) || k2 == k),
{
    let r = upsert_pair(ms, k, v);
    if exists|i: int| 0 <= i < ms.len() && ms[i].0 == k {
        // r is ms updated at some position whose key is already k, so the
        // key at that position stays k and every other key is untouched.
        assert(r.len() == ms.len());
        if k2 == k {
            let j = choose|j: int| 0 <= j < ms.len() && ms[j].0 == k;
            assert(r[j].0 == k);
        }
        if has_name(ms, k2) && k2 != k {
            let j = choose|j: int| 0 <= j < ms.len() && ms[j].0 == k2;
            assert(r[j].0 == k2);
        }
        if has_name(r, k2) && k2 != k {
            let j = choose|j: int| 0 <= j < r.len() && r[j].0 == k2;
            assert(ms[j].0 == k2);
        }
    } else {
        assert(r == ms.push((k, v)));
        assert(r[ms.len() as int].0 == k);
        if has_name(ms, k2) {
            let j = choose|j: int| 0 <= j < ms.len() && ms[j].0 == k2;
            assert(r[j].0 == k2);
        }
        if has_name(r, k2) {
            let j = choose|j: int| 0 <= j < r.len() && r[j].0 == k2;
            if j == ms.len() as int {
                assert(k2 == k);
            } else {
                assert(ms[j].0 == k2);
            }
        }
    }
}

/// The difficulty-file names after a walk: exactly the names held before,
/// plus the original-case names of the walked difficulty entries.
pub proof fn lemma_run_beatmap_names(
    entries: Seq<(Seq<char>, Seq<u8>)>,
    st: ExtractState,
    k: Seq<char>,
)
    requires
        spec_run(entries, st) is Some,
    ensures
        ({
            let st2 = spec_run(entries, st)->Some_0;
            has_name(st2.beatmaps, k) <==> (has_name(st.beatmaps, k) || exists|i: int|
                0 <= i < entries.len() && is_dat_entry(#[trigger] entries[i].0) && entries[i].0
                    == k)
        }),
    decreases entries.len(),
{
    if entries.len() == 0 {
    } else {
        let st1 = spec_step(st, entries[0].0, entries[0].1)->Some_0;
        let rest = entries.drop_first();
        lemma_run_beatmap_names(rest, st1, k);
        if is_dat_entry(entries[0].0) {
            let text = spec_take_str(entries[0].1)->Some_0;
            lemma_upsert_names(st.beatmaps, entries[0].0, text, k);
        } else {
            assert(st1.beatmaps == st.beatmaps);
        }
        if exists|i: int|
            0 <= i < rest.len() && is_dat_entry(#[trigger] rest[i].0) && rest[i].0 == k {
            let i = choose|i: int|
                0 <= i < rest.len() && is_dat_entry(#[trigger] rest[i].0) && rest[i].0 == k;
            assert(entries[i + 1].0 == rest[i].0);
            assert(is_dat_entry(entries[i + 1].0) && entries[i + 1].0 == k);
        }
        if exists|i: int|
            1 <= i < entries.len() && is_dat_entry(#[trigger] entries[i].0) && entries[i].0 == k {
            let i = choose|i: int|
                1 <= i < entries.len() && is_dat_entry(#[trigger] entries[i].0) && entries[i].0
                    == k;
            assert(rest[i - 1].0 == entries[i].0);
            assert(is_dat_entry(rest[i - 1].0) && rest[i - 1].0 == k);
        }
    }
}

/// The difficulty-file mapping of an extracted bundle is keyed by exactly
/// the original-case names of the container's difficulty entries: every
/// non-descriptor `.dat` entry and nothing else, each name once (names are
/// unique, and the last occurrence of one name wins).
pub proof fn lemma_extract_beatmap_names(entries: Seq<(Seq<char>, Seq<u8>)>, k: Seq<char>)
    requires
        spec_extract(entries) is Ok,
    ensures
        ({
            let d = spec_extract(entries)->Ok_0;
            has_name(d.beatmaps, k) <==> exists|i: int|
                0 <= i < entries.len() && is_dat_entry(#[trigger] entries[i].0) && entries[i].0
                    == k
        }),
{
    lemma_run_beatmap_names(entries, empty_state(), k);
}

/// Extraction failure on missing audio: a readable container with no audio
/// entry fails with exactly the missing-audio error.
pub proof fn lemma_extract_missing_audio(entries: Seq<(Seq<char>, Seq<u8>)>)
    requires
        spec_run(entries, empty_state()) is Some,
        forall|i: int| 0 <= i < entries.len() ==> !is_audio_entry(#[trigger] entries[i].0),
    ensures
        spec_extract(entries) == Err::<MapDataView, ExtractKind>(ExtractKind::NoAudio),
{
    lemma_run_fields(entries, empty_state());
}

/// Extraction failure on missing descriptor: a readable container with an
/// audio entry but no descriptor entry fails with exactly the
/// missing-descriptor error.
pub proof fn lemma_extract_missing_descriptor(entries: Seq<(Seq<char>, Seq<u8>)>)
    requires
        spec_run(entries, empty_state()) is Some,
        exists|i: int| 0 <= i < entries.len() && is_audio_entry(#[trigger] entries[i].0),
        forall|i: int| 0 <= i < entries.len() ==> !is_info_entry(#[trigger] entries[i].0),
    ensures
        spec_extract(entries) == Err::<MapDataView, ExtractKind>(ExtractKind::NoDescriptor),
{
    lemma_run_fields(entries, empty_state());
}

} // verus!
