use base64::engine::general_purpose::STANDARD;
use base64::Engine;
use beatcache::archive::{extract_from_entries, extract_map_data, ExtractError};
use beatcache::b64::base64_encode;
use std::io::Write;
use zip::write::SimpleFileOptions;

fn make_zip(entries: &[(&str, &[u8])]) -> Vec<u8> {
    let mut w = zip::ZipWriter::new(std::io::Cursor::new(Vec::new()));
    for (name, data) in entries {
        w.start_file(*name, SimpleFileOptions::default()).unwrap();
        w.write_all(data).unwrap();
    }
    w.finish().unwrap().into_inner()
}

#[test]
fn extraction_completeness() {
    let audio = [1u8, 2, 3, 4, 5];
    let cover = [9u8, 8, 7];
    let bytes = make_zip(&[
        ("Info.dat", b"{\"song\":\"x\"}"),
        ("Easy.dat", b"easy-notes"),
        ("song.egg", &audio),
        ("cover.png", &cover),
    ]);
    let data = extract_map_data(&bytes).unwrap();
    assert_eq!(data.info_dat, "{\"song\":\"x\"}");
    assert_eq!(data.beatmaps.len(), 1);
    assert_eq!(data.beatmaps[0].0, "Easy.dat");
    assert_eq!(data.beatmaps[0].1, "easy-notes");
    assert!(!data.audio_base64.is_empty());
    assert_eq!(data.audio_base64, STANDARD.encode(audio));
    assert_eq!(data.cover_base64.as_deref(), Some(STANDARD.encode(cover).as_str()));
}

#[test]
fn extraction_missing_audio() {
    let bytes = make_zip(&[("Info.dat", b"d"), ("Easy.dat", b"e")]);
    let err = extract_map_data(&bytes).unwrap_err();
    assert!(matches!(err, ExtractError::MissingAudio));
}

#[test]
fn extraction_missing_descriptor() {
    let bytes = make_zip(&[("Easy.dat", b"e"), ("song.ogg", b"a")]);
    let err = extract_map_data(&bytes).unwrap_err();
    assert!(matches!(err, ExtractError::MissingDescriptor));
}

#[test]
fn extraction_empty_descriptor() {
    let bytes = make_zip(&[("Info.dat", b""), ("song.ogg", b"a")]);
    let err = extract_map_data(&bytes).unwrap_err();
    assert!(matches!(err, ExtractError::MissingDescriptor));
}

#[test]
fn extraction_case_insensitive() {
    let bytes = make_zip(&[
        ("INFO.DAT", b"descriptor"),
        ("EaSy.DaT", b"notes"),
        ("Song.OGG", b"audio!"),
        ("Cover.JPEG", b"img"),
    ]);
    let data = extract_map_data(&bytes).unwrap();
    assert_eq!(data.info_dat, "descriptor");
    // Original-case filename is kept as the mapping key.
    assert_eq!(data.beatmaps[0].0, "EaSy.DaT");
    assert_eq!(data.audio_base64, STANDARD.encode(b"audio!"));
    assert!(data.cover_base64.is_some());
}

#[test]
fn extraction_corrupt_container() {
    let err = extract_map_data(&b"this is not an archive".to_vec()).unwrap_err();
    match err {
        ExtractError::CorruptContainer(msg) => assert!(msg.starts_with("ZIP error: ")),
        _ => panic!("expected a corrupt-container failure"),
    }
}

#[test]
fn extraction_last_audio_wins() {
    let bytes = make_zip(&[
        ("Info.dat", b"d"),
        ("a.egg", b"first"),
        ("b.egg", b"second"),
    ]);
    let data = extract_map_data(&bytes).unwrap();
    assert_eq!(data.audio_base64, STANDARD.encode(b"second"));
}

#[test]
fn extraction_ignores_unrelated_entries() {
    let bytes = make_zip(&[
        ("Info.dat", b"d"),
        ("song.ogg", b"a"),
        ("readme.txt", b"ignored"),
        ("notes.json", b"ignored"),
    ]);
    let data = extract_map_data(&bytes).unwrap();
    assert!(data.beatmaps.is_empty());
    assert!(data.cover_base64.is_none());
}

#[test]
fn extraction_from_entries_duplicate_beatmap_name() {
    let entries: Vec<(String, Vec<u8>)> = vec![
        ("Info.dat".to_string(), b"d".to_vec()),
        ("Hard.dat".to_string(), b"one".to_vec()),
        ("Hard.dat".to_string(), b"two".to_vec()),
        ("song.egg".to_string(), b"a".to_vec()),
    ];
    let data = extract_from_entries(&entries).unwrap();
    assert_eq!(data.beatmaps.len(), 1);
    assert_eq!(data.beatmaps[0].0, "Hard.dat");
    assert_eq!(data.beatmaps[0].1, "two");
}

#[test]
fn extraction_beatmap_key_set() {
    let bytes = make_zip(&[
        ("Info.dat", b"d"),
        ("Easy.dat", b"e"),
        ("Normal.dat", b"n"),
        ("readme.txt", b"ignored"),
        ("song.egg", b"a"),
    ]);
    let data = extract_map_data(&bytes).unwrap();
    // The mapping is keyed by exactly the non-descriptor .dat entries,
    // under their original-case names, in first-occurrence order.
    let keys: Vec<&str> = data.beatmaps.iter().map(|p| p.0.as_str()).collect();
    assert_eq!(keys, ["Easy.dat", "Normal.dat"]);
}

#[test]
fn extraction_error_messages() {
    assert_eq!(ExtractError::MissingAudio.message(), "No audio file found in ZIP");
    assert_eq!(ExtractError::MissingDescriptor.message(), "No Info.dat found in ZIP");
    assert_eq!(
        ExtractError::CorruptContainer("ZIP error: bad".to_string()).message(),
        "ZIP error: bad"
    );
}

#[test]
fn base64_matches_reference_encoder() {
    let cases: Vec<Vec<u8>> = vec![
        vec![],
        vec![0],
        vec![255],
        vec![1, 2],
        vec![1, 2, 3],
        vec![251, 252, 253, 254],
        (0u8..=255).collect(),
    ];
    for case in cases {
        assert_eq!(base64_encode(&case), STANDARD.encode(&case));
    }
}

#[test]
fn base64_known_values() {
    assert_eq!(base64_encode(b""), "");
    assert_eq!(base64_encode(b"f"), "Zg==");
    assert_eq!(base64_encode(b"fo"), "Zm8=");
    assert_eq!(base64_encode(b"foo"), "Zm9v");
    assert_eq!(base64_encode(b"foobar"), "Zm9vYmFy");
}
