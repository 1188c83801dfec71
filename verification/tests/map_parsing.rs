use rusthia::map::parser::{
    parse_phxmo_binary, parse_sspm_notes, parse_sspm_v2_notes, read_line, read_string, map_format,
    MapFormat,
};
use rusthia::map::sspm::parse_sspm;
use rusthia::map::ssmap::{parse_ssmap_v1_bytes, parse_u32_chars};
use rusthia::map::phxm::{open_phxm, read_phxm_metadata, parse_phxm_with_metadata};
use rusthia::map::reader::ByteReader;
use rusthia::map::types::{Coord, MapData, PhxmMetadata};
use rusthia::map::error::{ParseError, IoError};
use std::io::Write;

/// The value a coordinate stands for, computed as the map formats compute it.
fn coord_value(c: &Coord) -> f32 {
    let (v, negate, offset) = match c {
        Coord::Grid(v) => return *v as f32,
        Coord::Bits { bits, negate, offset } => (f32::from_bits(*bits), *negate, *offset),
        Coord::Text { text, negate, offset } => (text.parse::<f32>().unwrap_or(0.0), *negate, *offset),
    };
    let v = if negate { -v } else { v };
    if offset == 0 { v } else { v + offset as f32 }
}

fn le32(v: u32) -> [u8; 4] {
    v.to_le_bytes()
}

#[test]
fn test_ssmap_v1_parsing() {
    let data = b"header,0|0|1000,-1|1|2000,1|-1|3000";
    let map = parse_ssmap_v1_bytes(data).unwrap();
    assert_eq!(map.notes.len(), 3);
    assert_eq!(map.notes[0].millisecond, 1000);
    assert_eq!(coord_value(&map.notes[0].x), 1.0);
    assert_eq!(coord_value(&map.notes[0].y), -1.0);
}

#[test]
fn test_phxmo_binary_discrete() {
    let mut data = Vec::new();
    data.extend_from_slice(&12u32.to_le_bytes());
    data.extend_from_slice(&1u32.to_le_bytes());
    data.extend_from_slice(&5000u32.to_le_bytes());
    data.push(0);
    data.push(1);
    data.push(2);

    let notes = parse_phxmo_binary(&data).unwrap();
    assert_eq!(notes.len(), 1);
    assert_eq!(notes[0].millisecond, 5000);
    assert_eq!(coord_value(&notes[0].x), 0.0);
    assert_eq!(coord_value(&notes[0].y), 1.0);
}

#[test]
fn ssmap_sorts_by_time_and_renumbers() {
    let data = b"h,1|1|300, 0|2|100 ,2|0|200,bad,1|1|100";
    let map = parse_ssmap_v1_bytes(data).unwrap();
    let times: Vec<u32> = map.notes.iter().map(|n| n.millisecond).collect();
    assert_eq!(times, vec![100, 100, 200, 300]);
    let idx: Vec<usize> = map.notes.iter().map(|n| n.index).collect();
    assert_eq!(idx, vec![0, 1, 2, 3]);
    // equal times keep their order: " 0|2|100 " comes before "1|1|100"
    assert_eq!(coord_value(&map.notes[0].x), 1.0);
    assert_eq!(coord_value(&map.notes[1].x), 0.0);
    assert_eq!(map.length_ms, 300);
    assert_eq!(map.id, "txt_map");
    assert_eq!(map.title, "Unknown");
    assert_eq!(map.mappers, vec!["N/A".to_string()]);
    assert_eq!(map.difficulty_name, "N/A");
    assert_eq!(map.audio_ext, "mp3");
}

#[test]
fn ssmap_reads_first_line_only_and_bad_times_are_zero() {
    let data = b"h,1|2|x\r\n,1|1|50";
    let map = parse_ssmap_v1_bytes(data).unwrap();
    assert_eq!(map.notes.len(), 1);
    assert_eq!(map.notes[0].millisecond, 0);
    assert_eq!(map.length_ms, 0);
    let empty = parse_ssmap_v1_bytes(b"").unwrap();
    assert_eq!(empty.notes.len(), 0);
    assert_eq!(empty.length_ms, 0);
}

#[test]
fn parse_u32_follows_std() {
    for s in ["0", "+7", "4294967295", "4294967296", "", "+", "-1", "12a", " 1", "007"] {
        let chars: Vec<char> = s.chars().collect();
        assert_eq!(parse_u32_chars(&chars), s.parse::<u32>().ok(), "{}", s);
    }
}

#[test]
fn phxmo_quantum_and_sorting() {
    let mut data = Vec::new();
    data.extend_from_slice(&le32(2));
    data.extend_from_slice(&le32(2));
    data.extend_from_slice(&le32(900));
    data.push(1);
    data.extend_from_slice(&0.5f32.to_bits().to_le_bytes());
    data.extend_from_slice(&(-0.25f32).to_bits().to_le_bytes());
    data.extend_from_slice(&le32(100));
    data.push(0);
    data.push(0);
    data.push(2);
    let notes = parse_phxmo_binary(&data).unwrap();
    assert_eq!(notes[0].millisecond, 100);
    assert_eq!(notes[0].index, 0);
    assert_eq!(coord_value(&notes[0].x), -1.0);
    assert_eq!(coord_value(&notes[0].y), 1.0);
    assert_eq!(notes[1].millisecond, 900);
    assert_eq!(notes[1].index, 1);
    assert_eq!(coord_value(&notes[1].x), 0.5);
    assert_eq!(coord_value(&notes[1].y), -0.25);
}

#[test]
fn phxmo_truncated_is_an_error() {
    let mut data = Vec::new();
    data.extend_from_slice(&le32(0));
    data.extend_from_slice(&le32(2));
    data.extend_from_slice(&le32(10));
    data.push(0);
    data.push(1);
    data.push(1);
    assert!(matches!(parse_phxmo_binary(&data), Err(ParseError::Io(IoError::UnexpectedEof))));
    assert!(matches!(parse_phxmo_binary(&[1, 2]), Err(ParseError::Io(IoError::UnexpectedEof))));
}

#[test]
fn sspm_notes_transform() {
    let mut data = Vec::new();
    data.extend_from_slice(&le32(40));
    data.push(0);
    data.push(2);
    data.push(0);
    let mut c = ByteReader::new(&data);
    let notes = parse_sspm_notes(&mut c, 1, false, true).unwrap();
    assert_eq!(coord_value(&notes[0].x), 1.0);
    assert_eq!(coord_value(&notes[0].y), 1.0);
    let mut c = ByteReader::new(&data);
    let notes = parse_sspm_notes(&mut c, 1, false, false).unwrap();
    assert_eq!(coord_value(&notes[0].y), -1.0);

    let mut v2 = Vec::new();
    v2.extend_from_slice(&le32(40));
    v2.push(9);
    v2.push(1);
    v2.extend_from_slice(&1.5f32.to_bits().to_le_bytes());
    v2.extend_from_slice(&0.5f32.to_bits().to_le_bytes());
    let mut c = ByteReader::new(&v2);
    let notes = parse_sspm_v2_notes(&mut c, 1).unwrap();
    assert_eq!(coord_value(&notes[0].x), 0.5);
    assert_eq!(coord_value(&notes[0].y), 0.5);
    assert_eq!(c.pos, v2.len() as u64);
}

#[test]
fn read_line_and_read_string() {
    let data = b"abc\r\ndef\0gh";
    let mut c = ByteReader::new(data);
    assert_eq!(read_line(&mut c).unwrap(), "abc");
    assert_eq!(c.pos, 5);
    assert_eq!(read_line(&mut c).unwrap(), "def");
    assert!(matches!(read_line(&mut c), Err(ParseError::Io(IoError::UnexpectedEof))));
    assert_eq!(c.pos, data.len() as u64);
    let mut c = ByteReader::new(data);
    assert_eq!(read_string(&mut c, 3).unwrap(), "abc");
    assert_eq!(c.pos, 3);
    assert!(read_string(&mut c, 100).is_err());
    assert_eq!(c.pos, data.len() as u64);
    let mut c = ByteReader::new(b"\xffok");
    assert_eq!(read_string(&mut c, 3).unwrap(), "\u{FFFD}ok");
}

fn sspm_v1_bytes(cover: bool, audio: &[u8]) -> Vec<u8> {
    let mut d = Vec::new();
    d.extend_from_slice(b"SS+m");
    d.extend_from_slice(&1u16.to_le_bytes());
    d.extend_from_slice(&0u16.to_le_bytes());
    d.extend_from_slice(b"map-id\n");
    d.extend_from_slice(b"  Some Artist - The Title \n");
    d.extend_from_slice(b"alice & bob,carol  dave\n");
    d.extend_from_slice(&le32(65000));
    d.extend_from_slice(&le32(2));
    d.push(3);
    if cover {
        d.push(2);
        d.extend_from_slice(&3u64.to_le_bytes());
        d.extend_from_slice(&[1, 2, 3]);
    } else {
        d.push(0);
    }
    if audio.is_empty() {
        d.push(0);
    } else {
        d.push(1);
        d.extend_from_slice(&(audio.len() as u64).to_le_bytes());
        d.extend_from_slice(audio);
    }
    d.extend_from_slice(&le32(2000));
    d.push(0);
    d.push(0);
    d.push(0);
    d.extend_from_slice(&le32(1000));
    d.push(0);
    d.push(2);
    d.push(2);
    d
}

#[test]
fn sspm_v1_full() {
    let map = parse_sspm(&sspm_v1_bytes(true, b"OggS....")).unwrap();
    assert_eq!(map.id, "map-id");
    assert_eq!(map.artist, "Some Artist");
    assert_eq!(map.title, "The Title");
    assert_eq!(map.mappers, vec!["alice", "bob", "carol", "dave"]);
    assert_eq!(map.length_ms, 65000);
    assert_eq!(map.difficulty, 3);
    assert_eq!(map.difficulty_name, "");
    assert_eq!(map.cover, vec![1, 2, 3]);
    assert_eq!(map.audio, b"OggS....".to_vec());
    assert_eq!(map.audio_ext, "ogg");
    assert_eq!(map.notes.len(), 2);
    assert_eq!(map.notes[0].millisecond, 1000);
    assert_eq!(coord_value(&map.notes[0].x), 1.0);
    assert_eq!(coord_value(&map.notes[0].y), -1.0);
    assert_eq!(map.notes[1].millisecond, 2000);
    assert_eq!(coord_value(&map.notes[1].x), -1.0);
    assert_eq!(coord_value(&map.notes[1].y), 1.0);
    let no_cover = parse_sspm(&sspm_v1_bytes(false, b"ID3")).unwrap();
    assert!(no_cover.cover.is_empty());
    assert_eq!(no_cover.audio_ext, "mp3");
}

#[test]
fn sspm_signature_and_version_errors() {
    match parse_sspm(b"XYZW\x01\x00") {
        Err(ParseError::InvalidSignature(m)) => assert_eq!(m, "Attendu 'SS+m', trouvé 'XYZW'"),
        _ => panic!("expected a signature error"),
    }
    assert!(matches!(parse_sspm(b"SS+m\x03\x00"), Err(ParseError::UnsupportedVersion(3))));
    assert!(matches!(parse_sspm(b"SS+"), Err(ParseError::Io(IoError::UnexpectedEof))));
    let mut truncated = sspm_v1_bytes(false, b"");
    truncated.pop();
    assert!(matches!(parse_sspm(&truncated), Err(ParseError::Io(IoError::UnexpectedEof))));
}

fn prefixed(d: &mut Vec<u8>, s: &str) {
    d.extend_from_slice(&(s.len() as u16).to_le_bytes());
    d.extend_from_slice(s.as_bytes());
}

fn sspm_v2_bytes(tag: u8) -> Vec<u8> {
    let mut d = Vec::new();
    d.extend_from_slice(b"SS+m");
    d.extend_from_slice(&2u16.to_le_bytes());
    d.extend_from_slice(&[0; 4]);
    d.extend_from_slice(&[0; 20]);
    d.extend_from_slice(&le32(12345));
    d.extend_from_slice(&le32(2));
    d.extend_from_slice(&[0; 4]);
    d.push(4);
    d.extend_from_slice(&[0; 2]);
    d.push(1);
    d.push(1);
    d.push(0);
    let offsets_at = d.len();
    d.extend_from_slice(&[0; 8 * 6]);
    d.extend_from_slice(&[0; 16]);
    let marker_at = d.len();
    d.extend_from_slice(&[0; 8]);
    d.extend_from_slice(&[0; 8]);
    prefixed(&mut d, "the-id");
    prefixed(&mut d, "Artist Name - Song Title");
    prefixed(&mut d, "song name is skipped");
    d.extend_from_slice(&2u16.to_le_bytes());
    prefixed(&mut d, "mapper one");
    prefixed(&mut d, "mapper two");
    let custom = d.len() as u64;
    d.extend_from_slice(&1u16.to_le_bytes());
    prefixed(&mut d, "difficulty_name");
    d.push(tag);
    if tag == 9 {
        d.extend_from_slice(&6u16.to_le_bytes());
    } else {
        d.extend_from_slice(&le32(6));
    }
    d.extend_from_slice(b"Expert");
    let audio = d.len() as u64;
    d.extend_from_slice(b"ID3abc");
    let cover = d.len() as u64;
    d.extend_from_slice(b"PNG");
    let markers = d.len() as u64;
    d.extend_from_slice(&le32(700));
    d.push(0);
    d.push(0);
    d.push(1);
    d.push(0);
    d.extend_from_slice(&le32(300));
    d.push(0);
    d.push(0);
    d.push(2);
    d.push(2);
    let fields = [custom, 0, audio, 6, cover, 3];
    for (i, f) in fields.iter().enumerate() {
        d[offsets_at + 8 * i..offsets_at + 8 * i + 8].copy_from_slice(&f.to_le_bytes());
    }
    d[marker_at..marker_at + 8].copy_from_slice(&markers.to_le_bytes());
    d
}

#[test]
fn sspm_v2_full() {
    for tag in [9u8, 11u8] {
        let map = parse_sspm(&sspm_v2_bytes(tag)).unwrap();
        assert_eq!(map.id, "the-id");
        assert_eq!(map.artist, "Artist Name");
        assert_eq!(map.title, "Song Title");
        assert_eq!(map.mappers, vec!["mapper one", "mapper two"]);
        assert_eq!(map.difficulty, 4);
        assert_eq!(map.difficulty_name, "Expert");
        assert_eq!(map.length_ms, 12345);
        assert_eq!(map.audio, b"ID3abc".to_vec());
        assert_eq!(map.cover, b"PNG".to_vec());
        assert_eq!(map.audio_ext, "mp3");
        assert_eq!(map.notes.len(), 2);
        assert_eq!(map.notes[0].millisecond, 300);
        assert_eq!(coord_value(&map.notes[0].x), 1.0);
        assert_eq!(coord_value(&map.notes[0].y), -1.0);
        assert_eq!(map.notes[1].millisecond, 700);
        assert_eq!(coord_value(&map.notes[1].x), 0.0);
        assert_eq!(coord_value(&map.notes[1].y), 1.0);
    }
    let other_tag = parse_sspm(&sspm_v2_bytes(3)).unwrap();
    assert_eq!(other_tag.difficulty_name, "");
}

#[test]
fn map_format_by_extension() {
    assert!(matches!(map_format("song.PHXM"), Ok(MapFormat::Phxm)));
    assert!(matches!(map_format("a.b.sspm"), Ok(MapFormat::Sspm)));
    assert!(matches!(map_format("notes.Txt"), Ok(MapFormat::Txt)));
    match map_format("cover.PNG") {
        Err(ParseError::InvalidFormat(m)) => assert_eq!(m, "Extension non supportée: png"),
        _ => panic!("expected a format error"),
    }
    match map_format("noextension") {
        Err(ParseError::InvalidFormat(m)) => assert_eq!(m, "Extension non supportée: noextension"),
        _ => panic!("expected a format error"),
    }
}

#[test]
fn error_messages() {
    assert_eq!(ParseError::UnsupportedVersion(3).message(), "Version non supportée: 3");
    assert_eq!(ParseError::Io(IoError::UnexpectedEof).message(), "Erreur I/O: failed to fill whole buffer");
    assert_eq!(ParseError::MissingEntry("cover.png".to_string()).message(), "Entrée manquante dans l'archive: cover.png");
    assert_eq!(ParseError::InvalidSignature("x".to_string()).message(), "Signature invalide: x");
}

#[test]
fn map_data_texts() {
    let mut map = parse_ssmap_v1_bytes(b"").unwrap();
    assert_eq!(map.pretty_title(), "Unknown");
    map.artist = "Band".to_string();
    assert_eq!(map.pretty_title(), "Band - Unknown");
    map.mappers = vec!["a".to_string(), "b".to_string(), "c".to_string()];
    assert_eq!(map.pretty_mappers(), "a, b, c");
    map.mappers = vec![];
    assert_eq!(map.pretty_mappers(), "");
    assert_eq!(MapData::detect_audio_ext(b"OggS"), "ogg");
    assert_eq!(MapData::detect_audio_ext(b"Ogg"), "mp3");
}

fn phxm_zip(entries: &[(&str, &[u8])]) -> Vec<u8> {
    let mut w = zip::ZipWriter::new(std::io::Cursor::new(Vec::new()));
    for (name, data) in entries {
        w.start_file(*name, zip::write::SimpleFileOptions::default()).unwrap();
        w.write_all(data).unwrap();
    }
    w.finish().unwrap().into_inner()
}

fn meta(has_audio: bool, has_cover: bool) -> PhxmMetadata {
    PhxmMetadata {
        id: "id1".to_string(),
        title: "T".to_string(),
        artist: "A".to_string(),
        mappers: vec!["m".to_string()],
        difficulty: 2,
        difficulty_name: "Hard".to_string(),
        length: 4000,
        has_audio,
        has_cover,
        has_video: false,
        audio_ext: "ogg".to_string(),
    }
}

#[test]
fn phxm_archive() {
    let mut objects = Vec::new();
    objects.extend_from_slice(&le32(1));
    objects.extend_from_slice(&le32(1));
    objects.extend_from_slice(&le32(250));
    objects.push(0);
    objects.push(1);
    objects.push(1);
    let bytes = phxm_zip(&[
        ("metadata.json", b"{\"ID\":\"id1\"}"),
        ("objects.phxmo", &objects),
        ("audio.ogg", b"OggSdata"),
    ]);
    let mut archive = open_phxm(&bytes).unwrap();
    assert_eq!(read_phxm_metadata(&mut archive).unwrap(), "{\"ID\":\"id1\"}");
    let map = parse_phxm_with_metadata(&mut archive, meta(true, false)).unwrap();
    assert_eq!(map.id, "id1");
    assert_eq!(map.audio, b"OggSdata".to_vec());
    assert_eq!(map.audio_ext, "ogg");
    assert_eq!(map.length_ms, 4000);
    assert_eq!(map.notes.len(), 1);
    assert_eq!(map.notes[0].millisecond, 250);
    assert_eq!(coord_value(&map.notes[0].x), 0.0);
    match parse_phxm_with_metadata(&mut archive, meta(true, true)) {
        Err(ParseError::MissingEntry(name)) => assert_eq!(name, "cover.png"),
        _ => panic!("expected a missing cover"),
    }
    assert!(matches!(open_phxm(b"not a zip"), Err(ParseError::Zip(_))));
    let bad_utf8 = phxm_zip(&[("metadata.json", b"\xff\xfe")]);
    let mut archive = open_phxm(&bad_utf8).unwrap();
    assert!(matches!(read_phxm_metadata(&mut archive), Err(ParseError::Io(IoError::InvalidData))));
    let no_meta = phxm_zip(&[("objects.phxmo", &objects)]);
    let mut archive = open_phxm(&no_meta).unwrap();
    assert!(matches!(read_phxm_metadata(&mut archive), Err(ParseError::MissingEntry(_))));
}

#[test]
fn sspm_v2_notes_sorted_and_reader_past_them() {
    let mut buf = Vec::new();
    buf.extend_from_slice(&2000u32.to_le_bytes());
    buf.extend_from_slice(&[7, 0, 2, 0]);
    buf.extend_from_slice(&500u32.to_le_bytes());
    buf.extend_from_slice(&[7, 0, 0, 2]);
    let mut c = ByteReader::new(&buf);
    let notes = parse_sspm_v2_notes(&mut c, 2).unwrap();
    assert_eq!(c.pos, 16);
    assert_eq!(notes.len(), 2);
    assert_eq!((notes[0].index, notes[0].millisecond), (0, 500));
    assert_eq!((coord_value(&notes[0].x), coord_value(&notes[0].y)), (-1.0, -1.0));
    assert_eq!((notes[1].index, notes[1].millisecond), (1, 2000));
    assert_eq!((coord_value(&notes[1].x), coord_value(&notes[1].y)), (1.0, 1.0));
}

#[test]
fn reader_positions_after_errors() {
    let data = [1u8, 2, 3, 4, 5, 6];
    let mut c = ByteReader::new(&data);
    assert_eq!(c.read_u32().unwrap(), 0x04030201);
    assert!(matches!(c.read_u32(), Err(ParseError::Io(IoError::UnexpectedEof))));
    assert_eq!(c.pos, 6);
    c.seek_to(2);
    assert!(matches!(c.skip(u64::MAX), Err(ParseError::Io(IoError::InvalidSeek))));
    assert_eq!(c.pos, 2);
    c.seek_to(100);
    assert!(c.read_u8().is_err());
    assert_eq!(c.pos, 6);
}
