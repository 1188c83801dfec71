//! The SoundSpace+ binary map format (`.sspm`), versions 1 and 2.
//!
//! A file starts with the signature `"SS+m"` and a `u16` version. All integers
//! are little-endian.

use vstd::prelude::*;
use crate::map::error::{ParseError, ParseErrorView};
use crate::map::reader::{
    ByteReader, Step, outcome, step_end, le_u32_value, le_u64_value, spec_read_bytes, spec_read_u8, spec_read_u16, spec_read_u32, spec_read_u64,
    spec_skip,
};
use crate::map::text::{
    utf8_lossy, decode_lossy, str_chars, string_from_chars, split_name, split_name_chars,
    split_fields, split_chars, chars_views, nonempty_trimmed, trim_chars,
};
use crate::map::types::{MapData, MapView, strings_view, audio_ext_of, is_ogg};
use crate::map::notes::sorted_by_time;
use crate::map::parser::{
    read_line, read_string, spec_read_line, spec_read_string, spec_read_notes, sspm_layout,
    lemma_read_notes_count,
    parse_sspm_notes, parse_sspm_v2_notes,
};

verus! {

/// `m` is the map `s` describes, with the notes of `s` put in time order.
pub open spec fn decoded_as(m: MapView, s: MapView) -> bool {
    &&& m.id == s.id
    &&& m.title == s.title
    &&& m.artist == s.artist
    &&& m.mappers == s.mappers
    &&& m.difficulty == s.difficulty
    &&& m.difficulty_name == s.difficulty_name
    &&& m.length_ms == s.length_ms
    &&& m.audio == s.audio
    &&& m.cover == s.cover
    &&& m.audio_ext == s.audio_ext
    &&& sorted_by_time(s.notes, m.notes)
}

/// The decoder returned what `s` describes.
pub open spec fn map_result_as(r: Result<MapData, ParseError>, s: Result<MapView, ParseErrorView>) -> bool {
    match s {
        Ok(v) => r matches Ok(m) && decoded_as(m@, v),
        Err(e) => r matches Err(err) && err@ == e,
    }
}

/// The mappers of a version 1 mapper line: the fields between spaces, `'&'` and
/// `','`, trimmed, the empty ones left out.
pub open spec fn v1_mappers(line: Seq<char>) -> Seq<Seq<char>> {
    nonempty_trimmed(split_fields(line, seq![' ', '&', ',']))
}

/// A blob present when `present`: a `u64` length, then that many bytes.
pub open spec fn spec_read_blob(d: Seq<u8>, p: int, present: bool) -> Step<Seq<u8>> {
    if !present {
        Ok((Seq::empty(), p))
    } else {
        match spec_read_u64(d, p) {
            Err(e) => Err(e),
            Ok((len, p1)) => spec_read_bytes(d, p1, len as int),
        }
    }
}

/// The start of a version 1 map, as read.
pub struct V1Head {
    pub id: Seq<char>,
    pub name: Seq<char>,
    pub mapper_line: Seq<char>,
    pub length: u32,
    pub count: u32,
    pub difficulty: u8,
}

/// Version 1, after the version: 2 reserved bytes; three lines (id, "Artist -
/// Title", mappers); `u32` length in ms; `u32` note count; `u8` difficulty.
pub open spec fn spec_v1_head(d: Seq<u8>, p: int) -> Step<V1Head> {
    match spec_read_u16(d, p) {
        Err(e) => Err(e),
        Ok((_, p1)) => match spec_read_line(d, p1) {
            Err(e) => Err(e),
            Ok((id, p2)) => match spec_read_line(d, p2) {
                Err(e) => Err(e),
                Ok((name, p3)) => match spec_read_line(d, p3) {
                    Err(e) => Err(e),
                    Ok((mapper_line, p4)) => match spec_read_u32(d, p4) {
                        Err(e) => Err(e),
                        Ok((length, p5)) => match spec_read_u32(d, p5) {
                            Err(e) => Err(e),
                            Ok((count, p6)) => match spec_read_u8(d, p6) {
                                Err(e) => Err(e),
                                Ok((difficulty, p7)) => Ok(
                                    (V1Head { id, name, mapper_line, length, count, difficulty }, p7),
                                ),
                            },
                        },
                    },
                },
            },
        },
    }
}

/// Version 1, after the version: the head; a cover flag byte (2 = a cover blob
/// follows); an audio flag byte (nonzero = an audio blob follows); the notes
/// (`x - 1`, `-y + 1`, no marker byte). The map has no difficulty name.
pub open spec fn spec_sspm_v1(d: Seq<u8>, p: int) -> Step<MapView> {
    match spec_v1_head(d, p) {
        Err(e) => Err(e),
        Ok((h, p1)) => match spec_read_u8(d, p1) {
            Err(e) => Err(e),
            Ok((cover_flag, p2)) => match spec_read_blob(d, p2, cover_flag == 2) {
                Err(e) => Err(e),
                Ok((cover, p3)) => match spec_read_u8(d, p3) {
                    Err(e) => Err(e),
                    Ok((audio_flag, p4)) => match spec_read_blob(d, p4, audio_flag != 0) {
                        Err(e) => Err(e),
                        Ok((audio, p5)) => match spec_read_notes(
                            d,
                            p5,
                            h.count as nat,
                            sspm_layout(false, true),
                        ) {
                            Err(e) => Err(e),
                            Ok((notes, p_end)) => Ok(
                                (MapView {
                                    id: h.id,
                                    title: split_name(h.name).1,
                                    artist: split_name(h.name).0,
                                    mappers: v1_mappers(h.mapper_line),
                                    difficulty: h.difficulty,
                                    difficulty_name: Seq::empty(),
                                    length_ms: h.length,
                                    audio,
                                    cover,
                                    audio_ext: audio_ext_of(audio),
                                    notes,
                                }, p_end),
                            ),
                        },
                    },
                },
            },
        },
    }
}

fn read_blob(cursor: &mut ByteReader, present: bool) -> (r: Result<Vec<u8>, ParseError>)
    ensures
        final(cursor).data@ == old(cursor).data@,
        match spec_read_blob(old(cursor).data@, old(cursor).pos as int, present) {
            Ok((b, p)) => r matches Ok(v) && v@ == b && final(cursor).pos == p,
            Err((e, p)) => r matches Err(err) && err@ == e && final(cursor).pos == p,
        },
{
    if present {
        let len = cursor.read_u64()?;
        cursor.read_exact(len)
    } else {
        Ok(Vec::new())
    }
}

/// The trimmed, nonempty fields, as strings.
fn nonempty_trimmed_strings(fields: &Vec<Vec<char>>) -> (r: Vec<String>)
    ensures
        strings_view(r@) == nonempty_trimmed(chars_views(fields@)),
{
    let mut out: Vec<String> = Vec::new();
    let mut i: usize = 0;
    assert(chars_views(fields@).take(0) =~= Seq::<Seq<char>>::empty());
    assert(strings_view(out@) =~= Seq::<Seq<char>>::empty());
    while i < fields.len()
        invariant
            i <= fields@.len(),
            strings_view(out@) == nonempty_trimmed(chars_views(fields@).take(i as int)),
        decreases fields@.len() - i,
    {
        let t = trim_chars(fields[i].as_slice());
        let ghost prev = strings_view(out@);
        let ghost cv = chars_views(fields@);
        assert(cv.take(i + 1).drop_last() =~= cv.take(i as int));
        assert(cv.take(i + 1).last() == fields@[i as int]@);
        if t.len() > 0 {
            let s = string_from_chars(t.as_slice());
            out.push(s);
            assert(strings_view(out@) =~= prev.push(t@));
        }
        i = i + 1;
    }
    assert(chars_views(fields@).take(fields@.len() as int) =~= chars_views(fields@));
    out
}

/// Mappers of a version 1 mapper line.
fn split_mappers(line: &String) -> (r: Vec<String>)
    ensures
        strings_view(r@) == v1_mappers(line@),
{
    let chars = str_chars(line.as_str());
    let seps = vec![' ', '&', ','];
    let fields = split_chars(chars.as_slice(), seps.as_slice());
    nonempty_trimmed_strings(&fields)
}

/// Split "Artist - Title" into artist and title.
fn split_artist_title(line: &String) -> (r: (String, String))
    ensures
        (r.0@, r.1@) == split_name(line@),
{
    let chars = str_chars(line.as_str());
    let (a, t) = split_name_chars(chars.as_slice());
    (string_from_chars(a.as_slice()), string_from_chars(t.as_slice()))
}

/// Decode a version 1 map; the cursor stands after the version.
pub fn parse_sspm_v1(cursor: &mut ByteReader) -> (r: Result<MapData, ParseError>)
    ensures
        final(cursor).data@ == old(cursor).data@,
        map_result_as(r, outcome(spec_sspm_v1(old(cursor).data@, old(cursor).pos as int))),
        final(cursor).pos == step_end(spec_sspm_v1(old(cursor).data@, old(cursor).pos as int)),
{
    cursor.read_u16()?;
    let id = read_line(cursor)?;
    let name_line = read_line(cursor)?;
    let mappers_line = read_line(cursor)?;
    let map_length = cursor.read_u32()?;
    let note_count = cursor.read_u32()?;
    let difficulty = cursor.read_u8()?;
    let cover_flag = cursor.read_u8()?;
    let cover = read_blob(cursor, cover_flag == 2)?;
    let audio_flag = cursor.read_u8()?;
    let audio = read_blob(cursor, audio_flag != 0)?;
    let notes = parse_sspm_notes(cursor, note_count as usize, false, true)?;
    let (artist, title) = split_artist_title(&name_line);
    let mappers = split_mappers(&mappers_line);
    let audio_ext = String::from_str(MapData::detect_audio_ext(audio.as_slice()));
    Ok(
        MapData {
            id,
            title,
            artist,
            mappers,
            difficulty,
            difficulty_name: String::new(),
            length_ms: map_length,
            audio,
            cover,
            audio_ext,
            notes,
        },
    )
}


/// The fixed-size start of a version 2 map.
#[derive(Clone, Copy)]
pub struct V2Header {
    pub length: u32,
    pub count: u32,
    pub difficulty: u8,
    pub has_audio: bool,
    pub has_cover: bool,
    pub custom_offset: u64,
    pub audio_offset: u64,
    pub audio_length: u64,
    pub cover_offset: u64,
    pub cover_length: u64,
    pub marker_offset: u64,
}

/// Version 2, after the version: 4 reserved bytes, a 20-byte hash, `u32` length
/// in ms, `u32` note count, 4 bytes marker count, `u8` difficulty, 2 bytes
/// rating, `u8` audio flag, `u8` cover flag, 1 byte; then `u64`s: custom data
/// offset and length, audio offset and length, cover offset and length, 16 bytes
/// of marker definitions, marker offset, 8 bytes marker length.
pub open spec fn spec_v2_header(d: Seq<u8>, p: int) -> Step<V2Header> {
    match spec_skip(p, 4) {
        Err(e) => Err(e),
        Ok((_, p0)) => match spec_skip(p0, 20) {
            Err(e) => Err(e),
            Ok((_, p1)) => match spec_read_u32(d, p1) {
                Err(e) => Err(e),
                Ok((length, p2)) => match spec_read_u32(d, p2) {
                    Err(e) => Err(e),
                    Ok((count, p3)) => match spec_skip(p3, 4) {
                        Err(e) => Err(e),
                        Ok((_, p4)) => match spec_read_u8(d, p4) {
                            Err(e) => Err(e),
                            Ok((difficulty, p5)) => match spec_skip(p5, 2) {
                                Err(e) => Err(e),
                                Ok((_, p6)) => spec_v2_header_flags(d, p6, length, count, difficulty),
                            },
                        },
                    },
                },
            },
        },
    }
}

pub open spec fn spec_v2_header_flags(d: Seq<u8>, p: int, length: u32, count: u32, difficulty: u8) -> Step<V2Header> {
    match spec_read_u8(d, p) {
        Err(e) => Err(e),
        Ok((audio_flag, p1)) => match spec_read_u8(d, p1) {
            Err(e) => Err(e),
            Ok((cover_flag, p2)) => match spec_skip(p2, 1) {
                Err(e) => Err(e),
                Ok((_, p3)) => match spec_read_u64(d, p3) {
                    Err(e) => Err(e),
                    Ok((custom_offset, p4)) => match spec_read_u64(d, p4) {
                        Err(e) => Err(e),
                        Ok((_, p5)) => match spec_read_u64(d, p5) {
                            Err(e) => Err(e),
                            Ok((audio_offset, p6)) => match spec_read_u64(d, p6) {
                                Err(e) => Err(e),
                                Ok((audio_length, p7)) => match spec_read_u64(d, p7) {
                                    Err(e) => Err(e),
                                    Ok((cover_offset, p8)) => match spec_read_u64(d, p8) {
                                        Err(e) => Err(e),
                                        Ok((cover_length, p9)) => match spec_skip(p9, 16) {
                                            Err(e) => Err(e),
                                            Ok((_, p10)) => match spec_read_u64(d, p10) {
                                                Err(e) => Err(e),
                                                Ok((marker_offset, p11)) => match spec_skip(p11, 8) {
                                                    Err(e) => Err(e),
                                                    Ok((_, p12)) => Ok(
                                                        (
                                                            V2Header {
                                                                length,
                                                                count,
                                                                difficulty,
                                                                has_audio: audio_flag != 0,
                                                                has_cover: cover_flag != 0,
                                                                custom_offset,
                                                                audio_offset,
                                                                audio_length,
                                                                cover_offset,
                                                                cover_length,
                                                                marker_offset,
                                                            },
                                                            p12,
                                                        ),
                                                    ),
                                                },
                                            },
                                        },
                                    },
                                },
                            },
                        },
                    },
                },
            },
        },
    }
}

fn read_v2_header(cursor: &mut ByteReader) -> (r: Result<V2Header, ParseError>)
    ensures
        final(cursor).data@ == old(cursor).data@,
        match spec_v2_header(old(cursor).data@, old(cursor).pos as int) {
            Ok((h, p)) => r matches Ok(x) && x == h && final(cursor).pos == p,
            Err((e, p)) => r matches Err(err) && err@ == e && final(cursor).pos == p,
        },
{
    cursor.skip(4)?;
    cursor.skip(20)?;
    let length = cursor.read_u32()?;
    let count = cursor.read_u32()?;
    cursor.skip(4)?;
    let difficulty = cursor.read_u8()?;
    cursor.skip(2)?;
    read_v2_header_flags(cursor, length, count, difficulty)
}

fn read_v2_header_flags(cursor: &mut ByteReader, length: u32, count: u32, difficulty: u8) -> (r: Result<
    V2Header,
    ParseError,
>)
    ensures
        final(cursor).data@ == old(cursor).data@,
        match spec_v2_header_flags(old(cursor).data@, old(cursor).pos as int, length, count, difficulty) {
            Ok((h, p)) => r matches Ok(x) && x == h && final(cursor).pos == p,
            Err((e, p)) => r matches Err(err) && err@ == e && final(cursor).pos == p,
        },
{
    let has_audio = cursor.read_u8()? != 0;
    let has_cover = cursor.read_u8()? != 0;
    cursor.skip(1)?;
    let custom_offset = cursor.read_u64()?;
    let _custom_length = cursor.read_u64()?;
    let audio_offset = cursor.read_u64()?;
    let audio_length = cursor.read_u64()?;
    let cover_offset = cursor.read_u64()?;
    let cover_length = cursor.read_u64()?;
    cursor.skip(16)?;
    let marker_offset = cursor.read_u64()?;
    cursor.skip(8)?;
    Ok(
        V2Header {
            length,
            count,
            difficulty,
            has_audio,
            has_cover,
            custom_offset,
            audio_offset,
            audio_length,
            cover_offset,
            cover_length,
            marker_offset,
        },
    )
}


/// A `u16` length, then that many bytes as text.
pub open spec fn spec_read_prefixed(d: Seq<u8>, p: int) -> Step<Seq<char>> {
    match spec_read_u16(d, p) {
        Err(e) => Err(e),
        Ok((n, p1)) => spec_read_string(d, p1, n as int),
    }
}

/// `count` length-prefixed strings, one after the other.
pub open spec fn spec_read_prefixed_list(d: Seq<u8>, p: int, count: nat) -> Step<Seq<Seq<char>>>
    decreases count,
{
    if count == 0 {
        Ok((Seq::empty(), p))
    } else {
        match spec_read_prefixed_list(d, p, (count - 1) as nat) {
            Err(e) => Err(e),
            Ok((ss, p1)) => match spec_read_prefixed(d, p1) {
                Err(e) => Err(e),
                Ok((s, p2)) => Ok((ss.push(s), p2)),
            },
        }
    }
}

/// The names of a version 2 map.
pub struct V2Names {
    pub id: Seq<char>,
    pub name: Seq<char>,
    pub mappers: Seq<Seq<char>>,
}

/// Version 2, after the header: the id, the "Artist - Title" name and the song
/// name (skipped), each with a `u16` length; a `u16` mapper count and the mappers.
pub open spec fn spec_v2_names(d: Seq<u8>, p: int) -> Step<V2Names> {
    match spec_read_prefixed(d, p) {
        Err(e) => Err(e),
        Ok((id, p1)) => match spec_read_prefixed(d, p1) {
            Err(e) => Err(e),
            Ok((name, p2)) => match spec_read_u16(d, p2) {
                Err(e) => Err(e),
                Ok((song_len, p3)) => match spec_skip(p3, song_len as int) {
                    Err(e) => Err(e),
                    Ok((_, p4)) => match spec_read_u16(d, p4) {
                        Err(e) => Err(e),
                        Ok((mapper_count, p5)) => match spec_read_prefixed_list(d, p5, mapper_count as nat) {
                            Err(e) => Err(e),
                            Ok((mappers, p6)) => Ok((V2Names { id, name, mappers }, p6)),
                        },
                    },
                },
            },
        },
    }
}

/// The length of the difficulty name value: a `u16` after type tag 9, a `u32`
/// after type tag 11, none (0) after any other tag.
pub open spec fn spec_value_length(d: Seq<u8>, p: int, tag: u8) -> Step<int> {
    if tag == 9 {
        match spec_read_u16(d, p) {
            Err(e) => Err(e),
            Ok((n, p1)) => Ok((n as int, p1)),
        }
    } else if tag == 11 {
        match spec_read_u32(d, p) {
            Err(e) => Err(e),
            Ok((n, p1)) => Ok((n as int, p1)),
        }
    } else {
        Ok((0, p))
    }
}

/// The difficulty name in the custom data at `offset`: after 2 bytes of field
/// count, a `u16`-prefixed key; when the key is `difficulty_name`, a type tag, the
/// value length and the value. Empty when the key differs or the length is 0.
pub open spec fn spec_v2_difficulty_name(d: Seq<u8>, offset: int) -> Step<Seq<char>> {
    match spec_skip(offset, 2) {
        Err(e) => Err(e),
        Ok((_, p1)) => match spec_read_prefixed(d, p1) {
            Err(e) => Err(e),
            Ok((key, p2)) => if key == "difficulty_name"@ {
                match spec_read_u8(d, p2) {
                    Err(e) => Err(e),
                    Ok((tag, p3)) => match spec_value_length(d, p3, tag) {
                        Err(e) => Err(e),
                        Ok((n, p4)) => if n > 0 {
                            spec_read_string(d, p4, n)
                        } else {
                            Ok((Seq::empty(), p4))
                        },
                    },
                }
            } else {
                Ok((Seq::empty(), p2))
            },
        },
    }
}

/// `length` bytes at the absolute position `offset` when `present`, else none,
/// the reader staying at `p`.
pub open spec fn spec_read_at(d: Seq<u8>, p: int, present: bool, offset: int, length: int) -> Step<Seq<u8>> {
    if present {
        spec_read_bytes(d, offset, length)
    } else {
        Ok((Seq::empty(), p))
    }
}

/// Version 2, after the version: the header and the names; the difficulty name
/// from the custom data; the audio and the cover at their offsets when their flags
/// are set; the notes at the marker offset (a marker byte each, `x - 1`, `-y + 1`).
pub open spec fn spec_sspm_v2(d: Seq<u8>, p: int) -> Step<MapView> {
    match spec_v2_header(d, p) {
        Err(e) => Err(e),
        Ok((h, p1)) => match spec_v2_names(d, p1) {
            Err(e) => Err(e),
            Ok((names, _)) => match spec_v2_difficulty_name(d, h.custom_offset as int) {
                Err(e) => Err(e),
                Ok((difficulty_name, p3)) => match spec_read_at(
                    d,
                    p3,
                    h.has_audio,
                    h.audio_offset as int,
                    h.audio_length as int,
                ) {
                    Err(e) => Err(e),
                    Ok((audio, p4)) => match spec_read_at(
                        d,
                        p4,
                        h.has_cover,
                        h.cover_offset as int,
                        h.cover_length as int,
                    ) {
                        Err(e) => Err(e),
                        Ok((cover, _)) => match spec_read_notes(
                            d,
                            h.marker_offset as int,
                            h.count as nat,
                            sspm_layout(true, true),
                        ) {
                            Err(e) => Err(e),
                            Ok((notes, p_end)) => Ok(
                                (MapView {
                                    id: names.id,
                                    title: split_name(names.name).1,
                                    artist: split_name(names.name).0,
                                    mappers: names.mappers,
                                    difficulty: h.difficulty,
                                    difficulty_name,
                                    length_ms: h.length,
                                    audio,
                                    cover,
                                    audio_ext: audio_ext_of(audio),
                                    notes,
                                }, p_end),
                            ),
                        },
                    },
                },
            },
        },
    }
}

fn read_prefixed(cursor: &mut ByteReader) -> (r: Result<String, ParseError>)
    ensures
        final(cursor).data@ == old(cursor).data@,
        match spec_read_prefixed(old(cursor).data@, old(cursor).pos as int) {
            Ok((s, p)) => r matches Ok(t) && t@ == s && final(cursor).pos == p,
            Err((e, p)) => r matches Err(err) && err@ == e && final(cursor).pos == p,
        },
{
    let len = cursor.read_u16()? as usize;
    read_string(cursor, len)
}

proof fn lemma_prefixed_list_error_persists(d: Seq<u8>, p: int, i: nat, count: nat)
    requires
        i <= count,
        spec_read_prefixed_list(d, p, i) is Err,
    ensures
        spec_read_prefixed_list(d, p, count) == spec_read_prefixed_list(d, p, i),
    decreases count - i,
{
    if count > i {
        lemma_prefixed_list_error_persists(d, p, i, (count - 1) as nat);
    }
}

fn read_prefixed_list(cursor: &mut ByteReader, count: u16) -> (r: Result<Vec<String>, ParseError>)
    ensures
        final(cursor).data@ == old(cursor).data@,
        match spec_read_prefixed_list(old(cursor).data@, old(cursor).pos as int, count as nat) {
            Ok((ss, p)) => r matches Ok(v) && strings_view(v@) == ss && final(cursor).pos == p,
            Err((e, p)) => r matches Err(err) && err@ == e && final(cursor).pos == p,
        },
{
    let ghost d = cursor.data@;
    let ghost start = cursor.pos as int;
    let mut out: Vec<String> = Vec::new();
    let mut i: u16 = 0;
    assert(strings_view(out@) =~= Seq::<Seq<char>>::empty());
    while i < count
        invariant
            d == old(cursor).data@,
            start == old(cursor).pos as int,
            i <= count,
            cursor.data@ == d,
            spec_read_prefixed_list(d, start, i as nat) == Ok::<(Seq<Seq<char>>, int), (ParseErrorView, int)>(
                (strings_view(out@), cursor.pos as int),
            ),
        decreases count - i,
    {
        let s = match read_prefixed(cursor) {
            Ok(s) => s,
            Err(e) => {
                proof {
                    lemma_prefixed_list_error_persists(d, start, (i + 1) as nat, count as nat);
                }
                return Err(e);
            },
        };
        let ghost prev = strings_view(out@);
        out.push(s);
        assert(strings_view(out@) =~= prev.push(s@));
        i = i + 1;
    }
    Ok(out)
}

fn read_v2_names(cursor: &mut ByteReader) -> (r: Result<(String, String, Vec<String>), ParseError>)
    ensures
        final(cursor).data@ == old(cursor).data@,
        match spec_v2_names(old(cursor).data@, old(cursor).pos as int) {
            Ok((n, p)) => r matches Ok(t) && t.0@ == n.id && t.1@ == n.name && strings_view(t.2@)
                == n.mappers && final(cursor).pos == p,
            Err((e, p)) => r matches Err(err) && err@ == e && final(cursor).pos == p,
        },
{
    let id = read_prefixed(cursor)?;
    let name = read_prefixed(cursor)?;
    let song_name_len = cursor.read_u16()?;
    cursor.skip(song_name_len as u64)?;
    let mapper_count = cursor.read_u16()?;
    let mappers = read_prefixed_list(cursor, mapper_count)?;
    Ok((id, name, mappers))
}

fn read_v2_difficulty_name(cursor: &mut ByteReader, offset: u64) -> (r: Result<String, ParseError>)
    ensures
        final(cursor).data@ == old(cursor).data@,
        match spec_v2_difficulty_name(old(cursor).data@, offset as int) {
            Ok((s, p)) => r matches Ok(t) && t@ == s && final(cursor).pos == p,
            Err((e, p)) => r matches Err(err) && err@ == e && final(cursor).pos == p,
        },
{
    cursor.seek_to(offset);
    cursor.skip(2)?;
    let key = read_prefixed(cursor)?;
    let expected = String::from_str("difficulty_name");
    if key == expected {
        let tag = cursor.read_u8()?;
        let val_len: usize = if tag == 9 {
            cursor.read_u16()? as usize
        } else if tag == 11 {
            cursor.read_u32()? as usize
        } else {
            0
        };
        if val_len > 0 {
            read_string(cursor, val_len)
        } else {
            Ok(String::new())
        }
    } else {
        Ok(String::new())
    }
}

fn read_at(cursor: &mut ByteReader, present: bool, offset: u64, length: u64) -> (r: Result<Vec<u8>, ParseError>)
    ensures
        final(cursor).data@ == old(cursor).data@,
        match spec_read_at(old(cursor).data@, old(cursor).pos as int, present, offset as int, length as int) {
            Ok((b, p)) => r matches Ok(v) && v@ == b && final(cursor).pos == p,
            Err((e, p)) => r matches Err(err) && err@ == e && final(cursor).pos == p,
        },
{
    if present {
        cursor.seek_to(offset);
        cursor.read_exact(length)
    } else {
        Ok(Vec::new())
    }
}

/// Decode a version 2 map; the cursor stands after the version.
pub fn parse_sspm_v2(cursor: &mut ByteReader) -> (r: Result<MapData, ParseError>)
    ensures
        final(cursor).data@ == old(cursor).data@,
        map_result_as(r, outcome(spec_sspm_v2(old(cursor).data@, old(cursor).pos as int))),
        final(cursor).pos == step_end(spec_sspm_v2(old(cursor).data@, old(cursor).pos as int)),
{
    let h = read_v2_header(cursor)?;
    let (id, name_str, mappers) = read_v2_names(cursor)?;
    let difficulty_name = read_v2_difficulty_name(cursor, h.custom_offset)?;
    let audio = read_at(cursor, h.has_audio, h.audio_offset, h.audio_length)?;
    let cover = read_at(cursor, h.has_cover, h.cover_offset, h.cover_length)?;
    cursor.seek_to(h.marker_offset);
    let notes = parse_sspm_v2_notes(cursor, h.count as usize)?;
    let (artist, title) = split_artist_title(&name_str);
    let audio_ext = String::from_str(MapData::detect_audio_ext(audio.as_slice()));
    Ok(
        MapData {
            id,
            title,
            artist,
            mappers,
            difficulty: h.difficulty,
            difficulty_name,
            length_ms: h.length,
            audio,
            cover,
            audio_ext,
            notes,
        },
    )
}


/// The signature `"SS+m"`.
pub open spec fn sspm_signature() -> Seq<u8> {
    seq![0x53u8, 0x53u8, 0x2bu8, 0x6du8]
}

/// The message for a wrong signature: `Attendu 'SS+m', trouvé '<signature>'`.
pub open spec fn bad_signature_message(sig: Seq<u8>) -> Seq<char> {
    "Attendu 'SS+m', trouvé '"@ + utf8_lossy(sig) + "'"@
}

/// A `.sspm` file: the signature `"SS+m"`, a `u16` version, then a version 1 or
/// version 2 map; other versions are refused.
pub open spec fn spec_sspm(d: Seq<u8>) -> Result<MapView, ParseErrorView> {
    match spec_read_bytes(d, 0, 4) {
        Err((e, _)) => Err(e),
        Ok((sig, p1)) => if sig != sspm_signature() {
            Err(ParseErrorView::InvalidSignature(bad_signature_message(sig)))
        } else {
            match spec_read_u16(d, p1) {
                Err((e, _)) => Err(e),
                Ok((version, p2)) => if version == 1 {
                    outcome(spec_sspm_v1(d, p2))
                } else if version == 2 {
                    outcome(spec_sspm_v2(d, p2))
                } else {
                    Err(ParseErrorView::UnsupportedVersion(version))
                },
            }
        },
    }
}

/// Decode a `.sspm` map.
pub fn parse_sspm(bytes: &[u8]) -> (r: Result<MapData, ParseError>)
    ensures
        map_result_as(r, spec_sspm(bytes@)),
{
    let mut cursor = ByteReader::new(bytes);
    let sig = cursor.read_exact(4)?;
    if !(sig[0] == 0x53 && sig[1] == 0x53 && sig[2] == 0x2b && sig[3] == 0x6d) {
        let mut msg = String::from_str("Attendu 'SS+m', trouvé '");
        let found = decode_lossy(sig.as_slice());
        msg.append(found.as_str());
        msg.append("'");
        return Err(ParseError::InvalidSignature(msg));
    }
    assert(sig@ =~= sspm_signature());
    let version = cursor.read_u16()?;
    if version == 1 {
        parse_sspm_v1(&mut cursor)
    } else if version == 2 {
        parse_sspm_v2(&mut cursor)
    } else {
        Err(ParseError::UnsupportedVersion(version))
    }
}

/// What a version 1 map holds: the id line; the artist and title of the name
/// line; the mappers of the mapper line; the difficulty, length and note count of
/// the head, and no difficulty name; the cover when its flag byte is 2, the
/// audio when its flag byte is nonzero, each a blob of the length written before
/// it; "ogg" as audio extension exactly when the audio starts with "OggS".
pub proof fn lemma_sspm_v1_fields(d: Seq<u8>, p: int)
    requires
        spec_sspm_v1(d, p) is Ok,
    ensures
        ({
            let (h, p1) = spec_v1_head(d, p)->Ok_0;
            let map = spec_sspm_v1(d, p)->Ok_0.0;
            let cover_flag = d[p1];
            &&& map.id == h.id
            &&& map.artist == split_name(h.name).0
            &&& map.title == split_name(h.name).1
            &&& map.mappers == v1_mappers(h.mapper_line)
            &&& map.difficulty == h.difficulty
            &&& map.difficulty_name == Seq::<char>::empty()
            &&& map.length_ms == h.length
            &&& map.notes.len() == h.count
            &&& (cover_flag != 2 ==> map.cover == Seq::<u8>::empty())
            &&& (map.audio_ext == "ogg"@ <==> is_ogg(map.audio))
            &&& (map.audio_ext == "mp3"@ <==> !is_ogg(map.audio))
        }),
{
    reveal_strlit("ogg");
    reveal_strlit("mp3");
    let (h, p1) = spec_v1_head(d, p)->Ok_0;
    let (cover_flag, p2) = spec_read_u8(d, p1)->Ok_0;
    let (cover, p3) = spec_read_blob(d, p2, cover_flag == 2)->Ok_0;
    let (audio_flag, p4) = spec_read_u8(d, p3)->Ok_0;
    let (audio, p5) = spec_read_blob(d, p4, audio_flag != 0)->Ok_0;
    lemma_read_notes_count(d, p5, h.count as nat, sspm_layout(false, true));
    assert(seq!['o', 'g', 'g'] != seq!['m', 'p', '3']) by {
        assert(seq!['o', 'g', 'g'][0] != seq!['m', 'p', '3'][0]);
    }
    assert("ogg"@ =~= seq!['o', 'g', 'g']);
    assert("mp3"@ =~= seq!['m', 'p', '3']);
}

/// What a version 2 map holds: the id and the mappers as written; the artist and
/// title of the name; the difficulty, length and note count of the header; the
/// difficulty name of the custom data; the audio (and the cover) as the bytes at
/// their offset, of their length, when their flag is set, else none.
pub proof fn lemma_sspm_v2_fields(d: Seq<u8>, p: int)
    requires
        spec_sspm_v2(d, p) is Ok,
    ensures
        ({
            let (h, p1) = spec_v2_header(d, p)->Ok_0;
            let names = spec_v2_names(d, p1)->Ok_0.0;
            let map = spec_sspm_v2(d, p)->Ok_0.0;
            &&& map.id == names.id
            &&& map.artist == split_name(names.name).0
            &&& map.title == split_name(names.name).1
            &&& map.mappers == names.mappers
            &&& map.difficulty == h.difficulty
            &&& map.difficulty_name == spec_v2_difficulty_name(d, h.custom_offset as int)->Ok_0.0
            &&& map.length_ms == h.length
            &&& map.notes.len() == h.count
            &&& map.audio == if h.has_audio && h.audio_length > 0 {
                d.subrange(h.audio_offset as int, h.audio_offset + h.audio_length)
            } else {
                Seq::<u8>::empty()
            }
            &&& map.cover == if h.has_cover && h.cover_length > 0 {
                d.subrange(h.cover_offset as int, h.cover_offset + h.cover_length)
            } else {
                Seq::<u8>::empty()
            }
        }),
{
    let (h, p1) = spec_v2_header(d, p)->Ok_0;
    lemma_read_notes_count(d, h.marker_offset as int, h.count as nat, sspm_layout(true, true));
}

/// Where the fields of a version 1 head lie: after 2 reserved bytes, the id line,
/// the name line and the mapper line; right after them the length (4 bytes), the
/// note count (4 bytes) and the difficulty (1 byte), little-endian.
pub proof fn lemma_v1_head_layout(d: Seq<u8>, p: int)
    requires
        spec_v1_head(d, p) is Ok,
    ensures
        ({
            let (h, end) = spec_v1_head(d, p)->Ok_0;
            let (l1, q1) = spec_read_line(d, p + 2)->Ok_0;
            let (l2, q2) = spec_read_line(d, q1)->Ok_0;
            let (l3, q) = spec_read_line(d, q2)->Ok_0;
            &&& h.id == l1
            &&& h.name == l2
            &&& h.mapper_line == l3
            &&& h.length as int == le_u32_value(d.subrange(q, q + 4))
            &&& h.count as int == le_u32_value(d.subrange(q + 4, q + 8))
            &&& h.difficulty == d[q + 8]
            &&& end == q + 9
        }),
{
}

/// Where the fields of a version 2 header lie, from its start `p`: length at
/// `p + 24` and note count at `p + 28` (4 bytes each); difficulty at `p + 36`;
/// audio and cover flags at `p + 39` and `p + 40`; then 8-byte values: custom data
/// offset at `p + 42`, audio offset and length at `p + 58` and `p + 66`, cover
/// offset and length at `p + 74` and `p + 82`, marker offset at `p + 106`; the
/// header ends at `p + 122`.
pub proof fn lemma_v2_header_layout(d: Seq<u8>, p: int)
    requires
        spec_v2_header(d, p) is Ok,
    ensures
        ({
            let (h, end) = spec_v2_header(d, p)->Ok_0;
            &&& h.length as int == le_u32_value(d.subrange(p + 24, p + 28))
            &&& h.count as int == le_u32_value(d.subrange(p + 28, p + 32))
            &&& h.difficulty == d[p + 36]
            &&& h.has_audio == (d[p + 39] != 0)
            &&& h.has_cover == (d[p + 40] != 0)
            &&& h.custom_offset as int == le_u64_value(d.subrange(p + 42, p + 50))
            &&& h.audio_offset as int == le_u64_value(d.subrange(p + 58, p + 66))
            &&& h.audio_length as int == le_u64_value(d.subrange(p + 66, p + 74))
            &&& h.cover_offset as int == le_u64_value(d.subrange(p + 74, p + 82))
            &&& h.cover_length as int == le_u64_value(d.subrange(p + 82, p + 90))
            &&& h.marker_offset as int == le_u64_value(d.subrange(p + 106, p + 114))
            &&& end == p + 122
        }),
{
}

} // verus!
