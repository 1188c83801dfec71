//! Decoding of the map formats.
//!
//! - `.sspm`: the SoundSpace+ binary format, versions 1 and 2 (`parse_sspm`);
//! - `.phxm`: a zip archive holding `metadata.json` and the binary note list
//!   `objects.phxmo` (see `crate::map::phxm`);
//! - `.txt`: the legacy text format, one line of `x|y|ms` fields (`parse_ssmap_v1_bytes`).
//!
//! Every decoder states its result as a function of the input bytes: the spec
//! functions here read the formats step by step at byte positions, as the
//! decoders do, and the decoders return exactly what they describe, with the
//! notes put in time order (`sorted_by_time`).

use vstd::prelude::*;
use crate::map::error::{ParseError, ParseErrorView};
use crate::map::reader::{
    ByteReader, Step, spec_read_bytes, spec_read_u8, spec_read_u32, past_end, step_end, le_u32_value,
};
use crate::map::text::{
    trim_end_cr, utf8_lossy, decode_lossy, str_chars, trim_end_cr_chars, string_from_chars,
    extension_of, extension_chars, lowercase, to_lowercase, all_ascii, ascii_lower,
};
use crate::map::types::{Coord, CoordView, NoteData, NoteView, notes_view};
use crate::map::notes::{sorted_by_time, sort_by_time};

verus! {

// ------------------------------------------------------------------------------
// Lines and strings
// ------------------------------------------------------------------------------

/// The first position at or after `i` that holds `'\n'` or a zero byte.
pub open spec fn find_line_end(d: Seq<u8>, i: int) -> Option<int>
    decreases d.len() - i,
{
    if i < 0 || i >= d.len() {
        None
    } else if d[i] == 10 || d[i] == 0 {
        Some(i)
    } else {
        find_line_end(d, i + 1)
    }
}

/// A line ended by `'\n'` or a zero byte, read at `pos`: its text, without the
/// carriage returns that end it; the position after the terminator. Without a
/// terminator, the bytes run out: the end-of-input error, the reader at the end.
pub open spec fn spec_read_line(d: Seq<u8>, pos: int) -> Step<Seq<char>> {
    match find_line_end(d, pos) {
        Some(e) => Ok((trim_end_cr(utf8_lossy(d.subrange(pos, e))), e + 1)),
        None => past_end(d),
    }
}

/// `n` bytes read at `pos`, as text.
pub open spec fn spec_read_string(d: Seq<u8>, pos: int, n: int) -> Step<Seq<char>> {
    match spec_read_bytes(d, pos, n) {
        Ok((b, p)) => Ok((utf8_lossy(b), p)),
        Err(e) => Err(e),
    }
}

/// Read a line ended by `'\n'` or a zero byte.
pub fn read_line(cursor: &mut ByteReader) -> (r: Result<String, ParseError>)
    ensures
        final(cursor).data@ == old(cursor).data@,
        match spec_read_line(old(cursor).data@, old(cursor).pos as int) {
            Ok((s, p)) => r matches Ok(t) && t@ == s && final(cursor).pos == p,
            Err((e, p)) => r matches Err(err) && err@ == e && final(cursor).pos == p,
        },
{
    let ghost d = cursor.data@;
    let ghost start = cursor.pos as int;
    let mut s: Vec<u8> = Vec::new();
    loop
        invariant
            d == old(cursor).data@,
            start == old(cursor).pos as int,
            cursor.data@ == d,
            cursor.pos as int == start + s@.len(),
            s@.len() > 0 ==> start + s@.len() <= d.len(),
            s@.len() > 0 ==> s@ == d.subrange(start, cursor.pos as int),
            find_line_end(d, start) == find_line_end(d, cursor.pos as int),
        decreases d.len() - cursor.pos,
    {
        let b = cursor.read_u8()?;
        if b == 10 || b == 0 {
            assert(s@ =~= d.subrange(start, cursor.pos - 1));
            let line = decode_lossy(s.as_slice());
            let chars = str_chars(line.as_str());
            let trimmed = trim_end_cr_chars(chars.as_slice());
            return Ok(string_from_chars(trimmed.as_slice()));
        }
        s.push(b);
        assert(s@ =~= d.subrange(start, cursor.pos as int));
    }
}

/// Read `len` bytes as text.
pub fn read_string(cursor: &mut ByteReader, len: usize) -> (r: Result<String, ParseError>)
    ensures
        final(cursor).data@ == old(cursor).data@,
        match spec_read_string(old(cursor).data@, old(cursor).pos as int, len as int) {
            Ok((s, p)) => r matches Ok(t) && t@ == s && final(cursor).pos == p,
            Err((e, p)) => r matches Err(err) && err@ == e && final(cursor).pos == p,
        },
{
    let buf = cursor.read_exact(len as u64)?;
    Ok(decode_lossy(buf.as_slice()))
}

// ------------------------------------------------------------------------------
// Notes
// ------------------------------------------------------------------------------

/// A sign and shift applied to a coordinate as read: `±v + offset`.
#[derive(Clone, Copy)]
pub struct Affine {
    pub negate: bool,
    pub offset: i32,
}

/// How a note is laid out and how its coordinates are turned into grid positions.
/// A note is: `u32` time; one marker-type byte when `marker`; one byte, nonzero
/// for a "quantum" note; then two `f32` (quantum) or two `u8` coordinates.
#[derive(Clone, Copy)]
pub struct NoteLayout {
    pub marker: bool,
    pub quantum_x: Affine,
    pub quantum_y: Affine,
    pub grid_x: Affine,
    pub grid_y: Affine,
}

pub open spec fn grid_coord(a: Affine, raw: u8) -> CoordView {
    CoordView::Grid(
        if a.negate {
            -(raw as int)
        } else {
            raw as int
        } + a.offset as int,
    )
}

pub open spec fn bits_coord(a: Affine, bits: u32) -> CoordView {
    CoordView::Bits { bits, negate: a.negate, offset: a.offset as int }
}

/// The quantum part of a note: its two `f32` coordinates.
pub open spec fn spec_read_quantum(d: Seq<u8>, p: int, l: NoteLayout) -> Step<(CoordView, CoordView)> {
    match spec_read_u32(d, p) {
        Err(e) => Err(e),
        Ok((xb, p1)) => match spec_read_u32(d, p1) {
            Err(e) => Err(e),
            Ok((yb, p2)) => Ok(((bits_coord(l.quantum_x, xb), bits_coord(l.quantum_y, yb)), p2)),
        },
    }
}

/// The grid part of a note: its two byte coordinates.
pub open spec fn spec_read_grid(d: Seq<u8>, p: int, l: NoteLayout) -> Step<(CoordView, CoordView)> {
    match spec_read_u8(d, p) {
        Err(e) => Err(e),
        Ok((xb, p1)) => match spec_read_u8(d, p1) {
            Err(e) => Err(e),
            Ok((yb, p2)) => Ok(((grid_coord(l.grid_x, xb), grid_coord(l.grid_y, yb)), p2)),
        },
    }
}

/// One note read at `p`, numbered `i`.
pub open spec fn spec_read_note(d: Seq<u8>, p: int, l: NoteLayout, i: int) -> Step<NoteView> {
    match spec_read_u32(d, p) {
        Err(e) => Err(e),
        Ok((ms, p1)) => match (if l.marker {
            spec_read_u8(d, p1)
        } else {
            Ok((0u8, p1))
        }) {
            Err(e) => Err(e),
            Ok((_, p2)) => match spec_read_u8(d, p2) {
                Err(e) => Err(e),
                Ok((q, p3)) => match (if q != 0 {
                    spec_read_quantum(d, p3, l)
                } else {
                    spec_read_grid(d, p3, l)
                }) {
                    Err(e) => Err(e),
                    Ok(((x, y), p4)) => Ok((NoteView { index: i, millisecond: ms, x, y }, p4)),
                },
            },
        },
    }
}

/// `count` notes read one after the other at `p`, numbered from 0, as read.
pub open spec fn spec_read_notes(d: Seq<u8>, p: int, count: nat, l: NoteLayout) -> Step<Seq<NoteView>>
    decreases count,
{
    if count == 0 {
        Ok((Seq::empty(), p))
    } else {
        match spec_read_notes(d, p, (count - 1) as nat, l) {
            Err(e) => Err(e),
            Ok((ns, p1)) => match spec_read_note(d, p1, l, count - 1) {
                Err(e) => Err(e),
                Ok((n, p2)) => Ok((ns.push(n), p2)),
            },
        }
    }
}

fn apply_grid(a: Affine, raw: u8) -> (c: Coord)
    requires
        -1000 <= a.offset <= 1000,
    ensures
        c@ == grid_coord(a, raw),
{
    let v = raw as i32;
    if a.negate {
        Coord::Grid(-v + a.offset)
    } else {
        Coord::Grid(v + a.offset)
    }
}

fn read_note(cursor: &mut ByteReader, l: NoteLayout, i: usize) -> (r: Result<NoteData, ParseError>)
    requires
        -1000 <= l.grid_x.offset <= 1000,
        -1000 <= l.grid_y.offset <= 1000,
    ensures
        final(cursor).data@ == old(cursor).data@,
        match spec_read_note(old(cursor).data@, old(cursor).pos as int, l, i as int) {
            Ok((n, p)) => r matches Ok(t) && t@ == n && final(cursor).pos == p,
            Err((e, p)) => r matches Err(err) && err@ == e && final(cursor).pos == p,
        },
{
    let ms = cursor.read_u32()?;
    if l.marker {
        cursor.read_u8()?;
    }
    let quantum = cursor.read_u8()? != 0;
    if quantum {
        let xb = cursor.read_u32()?;
        let yb = cursor.read_u32()?;
        Ok(
            NoteData {
                index: i,
                millisecond: ms,
                x: Coord::Bits { bits: xb, negate: l.quantum_x.negate, offset: l.quantum_x.offset },
                y: Coord::Bits { bits: yb, negate: l.quantum_y.negate, offset: l.quantum_y.offset },
            },
        )
    } else {
        let xb = cursor.read_u8()?;
        let yb = cursor.read_u8()?;
        Ok(
            NoteData {
                index: i,
                millisecond: ms,
                x: apply_grid(l.grid_x, xb),
                y: apply_grid(l.grid_y, yb),
            },
        )
    }
}

proof fn lemma_notes_error_persists(d: Seq<u8>, p: int, i: nat, count: nat, l: NoteLayout)
    requires
        i <= count,
        spec_read_notes(d, p, i, l) is Err,
    ensures
        spec_read_notes(d, p, count, l) == spec_read_notes(d, p, i, l),
    decreases count - i,
{
    if count > i {
        lemma_notes_error_persists(d, p, i, (count - 1) as nat, l);
    }
}

/// Read `count` notes as they come, numbered from 0.
fn read_notes(cursor: &mut ByteReader, count: usize, l: NoteLayout) -> (r: Result<Vec<NoteData>, ParseError>)
    requires
        -1000 <= l.grid_x.offset <= 1000,
        -1000 <= l.grid_y.offset <= 1000,
    ensures
        final(cursor).data@ == old(cursor).data@,
        match spec_read_notes(old(cursor).data@, old(cursor).pos as int, count as nat, l) {
            Ok((ns, p)) => r matches Ok(v) && notes_view(v@) == ns && final(cursor).pos == p,
            Err((e, p)) => r matches Err(err) && err@ == e && final(cursor).pos == p,
        },
{
    let ghost d = cursor.data@;
    let ghost start = cursor.pos as int;
    let mut notes: Vec<NoteData> = Vec::new();
    let mut i: usize = 0;
    assert(notes_view(notes@) =~= Seq::<NoteView>::empty());
    while i < count
        invariant
            d == old(cursor).data@,
            start == old(cursor).pos as int,
            i <= count,
            cursor.data@ == d,
            -1000 <= l.grid_x.offset <= 1000,
            -1000 <= l.grid_y.offset <= 1000,
            spec_read_notes(d, start, i as nat, l) == Ok::<(Seq<NoteView>, int), (ParseErrorView, int)>(
                (notes_view(notes@), cursor.pos as int),
            ),
        decreases count - i,
    {
        let note = match read_note(cursor, l, i) {
            Ok(n) => n,
            Err(e) => {
                proof {
                    lemma_notes_error_persists(d, start, (i + 1) as nat, count as nat, l);
                }
                return Err(e);
            },
        };
        let ghost prev = notes_view(notes@);
        notes.push(note);
        assert(notes_view(notes@) =~= prev.push(note@));
        i = i + 1;
    }
    Ok(notes)
}

/// Reading `count` notes gives `count` notes, numbered 0 to `count - 1` in the
/// order they were read.
pub proof fn lemma_read_notes_count(d: Seq<u8>, p: int, count: nat, l: NoteLayout)
    requires
        spec_read_notes(d, p, count, l) is Ok,
    ensures
        spec_read_notes(d, p, count, l)->Ok_0.0.len() == count,
        forall|k: int| 0 <= k < count ==> (#[trigger] spec_read_notes(d, p, count, l)->Ok_0.0[k]).index == k,
    decreases count,
{
    if count > 0 {
        lemma_read_notes_count(d, p, (count - 1) as nat, l);
        let prev = spec_read_notes(d, p, (count - 1) as nat, l)->Ok_0;
        lemma_note_fields(d, prev.1, l, count - 1);
        let all = spec_read_notes(d, p, count, l)->Ok_0.0;
        assert forall|k: int| 0 <= k < count implies (#[trigger] all[k]).index == k by {
            if k < count - 1 {
                assert(all[k] == prev.0[k]);
            }
        }
    }
}

/// Notes read and put in time order.
pub open spec fn notes_result_as(r: Result<Vec<NoteData>, ParseError>, s: Step<Seq<NoteView>>) -> bool {
    match s {
        Ok((raw, _)) => r matches Ok(v) && sorted_by_time(raw, notes_view(v@)),
        Err((e, _)) => r matches Err(err) && err@ == e,
    }
}

/// Layout of the notes of a PHXMO note list: no marker byte; quantum coordinates
/// as read, grid coordinates shifted by -1.
pub open spec fn phxmo_layout() -> NoteLayout {
    NoteLayout {
        marker: false,
        quantum_x: Affine { negate: false, offset: 0i32 },
        quantum_y: Affine { negate: false, offset: 0i32 },
        grid_x: Affine { negate: false, offset: -1i32 },
        grid_y: Affine { negate: false, offset: -1i32 },
    }
}

/// Layout of SSPM notes: `x - 1`, and `-y + 1` when `invert_y`, else `y - 1`.
pub open spec fn sspm_layout(marker: bool, invert_y: bool) -> NoteLayout {
    let ax = Affine { negate: false, offset: -1i32 };
    let ay = if invert_y {
        Affine { negate: true, offset: 1i32 }
    } else {
        Affine { negate: false, offset: -1i32 }
    };
    NoteLayout { marker, quantum_x: ax, quantum_y: ay, grid_x: ax, grid_y: ay }
}

fn make_sspm_layout(marker: bool, invert_y: bool) -> (l: NoteLayout)
    ensures
        l == sspm_layout(marker, invert_y),
{
    let ax = Affine { negate: false, offset: -1 };
    let ay = if invert_y {
        Affine { negate: true, offset: 1 }
    } else {
        Affine { negate: false, offset: -1 }
    };
    NoteLayout { marker, quantum_x: ax, quantum_y: ay, grid_x: ax, grid_y: ay }
}

/// A coordinate on the grid: from -1 to 1.
pub open spec fn on_grid(c: CoordView) -> bool {
    c matches CoordView::Grid(v) && -1 <= v <= 1
}

/// Grid coordinates stored as bytes 0, 1 or 2 land on the grid, from -1 to 1, in
/// every note layout of the formats.
pub proof fn lemma_grid_bytes_land_on_grid(raw: u8, marker: bool, invert_y: bool)
    requires
        raw <= 2,
    ensures
        on_grid(grid_coord(phxmo_layout().grid_x, raw)),
        on_grid(grid_coord(phxmo_layout().grid_y, raw)),
        on_grid(grid_coord(sspm_layout(marker, invert_y).grid_x, raw)),
        on_grid(grid_coord(sspm_layout(marker, invert_y).grid_y, raw)),
{
}

/// Where a note's fields lie: its time in the first four bytes; after the
/// marker byte, if any, the quantum flag; then, for a quantum note, two `f32`
/// (four bytes each, x first), else two bytes (x first). Each coordinate gets the
/// layout's transform for its kind, and the note ends right after them.
pub proof fn lemma_note_fields(d: Seq<u8>, p: int, l: NoteLayout, i: int)
    requires
        spec_read_note(d, p, l, i) is Ok,
    ensures
        ({
            let m: int = if l.marker { 1 } else { 0 };
            let q = p + 4 + m;
            let n = spec_read_note(d, p, l, i)->Ok_0.0;
            let end = spec_read_note(d, p, l, i)->Ok_0.1;
            &&& 0 <= p
            &&& n.index == i
            &&& n.millisecond as int == le_u32_value(d.subrange(p, p + 4))
            &&& d[q] != 0 ==> {
                &&& n.x == bits_coord(l.quantum_x, le_u32_value(d.subrange(q + 1, q + 5)) as u32)
                &&& n.y == bits_coord(l.quantum_y, le_u32_value(d.subrange(q + 5, q + 9)) as u32)
                &&& end == q + 9
            }
            &&& d[q] == 0 ==> {
                &&& n.x == grid_coord(l.grid_x, d[q + 1])
                &&& n.y == grid_coord(l.grid_y, d[q + 2])
                &&& end == q + 3
            }
        }),
{
}

/// The transforms of SSPM notes: x becomes `x - 1`; y becomes `-y + 1` when
/// inverted, else `y - 1`; quantum (`f32`) and grid (byte) coordinates alike. So
/// grid bytes 0, 1, 2 give x = -1, 0, 1 and, inverted, y = 1, 0, -1.
pub proof fn lemma_sspm_coordinate_transforms(marker: bool, invert_y: bool, bits: u32, raw: u8)
    ensures
        bits_coord(sspm_layout(marker, invert_y).quantum_x, bits) == (CoordView::Bits {
            bits,
            negate: false,
            offset: -1,
        }),
        bits_coord(sspm_layout(marker, invert_y).quantum_y, bits) == (CoordView::Bits {
            bits,
            negate: invert_y,
            offset: if invert_y { 1 } else { -1 },
        }),
        grid_coord(sspm_layout(marker, invert_y).grid_x, raw) == CoordView::Grid(raw - 1),
        grid_coord(sspm_layout(marker, invert_y).grid_y, raw) == CoordView::Grid(
            if invert_y { 1 - raw } else { raw - 1 },
        ),
        sspm_layout(marker, invert_y).marker == marker,
{
}

/// The transforms of PHXMO notes: quantum (`f32`) coordinates as read, grid bytes
/// shifted by -1; there is no marker byte.
pub proof fn lemma_phxmo_coordinate_transforms(bits: u32, raw: u8)
    ensures
        bits_coord(phxmo_layout().quantum_x, bits) == (CoordView::Bits { bits, negate: false, offset: 0 }),
        bits_coord(phxmo_layout().quantum_y, bits) == (CoordView::Bits { bits, negate: false, offset: 0 }),
        grid_coord(phxmo_layout().grid_x, raw) == CoordView::Grid(raw - 1),
        grid_coord(phxmo_layout().grid_y, raw) == CoordView::Grid(raw - 1),
        !phxmo_layout().marker,
{
}

/// The note list of a PHXMO entry: a `u32` type count (not used), a `u32` note
/// count, then the notes.
pub open spec fn spec_phxmo(d: Seq<u8>) -> Step<Seq<NoteView>> {
    match spec_read_u32(d, 0) {
        Err(e) => Err(e),
        Ok((_, p1)) => match spec_read_u32(d, p1) {
            Err(e) => Err(e),
            Ok((count, p2)) => spec_read_notes(d, p2, count as nat, phxmo_layout()),
        },
    }
}

/// A PHXMO note list holds as many notes as the count in its bytes 4 to 8, read
/// from byte 8 on.
pub proof fn lemma_phxmo_layout(d: Seq<u8>)
    requires
        spec_phxmo(d) is Ok,
    ensures
        spec_phxmo(d) == spec_read_notes(d, 8, le_u32_value(d.subrange(4, 8)) as u32 as nat, phxmo_layout()),
        spec_phxmo(d)->Ok_0.0.len() == le_u32_value(d.subrange(4, 8)),
{
    let count = le_u32_value(d.subrange(4, 8)) as u32;
    lemma_read_notes_count(d, 8, count as nat, phxmo_layout());
}

/// Decode a PHXMO note list; the notes come out in time order.
pub fn parse_phxmo_binary(data: &[u8]) -> (r: Result<Vec<NoteData>, ParseError>)
    ensures
        notes_result_as(r, spec_phxmo(data@)),
{
    let mut cursor = ByteReader::new(data);
    let _type_count = cursor.read_u32()?;
    let note_count = cursor.read_u32()?;
    let layout = NoteLayout {
        marker: false,
        quantum_x: Affine { negate: false, offset: 0 },
        quantum_y: Affine { negate: false, offset: 0 },
        grid_x: Affine { negate: false, offset: -1 },
        grid_y: Affine { negate: false, offset: -1 },
    };
    let raw = read_notes(&mut cursor, note_count as usize, layout)?;
    Ok(sort_by_time(raw))
}

/// Decode `count` SSPM version 1 style notes (a marker byte after the time when
/// `skip_marker_type`); the notes come out in time order.
pub fn parse_sspm_notes(cursor: &mut ByteReader, count: usize, skip_marker_type: bool, invert_y: bool) -> (r: Result<Vec<NoteData>, ParseError>)
    ensures
        final(cursor).data@ == old(cursor).data@,
        notes_result_as(
            r,
            spec_read_notes(old(cursor).data@, old(cursor).pos as int, count as nat, sspm_layout(skip_marker_type, invert_y)),
        ),
        final(cursor).pos == step_end(
            spec_read_notes(old(cursor).data@, old(cursor).pos as int, count as nat, sspm_layout(skip_marker_type, invert_y)),
        ),
{
    let layout = make_sspm_layout(skip_marker_type, invert_y);
    let raw = read_notes(cursor, count, layout)?;
    Ok(sort_by_time(raw))
}

/// Decode `count` SSPM version 2 notes (a marker byte after the time, `x - 1`,
/// `-y + 1`); the notes come out in time order.
pub fn parse_sspm_v2_notes(cursor: &mut ByteReader, count: usize) -> (r: Result<Vec<NoteData>, ParseError>)
    ensures
        final(cursor).data@ == old(cursor).data@,
        notes_result_as(
            r,
            spec_read_notes(old(cursor).data@, old(cursor).pos as int, count as nat, sspm_layout(true, true)),
        ),
        final(cursor).pos == step_end(
            spec_read_notes(old(cursor).data@, old(cursor).pos as int, count as nat, sspm_layout(true, true)),
        ),
{
    let layout = make_sspm_layout(true, true);
    let raw = read_notes(cursor, count, layout)?;
    Ok(sort_by_time(raw))
}


// ------------------------------------------------------------------------------
// Choosing the format
// ------------------------------------------------------------------------------

/// The map formats, by file extension.
#[derive(PartialEq, Eq, Structural, Clone, Copy)]
pub enum MapFormat {
    Phxm,
    Sspm,
    Txt,
}

/// The format that an extension, already in lower case, calls for: `phxm`,
/// `sspm` or `txt`; any other is refused, the extension named in the error.
pub open spec fn format_of_lower(ext: Seq<char>) -> Result<MapFormat, ParseErrorView> {
    if ext == "phxm"@ {
        Ok(MapFormat::Phxm)
    } else if ext == "sspm"@ {
        Ok(MapFormat::Sspm)
    } else if ext == "txt"@ {
        Ok(MapFormat::Txt)
    } else {
        Err(ParseErrorView::InvalidFormat("Extension non supportée: "@ + ext))
    }
}

/// The format a file name calls for: that of its extension in lower case.
pub open spec fn format_of(name: Seq<char>) -> Result<MapFormat, ParseErrorView> {
    format_of_lower(lowercase(extension_of(name)))
}

/// `r` is the outcome `s`.
pub open spec fn format_result_as(r: Result<MapFormat, ParseError>, s: Result<MapFormat, ParseErrorView>) -> bool {
    match s {
        Ok(f) => r == Ok::<MapFormat, ParseError>(f),
        Err(e) => r matches Err(err) && err@ == e,
    }
}

/// The format of a map file, chosen by its extension whatever its case: an ASCII
/// extension is compared with its capital letters made small.
pub fn map_format(filename: &str) -> (r: Result<MapFormat, ParseError>)
    ensures
        format_result_as(r, format_of(filename@)),
        all_ascii(extension_of(filename@)) ==> format_result_as(
            r,
            format_of_lower(extension_of(filename@).map_values(|c: char| ascii_lower(c))),
        ),
{
    let chars = str_chars(filename);
    let ext_chars = extension_chars(chars.as_slice());
    let ext_string = string_from_chars(ext_chars.as_slice());
    let ext = to_lowercase(ext_string.as_str());
    if ext == String::from_str("phxm") {
        Ok(MapFormat::Phxm)
    } else if ext == String::from_str("sspm") {
        Ok(MapFormat::Sspm)
    } else if ext == String::from_str("txt") {
        Ok(MapFormat::Txt)
    } else {
        Err(ParseError::InvalidFormat(String::from_str("Extension non supportée: ").concat(ext.as_str())))
    }
}

} // verus!
