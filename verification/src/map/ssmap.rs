//! The legacy text map format (`.txt`): one line `header,x|y|ms,x|y|ms,...`.

use vstd::prelude::*;
use crate::map::error::ParseError;
use crate::map::text::{
    utf8_lossy, decode_lossy, str_chars, string_from_chars, first_line, first_line_chars,
    split_fields, split_chars, chars_views, trim, trim_chars, lemma_split_fields_nonempty,
    lemma_split_fields_no_sep, lemma_split_fields_at_sep,
};
use crate::map::types::{Coord, CoordView, MapData, MapView, NoteData, NoteView, notes_view};
use crate::map::notes::{sorted_by_time, sort_by_time, lemma_sorted_notes_in_time_order};

verus! {

/// The value of a sequence of decimal digits.
pub open spec fn digits_value(s: Seq<char>) -> int
    decreases s.len(),
{
    if s.len() == 0 {
        0
    } else {
        digits_value(s.drop_last()) * 10 + (s.last() as int - '0' as int)
    }
}

pub open spec fn all_digits(s: Seq<char>) -> bool {
    forall|i: int| 0 <= i < s.len() ==> '0' <= #[trigger] s[i] <= '9'
}

/// `str::parse::<u32>`: an optional `'+'`, then at least one ASCII digit, with a
/// value that fits in a `u32`.
pub open spec fn parse_u32(s: Seq<char>) -> Option<u32> {
    let t = if s.len() > 0 && s[0] == '+' {
        s.drop_first()
    } else {
        s
    };
    if t.len() > 0 && all_digits(t) && digits_value(t) <= u32::MAX {
        Some(digits_value(t) as u32)
    } else {
        None
    }
}

proof fn lemma_digits_value_grows(s: Seq<char>, i: int)
    requires
        0 <= i <= s.len(),
        all_digits(s),
    ensures
        0 <= digits_value(s.take(i)) <= digits_value(s),
    decreases s.len() - i,
{
    if i < s.len() {
        lemma_digits_value_grows(s, i + 1);
        assert(s.take(i + 1).drop_last() =~= s.take(i));
    } else {
        assert(s.take(i) =~= s);
        lemma_digits_value_nonneg(s);
    }
}

proof fn lemma_digits_value_nonneg(s: Seq<char>)
    requires
        all_digits(s),
    ensures
        digits_value(s) >= 0,
    decreases s.len(),
{
    if s.len() > 0 {
        assert(all_digits(s.drop_last()));
        lemma_digits_value_nonneg(s.drop_last());
    }
}

/// `str::parse::<u32>` on characters.
pub fn parse_u32_chars(s: &[char]) -> (r: Option<u32>)
    ensures
        r == parse_u32(s@),
{
    let len = s.len();
    let start: usize = if len > 0 && s[0] == '+' {
        1
    } else {
        0
    };
    let ghost t = if s@.len() > 0 && s@[0] == '+' {
        s@.drop_first()
    } else {
        s@
    };
    assert(t =~= s@.subrange(start as int, len as int));
    if start == len {
        return None;
    }
    let mut v: u32 = 0;
    let mut i: usize = start;
    while i < len
        invariant
            start <= i <= len,
            len == s@.len(),
            t =~= s@.subrange(start as int, len as int),
            t == (if s@.len() > 0 && s@[0] == '+' {
                s@.drop_first()
            } else {
                s@
            }),
            t.len() > 0,
            all_digits(t.take(i - start)),
            v as int == digits_value(t.take(i - start)),
        decreases len - i,
    {
        let c = s[i];
        let ghost k = i - start;
        assert(t[k as int] == c);
        if !('0' <= c && c <= '9') {
            assert(!('0' <= t[k as int] <= '9'));
            assert(!all_digits(t));
            return None;
        }
        let dgt = (c as u32) - ('0' as u32);
        assert(t.take(k + 1).drop_last() =~= t.take(k as int));
        assert(all_digits(t.take(k + 1)));
        assert(t.take(k + 1).last() == c);
        assert(digits_value(t.take(k + 1)) == v * 10 + dgt);
        if v > (u32::MAX - dgt) / 10 {
            proof {
                assert(v * 10 + dgt > u32::MAX) by (nonlinear_arith)
                    requires
                        v > (u32::MAX - dgt) / 10,
                        dgt <= 9,
                ;
                if all_digits(t) {
                    lemma_digits_value_grows(t, k + 1);
                }
            }
            return None;
        }
        v = v * 10 + dgt;
        i = i + 1;
    }
    assert(t.take(len - start) =~= t);
    Some(v)
}

/// The time of a note field: its `u32` value, 0 when it does not parse.
pub open spec fn ms_of(field: Seq<char>) -> u32 {
    match parse_u32(trim(field)) {
        Some(v) => v,
        None => 0,
    }
}

/// The note of a `x|y|ms` field: none when it has fewer than three `'|'`-separated
/// parts; else at time `ms` and position `(-x + 1, y - 1)`, `x` and `y` kept as
/// their trimmed text.
pub open spec fn txt_note(part: Seq<char>, i: int) -> Option<NoteView> {
    let sub = split_fields(part, seq!['|']);
    if sub.len() < 3 {
        None
    } else {
        Some(
            NoteView {
                index: i,
                millisecond: ms_of(sub[2]),
                x: CoordView::Text { text: trim(sub[0]), negate: true, offset: 1 },
                y: CoordView::Text { text: trim(sub[1]), negate: false, offset: -1 },
            },
        )
    }
}

/// The notes of the comma-separated fields, the first field (a header) left out.
pub open spec fn txt_notes(parts: Seq<Seq<char>>) -> Seq<NoteView>
    decreases parts.len(),
{
    if parts.len() <= 1 {
        Seq::empty()
    } else {
        let prev = txt_notes(parts.drop_last());
        match txt_note(parts.last(), parts.len() - 2) {
            Some(n) => prev.push(n),
            None => prev,
        }
    }
}

/// The notes of a text map, as read: from the first line of the text.
pub open spec fn spec_ssmap_notes(bytes: Seq<u8>) -> Seq<NoteView> {
    txt_notes(split_fields(first_line(utf8_lossy(bytes)), seq![',']))
}

/// What a text map decodes to: fixed names ("txt_map", "Unknown", mapper "N/A",
/// difficulty 0 named "N/A", audio extension "mp3"), no audio or cover, the notes
/// in time order, and the time of the last note as length (0 with no notes).
pub open spec fn ssmap_decoded(m: MapView, bytes: Seq<u8>) -> bool {
    &&& m.id == "txt_map"@
    &&& m.title == "Unknown"@
    &&& m.artist == Seq::<char>::empty()
    &&& m.mappers == seq!["N/A"@]
    &&& m.difficulty == 0
    &&& m.difficulty_name == "N/A"@
    &&& m.audio == Seq::<u8>::empty()
    &&& m.cover == Seq::<u8>::empty()
    &&& m.audio_ext == "mp3"@
    &&& sorted_by_time(spec_ssmap_notes(bytes), m.notes)
    &&& m.length_ms == if m.notes.len() == 0 {
        0
    } else {
        m.notes.last().millisecond
    }
}

fn txt_note_exec(part: &Vec<char>, i: usize) -> (r: Option<NoteData>)
    ensures
        match txt_note(part@, i as int) {
            Some(n) => r matches Some(x) && x@ == n,
            None => r is None,
        },
{
    let bar = vec!['|'];
    let sub = split_chars(part.as_slice(), bar.as_slice());
    assert(bar@ =~= seq!['|']);
    if sub.len() < 3 {
        return None;
    }
    assert(chars_views(sub@)[0] == sub@[0]@);
    assert(chars_views(sub@)[1] == sub@[1]@);
    assert(chars_views(sub@)[2] == sub@[2]@);
    let xt = trim_chars(sub[0].as_slice());
    let yt = trim_chars(sub[1].as_slice());
    let mt = trim_chars(sub[2].as_slice());
    let ms = match parse_u32_chars(mt.as_slice()) {
        Some(v) => v,
        None => 0,
    };
    Some(
        NoteData {
            index: i,
            millisecond: ms,
            x: Coord::Text { text: string_from_chars(xt.as_slice()), negate: true, offset: 1 },
            y: Coord::Text { text: string_from_chars(yt.as_slice()), negate: false, offset: -1 },
        },
    )
}

/// Decode a `.txt` map.
pub fn parse_ssmap_v1_bytes(bytes: &[u8]) -> (r: Result<MapData, ParseError>)
    ensures
        r matches Ok(m) && ssmap_decoded(m@, bytes@),
{
    let content = decode_lossy(bytes);
    let chars = str_chars(content.as_str());
    let line = first_line_chars(chars.as_slice());
    let comma = vec![','];
    let parts = split_chars(line.as_slice(), comma.as_slice());
    assert(comma@ =~= seq![',']);
    let ghost pv = chars_views(parts@);
    let mut raw: Vec<NoteData> = Vec::new();
    let mut i: usize = 1;
    assert(notes_view(raw@) =~= Seq::<NoteView>::empty());
    proof {
        lemma_split_fields_nonempty(line@, seq![',']);
    }
    assert(pv.take(1).len() == 1);
    while i < parts.len()
        invariant
            1 <= i <= parts@.len(),
            pv == chars_views(parts@),
            notes_view(raw@) == txt_notes(pv.take(i as int)),
        decreases parts@.len() - i,
    {
        assert(pv.take(i + 1).drop_last() =~= pv.take(i as int));
        assert(pv.take(i + 1).last() == parts@[i as int]@);
        let ghost prev = notes_view(raw@);
        match txt_note_exec(&parts[i], i - 1) {
            Some(n) => {
                raw.push(n);
                assert(notes_view(raw@) =~= prev.push(n@));
            },
            None => {},
        }
        i = i + 1;
    }
    assert(pv.take(parts@.len() as int) =~= pv);
    let notes = sort_by_time(raw);
    let n = notes.len();
    let length_ms = if n == 0 {
        0
    } else {
        notes[n - 1].millisecond
    };
    let mut mappers: Vec<String> = Vec::new();
    mappers.push(String::from_str("N/A"));
    let m = MapData {
        id: String::from_str("txt_map"),
        title: String::from_str("Unknown"),
        artist: String::new(),
        mappers,
        difficulty: 0,
        difficulty_name: String::from_str("N/A"),
        length_ms,
        audio: Vec::new(),
        cover: Vec::new(),
        audio_ext: String::from_str("mp3"),
        notes,
    };
    assert(m@.mappers =~= seq!["N/A"@]);
    Ok(m)
}

/// The length of a text map covers its notes: no note comes after it, and when
/// there are notes, the last one is at that time.
pub proof fn lemma_txt_length_covers_notes(m: MapView, bytes: Seq<u8>)
    requires
        ssmap_decoded(m, bytes),
    ensures
        forall|k: int| 0 <= k < m.notes.len() ==> #[trigger] m.notes[k].millisecond <= m.length_ms,
        m.notes.len() > 0 ==> m.length_ms == m.notes[m.notes.len() - 1].millisecond,
{
    lemma_sorted_notes_in_time_order(spec_ssmap_notes(bytes), m.notes);
    assert forall|k: int| 0 <= k < m.notes.len() implies #[trigger] m.notes[k].millisecond
        <= m.length_ms by {
        let last = m.notes.len() - 1;
        if k < last {
            assert(m.notes[k].millisecond <= m.notes[last].millisecond);
        }
    }
}

/// The note of a field `a|b|c` (no `'|'` inside `a`, `b` or `c`): its x is the
/// text `a` trimmed, negated and shifted by +1; its y the text `b` trimmed and
/// shifted by -1; its time the `u32` that `c` trimmed gives (0 when it does not
/// parse). A field with fewer than two `'|'` gives no note.
pub proof fn lemma_txt_note_fields(a: Seq<char>, b: Seq<char>, c: Seq<char>, i: int)
    requires
        forall|k: int| 0 <= k < a.len() ==> #[trigger] a[k] != '|',
        forall|k: int| 0 <= k < b.len() ==> #[trigger] b[k] != '|',
        forall|k: int| 0 <= k < c.len() ==> #[trigger] c[k] != '|',
    ensures
        txt_note(a + seq!['|'] + b + seq!['|'] + c, i) == Some(
            NoteView {
                index: i,
                millisecond: match parse_u32(trim(c)) {
                    Some(v) => v,
                    None => 0,
                },
                x: CoordView::Text { text: trim(a), negate: true, offset: 1 },
                y: CoordView::Text { text: trim(b), negate: false, offset: -1 },
            },
        ),
        txt_note(a, i) is None,
        txt_note(a + seq!['|'] + b, i) is None,
{
    let bar = seq!['|'];
    assert(bar[0] == '|');
    assert(bar.contains('|'));
    assert forall|k: int| 0 <= k < a.len() implies !bar.contains(#[trigger] a[k]) by {
        if bar.contains(a[k]) {
            assert(bar[0] == a[k]);
        }
    }
    assert forall|k: int| 0 <= k < b.len() implies !bar.contains(#[trigger] b[k]) by {
        if bar.contains(b[k]) {
            assert(bar[0] == b[k]);
        }
    }
    assert forall|k: int| 0 <= k < c.len() implies !bar.contains(#[trigger] c[k]) by {
        if bar.contains(c[k]) {
            assert(bar[0] == c[k]);
        }
    }
    lemma_split_fields_no_sep(a, bar);
    lemma_split_fields_no_sep(b, bar);
    lemma_split_fields_no_sep(c, bar);
    lemma_split_fields_at_sep(a, '|', b, bar);
    let ab = a + seq!['|'] + b;
    lemma_split_fields_at_sep(ab, '|', c, bar);
    let f = split_fields(ab + seq!['|'] + c, bar);
    assert(f =~= seq![a, b, c]);
    assert(f[0] == a && f[1] == b && f[2] == c);
}

} // verus!
