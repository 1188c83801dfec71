//! The decoded map and its notes.

use vstd::prelude::*;

verus! {

/// One coordinate of a note on the grid, where -1 is left (or bottom), 0 the
/// centre and 1 right (or top). The formats give coordinates either as small
/// integers or as `f32` values; the latter are kept exact here, as the `f32`
/// bits or decimal text they were read from and the sign and shift applied to
/// them, so that the value can be computed where floating point is at hand.
#[derive(Clone, Debug)]
pub enum Coord {
    /// An exact integer coordinate.
    Grid(i32),
    /// `v + offset`, where `v` is the `f32` with these bits, negated when `negate`.
    Bits { bits: u32, negate: bool, offset: i32 },
    /// `v + offset`, where `v` is the decimal text parsed as an `f32` (0.0 when it
    /// does not parse), negated when `negate`.
    Text { text: String, negate: bool, offset: i32 },
}

pub enum CoordView {
    Grid(int),
    Bits { bits: u32, negate: bool, offset: int },
    Text { text: Seq<char>, negate: bool, offset: int },
}

impl View for Coord {
    type V = CoordView;

    open spec fn view(&self) -> CoordView {
        match self {
            Coord::Grid(v) => CoordView::Grid(*v as int),
            Coord::Bits { bits, negate, offset } => CoordView::Bits {
                bits: *bits,
                negate: *negate,
                offset: *offset as int,
            },
            Coord::Text { text, negate, offset } => CoordView::Text {
                text: text@,
                negate: *negate,
                offset: *offset as int,
            },
        }
    }
}

/// A note of the map.
#[derive(Clone, Debug)]
pub struct NoteData {
    /// Position of the note in the map, in time order.
    pub index: usize,
    /// Time of the note, in milliseconds from the start of the song.
    pub millisecond: u32,
    pub x: Coord,
    pub y: Coord,
}

pub struct NoteView {
    pub index: int,
    pub millisecond: u32,
    pub x: CoordView,
    pub y: CoordView,
}

impl View for NoteData {
    type V = NoteView;

    open spec fn view(&self) -> NoteView {
        NoteView { index: self.index as int, millisecond: self.millisecond, x: self.x@, y: self.y@ }
    }
}

/// The models of a sequence of notes.
pub open spec fn notes_view(v: Seq<NoteData>) -> Seq<NoteView> {
    v.map_values(|n: NoteData| n@)
}

/// The models of a sequence of strings.
pub open spec fn strings_view(v: Seq<String>) -> Seq<Seq<char>> {
    v.map_values(|s: String| s@)
}

/// A decoded map.
#[derive(Clone, Debug)]
pub struct MapData {
    pub id: String,
    pub title: String,
    pub artist: String,
    pub mappers: Vec<String>,
    /// Difficulty level (0 = N/A, 1 = Easy, ..., 5 = Illogical).
    pub difficulty: u8,
    pub difficulty_name: String,
    pub length_ms: u32,
    /// Raw audio file (MP3 or OGG).
    pub audio: Vec<u8>,
    /// Raw cover image (PNG), empty when there is none.
    pub cover: Vec<u8>,
    /// Audio file extension ("mp3" or "ogg").
    pub audio_ext: String,
    /// The notes, in time order.
    pub notes: Vec<NoteData>,
}

pub struct MapView {
    pub id: Seq<char>,
    pub title: Seq<char>,
    pub artist: Seq<char>,
    pub mappers: Seq<Seq<char>>,
    pub difficulty: u8,
    pub difficulty_name: Seq<char>,
    pub length_ms: u32,
    pub audio: Seq<u8>,
    pub cover: Seq<u8>,
    pub audio_ext: Seq<char>,
    pub notes: Seq<NoteView>,
}

impl View for MapData {
    type V = MapView;

    open spec fn view(&self) -> MapView {
        MapView {
            id: self.id@,
            title: self.title@,
            artist: self.artist@,
            mappers: strings_view(self.mappers@),
            difficulty: self.difficulty,
            difficulty_name: self.difficulty_name@,
            length_ms: self.length_ms,
            audio: self.audio@,
            cover: self.cover@,
            audio_ext: self.audio_ext@,
            notes: notes_view(self.notes@),
        }
    }
}

/// Whether audio bytes start with the OGG signature `"OggS"`.
pub open spec fn is_ogg(bytes: Seq<u8>) -> bool {
    bytes.len() >= 4 && bytes[0] == 0x4f && bytes[1] == 0x67 && bytes[2] == 0x67 && bytes[3] == 0x53
}

/// The audio extension that the bytes call for.
pub open spec fn audio_ext_of(bytes: Seq<u8>) -> Seq<char> {
    if is_ogg(bytes) {
        seq!['o', 'g', 'g']
    } else {
        seq!['m', 'p', '3']
    }
}

/// `parts` joined with `sep` between each two.
pub open spec fn join(parts: Seq<Seq<char>>, sep: Seq<char>) -> Seq<char>
    decreases parts.len(),
{
    if parts.len() == 0 {
        Seq::empty()
    } else if parts.len() == 1 {
        parts[0]
    } else {
        join(parts.drop_last(), sep) + sep + parts.last()
    }
}

/// The title line of a map: `"Artist - Title"`, or the title alone without an artist.
pub open spec fn pretty_title_of(artist: Seq<char>, title: Seq<char>) -> Seq<char> {
    if artist.len() == 0 {
        title
    } else {
        artist + seq![' ', '-', ' '] + title
    }
}

impl MapData {
    /// "Artist - Title", or the title alone when there is no artist.
    pub fn pretty_title(&self) -> (r: String)
        ensures
            r@ == pretty_title_of(self.artist@, self.title@),
    {
        if self.artist.as_str().is_empty() {
            self.title.clone()
        } else {
            let mut s = self.artist.clone();
            s.append(" - ");
            s.append(self.title.as_str());
            proof {
                reveal_strlit(" - ");
            }
            s
        }
    }

    /// The mappers, separated by ", ".
    pub fn pretty_mappers(&self) -> (r: String)
        ensures
            r@ == join(strings_view(self.mappers@), seq![',', ' ']),
    {
        let mut s = String::new();
        let n = self.mappers.len();
        let mut i: usize = 0;
        proof {
            reveal_strlit(", ");
        }
        while i < n
            invariant
                n == self.mappers@.len(),
                i <= n,
                s@ == join(strings_view(self.mappers@).take(i as int), seq![',', ' ']),
            decreases n - i,
        {
            let ghost parts = strings_view(self.mappers@);
            assert(parts.take(i + 1).drop_last() =~= parts.take(i as int));
            let ghost before = s@;
            if i > 0 {
                s.append(", ");
            }
            s.append(self.mappers[i].as_str());
            proof {
                reveal_strlit(", ");
                assert(", "@ =~= seq![',', ' ']);
                let t = parts.take(i + 1);
                assert(t.last() == self.mappers@[i as int]@);
                if i == 0 {
                    assert(t[0] == self.mappers@[0]@);
                    assert(s@ =~= join(t, seq![',', ' ']));
                } else {
                    assert(join(t, seq![',', ' ']) == join(t.drop_last(), seq![',', ' ']) + seq![
                        ',',
                        ' ',
                    ] + t.last());
                    assert(s@ =~= join(t, seq![',', ' ']));
                }
            }
            i = i + 1;
        }
        assert(strings_view(self.mappers@).take(n as int) =~= strings_view(self.mappers@));
        s
    }

    /// "ogg" when the audio starts with the OGG signature `"OggS"`, else "mp3".
    pub fn detect_audio_ext(bytes: &[u8]) -> (r: &'static str)
        ensures
            r@ == audio_ext_of(bytes@),
    {
        proof {
            reveal_strlit("ogg");
            reveal_strlit("mp3");
        }
        if bytes.len() >= 4 && bytes[0] == 0x4f && bytes[1] == 0x67 && bytes[2] == 0x67 && bytes[3]
            == 0x53 {
            "ogg"
        } else {
            "mp3"
        }
    }
}

/// The metadata entry of a PHXM archive.
#[derive(Clone, Debug)]
pub struct PhxmMetadata {
    pub id: String,
    pub title: String,
    pub artist: String,
    pub mappers: Vec<String>,
    pub difficulty: u8,
    pub difficulty_name: String,
    pub length: u32,
    pub has_audio: bool,
    pub has_cover: bool,
    pub has_video: bool,
    pub audio_ext: String,
}

} // verus!
