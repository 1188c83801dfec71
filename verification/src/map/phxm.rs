//! The PHXM map format (`.phxm`): a zip archive holding `metadata.json`, the
//! note list `objects.phxmo`, and, when the metadata says so, `audio.<ext>` and
//! `cover.png`.
//!
//! Decoding the JSON metadata into a `PhxmMetadata` is left to the caller (it
//! goes through serde); the library opens the archive, hands out the metadata
//! text, and builds the map from the metadata and the other entries.

use vstd::prelude::*;
use vstd::utf8::{valid_utf8, decode_utf8};
use crate::map::error::{ParseError, ParseErrorView, IoError, IoErrorView};
use crate::map::parser::{spec_phxmo, parse_phxmo_binary};
use crate::map::types::{MapData, MapView, PhxmMetadata, strings_view};
use crate::map::sspm::decoded_as;
use crate::map::notes::sorted_by_time;

verus! {

#[verifier::external_type_specification]
#[verifier::external_body]
#[verifier::reject_recursive_types(R)]
pub struct ExZipArchive<R>(zip::ZipArchive<R>);

#[verifier::external_type_specification]
#[verifier::external_body]
#[verifier::reject_recursive_types(T)]
pub struct ExCursor<T>(std::io::Cursor<T>);

#[verifier::external_type_specification]
#[verifier::external_body]
pub struct ExZipError(zip::result::ZipError);

#[verifier::external_type_specification]
#[verifier::external_body]
pub struct ExIoError(std::io::Error);

/// What a zip archive made of these bytes holds: the names of the entries that
/// can be opened, and for each entry that can be read in full, its name and its
/// uncompressed content; none when the bytes are not a zip archive.
pub uninterp spec fn zip_contents(bytes: Seq<u8>) -> Option<(Set<Seq<char>>, Map<Seq<char>, Seq<u8>>)>;

/// The names of the entries of an open zip archive that `by_name` opens.
pub uninterp spec fn zip_openable(archive: zip::ZipArchive<std::io::Cursor<Vec<u8>>>) -> Set<Seq<char>>;

/// What an open zip archive holds: for each entry that can be read in full, its
/// name and its uncompressed content.
pub uninterp spec fn zip_entries(archive: zip::ZipArchive<std::io::Cursor<Vec<u8>>>) -> Map<
    Seq<char>,
    Seq<u8>,
>;

/// `zip::ZipArchive::new` over a copy of the bytes. The contract claims that the
/// archive opens when and only when the bytes are a zip archive, and that the open
/// archive holds what the bytes hold; both are named, not stated.
#[verifier::external_body]
fn zip_open(bytes: &[u8]) -> (r: Result<zip::ZipArchive<std::io::Cursor<Vec<u8>>>, zip::result::ZipError>)
    ensures
        r is Ok <==> zip_contents(bytes@) is Some,
        r matches Ok(a) ==> zip_contents(bytes@) == Some((zip_openable(a), zip_entries(a))),
{
    zip::ZipArchive::new(std::io::Cursor::new(bytes.to_vec()))
}

/// `zip::ZipArchive::by_name`, then `std::io::Read::read_to_end` on the entry.
/// The contract claims that an entry read in full is one that opens; that `None`
/// comes exactly when the lookup fails, the read error when the entry opens but
/// cannot be read in full, and the content otherwise; and that reading leaves what
/// the archive holds as it was.
#[verifier::external_body]
fn zip_read_entry(
    archive: &mut zip::ZipArchive<std::io::Cursor<Vec<u8>>>,
    name: &str,
) -> (r: Result<Vec<u8>, Option<std::io::Error>>)
    ensures
        zip_entries(*old(archive)).dom().subset_of(zip_openable(*old(archive))),
        zip_entries(*final(archive)) == zip_entries(*old(archive)),
        zip_openable(*final(archive)) == zip_openable(*old(archive)),
        match r {
            Ok(v) => zip_entries(*old(archive)).contains_key(name@) && v@ == zip_entries(
                *old(archive),
            )[name@],
            Err(None) => !zip_openable(*old(archive)).contains(name@),
            Err(Some(_)) => zip_openable(*old(archive)).contains(name@) && !zip_entries(
                *old(archive),
            ).contains_key(name@),
        },
{
    let mut entry = match archive.by_name(name) {
        Ok(entry) => entry,
        Err(_) => return Err(None),
    };
    let mut buf = Vec::new();
    match std::io::Read::read_to_end(&mut entry, &mut buf) {
        Ok(_) => Ok(buf),
        Err(e) => Err(Some(e)),
    }
}

/// The display text of a zip error (`ToString::to_string`); nothing is claimed of it.
#[verifier::external_body]
fn zip_error_text(e: &zip::result::ZipError) -> (s: String) {
    e.to_string()
}

/// The display text of an I/O error (`ToString::to_string`); nothing is claimed of it.
#[verifier::external_body]
fn io_error_text(e: &std::io::Error) -> (s: String) {
    e.to_string()
}

/// `String::from_utf8`: the text when the bytes are valid UTF-8.
#[verifier::external_body]
fn utf8_text(bytes: Vec<u8>) -> (r: Option<String>)
    ensures
        r is Some <==> valid_utf8(bytes@),
        r matches Some(s) ==> s@ == decode_utf8(bytes@),
{
    String::from_utf8(bytes).ok()
}

/// An open PHXM archive.
pub struct PhxmArchive {
    archive: zip::ZipArchive<std::io::Cursor<Vec<u8>>>,
}

impl PhxmArchive {
    /// The entries of the archive that can be read in full, by name.
    pub closed spec fn entries(&self) -> Map<Seq<char>, Seq<u8>> {
        zip_entries(self.archive)
    }

    /// The names of the entries that can be opened.
    pub closed spec fn names(&self) -> Set<Seq<char>> {
        zip_openable(self.archive)
    }
}

/// Open the zip archive of a `.phxm` map.
pub fn open_phxm(bytes: &[u8]) -> (r: Result<PhxmArchive, ParseError>)
    ensures
        r is Ok <==> zip_contents(bytes@) is Some,
        r matches Ok(a) ==> zip_contents(bytes@) == Some((a.names(), a.entries())),
        r matches Err(e) ==> e is Zip,
{
    match zip_open(bytes) {
        Ok(archive) => Ok(PhxmArchive { archive }),
        Err(e) => Err(ParseError::Zip(zip_error_text(&e))),
    }
}

/// The error of an entry that could not be read: an entry that does not open is
/// reported missing; one that opens and cannot be read in full gives a read error.
pub open spec fn entry_error(e: ParseErrorView, name: Seq<char>, names: Set<Seq<char>>) -> bool {
    if names.contains(name) {
        e is Io
    } else {
        e == ParseErrorView::MissingEntry(name)
    }
}

/// Read an entry in full.
fn read_entry(archive: &mut PhxmArchive, name: &str) -> (r: Result<Vec<u8>, ParseError>)
    ensures
        final(archive).entries() == old(archive).entries(),
        final(archive).names() == old(archive).names(),
        match r {
            Ok(v) => old(archive).entries().contains_key(name@) && v@ == old(archive).entries()[name@],
            Err(e) => !old(archive).entries().contains_key(name@) && entry_error(e@, name@, old(archive).names()),
        },
{
    match zip_read_entry(&mut archive.archive, name) {
        Ok(v) => Ok(v),
        Err(None) => Err(ParseError::MissingEntry(String::from_str(name))),
        Err(Some(e)) => Err(ParseError::Io(IoError::Other(io_error_text(&e)))),
    }
}

/// Read `metadata.json` as text: an error when the entry cannot be read or is not
/// valid UTF-8.
pub fn read_phxm_metadata(archive: &mut PhxmArchive) -> (r: Result<String, ParseError>)
    ensures
        final(archive).entries() == old(archive).entries(),
        final(archive).names() == old(archive).names(),
        ({
            let m = old(archive).entries();
            let key = "metadata.json"@;
            if !m.contains_key(key) {
                r matches Err(e) && entry_error(e@, key, old(archive).names())
            } else if !valid_utf8(m[key]) {
                r matches Err(e) && e@ == ParseErrorView::Io(IoErrorView::InvalidData)
            } else {
                r matches Ok(s) && s@ == decode_utf8(m[key])
            }
        }),
{
    let bytes = read_entry(archive, "metadata.json")?;
    match utf8_text(bytes) {
        Some(s) => Ok(s),
        None => Err(ParseError::Io(IoError::InvalidData)),
    }
}

/// The name of the audio entry: `audio.<ext>`.
pub open spec fn audio_entry_name(ext: Seq<char>) -> Seq<char> {
    "audio."@ + ext
}

/// The map that a PHXM archive with these entries and this metadata gives:
/// the notes of `objects.phxmo`; the audio entry when the metadata has audio; the
/// cover entry when it has a cover; names, difficulty, length and audio extension
/// from the metadata. An entry that is needed and cannot be read is an error.
pub open spec fn phxm_result_as(
    r: Result<MapData, ParseError>,
    m: Map<Seq<char>, Seq<u8>>,
    names: Set<Seq<char>>,
    meta: PhxmMetadata,
) -> bool {
    let objects = "objects.phxmo"@;
    let audio_name = audio_entry_name(meta.audio_ext@);
    let cover_name = "cover.png"@;
    if !m.contains_key(objects) {
        r matches Err(e) && entry_error(e@, objects, names)
    } else {
        match spec_phxmo(m[objects]) {
            Err((e, _)) => r matches Err(err) && err@ == e,
            Ok((notes, _)) => if meta.has_audio && !m.contains_key(audio_name) {
                r matches Err(e) && entry_error(e@, audio_name, names)
            } else if meta.has_cover && !m.contains_key(cover_name) {
                r matches Err(e) && entry_error(e@, cover_name, names)
            } else {
                r matches Ok(map) && decoded_as(
                    map@,
                    MapView {
                        id: meta.id@,
                        title: meta.title@,
                        artist: meta.artist@,
                        mappers: strings_view(meta.mappers@),
                        difficulty: meta.difficulty,
                        difficulty_name: meta.difficulty_name@,
                        length_ms: meta.length,
                        audio: if meta.has_audio {
                            m[audio_name]
                        } else {
                            Seq::empty()
                        },
                        cover: if meta.has_cover {
                            m[cover_name]
                        } else {
                            Seq::empty()
                        },
                        audio_ext: meta.audio_ext@,
                        notes,
                    },
                )
            },
        }
    }
}

/// Build the map of a PHXM archive from its decoded metadata.
pub fn parse_phxm_with_metadata(archive: &mut PhxmArchive, meta: PhxmMetadata) -> (r: Result<
    MapData,
    ParseError,
>)
    ensures
        final(archive).entries() == old(archive).entries(),
        final(archive).names() == old(archive).names(),
        phxm_result_as(r, old(archive).entries(), old(archive).names(), meta),
{
    let objects = read_entry(archive, "objects.phxmo")?;
    let notes = parse_phxmo_binary(objects.as_slice())?;
    let audio = if meta.has_audio {
        let mut name = String::from_str("audio.");
        name.append(meta.audio_ext.as_str());
        read_entry(archive, name.as_str())?
    } else {
        Vec::new()
    };
    let cover = if meta.has_cover {
        read_entry(archive, "cover.png")?
    } else {
        Vec::new()
    };
    Ok(
        MapData {
            id: meta.id,
            title: meta.title,
            artist: meta.artist,
            mappers: meta.mappers,
            difficulty: meta.difficulty,
            difficulty_name: meta.difficulty_name,
            length_ms: meta.length,
            audio,
            cover,
            audio_ext: meta.audio_ext,
            notes,
        },
    )
}

/// What a built PHXM map holds: its names, difficulty, length and audio extension
/// are the metadata's, unchanged; its audio is the `audio.<ext>` entry when the
/// metadata has audio (else none), its cover the `cover.png` entry when it has a
/// cover (else none); its notes are those of `objects.phxmo`, in time order.
pub proof fn lemma_phxm_map_from_metadata(
    r: Result<MapData, ParseError>,
    m: Map<Seq<char>, Seq<u8>>,
    names: Set<Seq<char>>,
    meta: PhxmMetadata,
)
    requires
        phxm_result_as(r, m, names, meta),
        r is Ok,
    ensures
        ({
            let map = r->Ok_0@;
            &&& map.id == meta.id@
            &&& map.title == meta.title@
            &&& map.artist == meta.artist@
            &&& map.mappers == strings_view(meta.mappers@)
            &&& map.difficulty == meta.difficulty
            &&& map.difficulty_name == meta.difficulty_name@
            &&& map.length_ms == meta.length
            &&& map.audio_ext == meta.audio_ext@
            &&& map.audio == if meta.has_audio {
                m["audio."@ + meta.audio_ext@]
            } else {
                Seq::<u8>::empty()
            }
            &&& map.cover == if meta.has_cover {
                m["cover.png"@]
            } else {
                Seq::<u8>::empty()
            }
            &&& m.contains_key("objects.phxmo"@)
            &&& spec_phxmo(m["objects.phxmo"@]) is Ok
            &&& sorted_by_time(spec_phxmo(m["objects.phxmo"@])->Ok_0.0, map.notes)
        }),
{
}

/// A needed entry that does not open is reported missing, by name: first
/// `objects.phxmo`; then, with the notes read, `audio.<ext>` when the metadata
/// has audio; then `cover.png` when it has a cover.
pub proof fn lemma_phxm_missing_entries(
    r: Result<MapData, ParseError>,
    m: Map<Seq<char>, Seq<u8>>,
    names: Set<Seq<char>>,
    meta: PhxmMetadata,
)
    requires
        phxm_result_as(r, m, names, meta),
        m.dom().subset_of(names),
    ensures
        !names.contains("objects.phxmo"@) ==> (r matches Err(e) && e@
            == ParseErrorView::MissingEntry("objects.phxmo"@)),
        names.contains("objects.phxmo"@) && !m.contains_key("objects.phxmo"@) ==> (r matches Err(e)
            && e@ is Io),
        m.contains_key("objects.phxmo"@) && spec_phxmo(m["objects.phxmo"@]) is Ok && meta.has_audio
            && !names.contains("audio."@ + meta.audio_ext@) ==> (r matches Err(e) && e@
            == ParseErrorView::MissingEntry("audio."@ + meta.audio_ext@)),
        m.contains_key("objects.phxmo"@) && spec_phxmo(m["objects.phxmo"@]) is Ok && !(meta.has_audio
            && !m.contains_key("audio."@ + meta.audio_ext@)) && meta.has_cover && !names.contains(
            "cover.png"@,
        ) ==> (r matches Err(e) && e@ == ParseErrorView::MissingEntry("cover.png"@)),
{
}

} // verus!
