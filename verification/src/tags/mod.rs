//! Tags and embedded covers.
//!
//! Everything works on a prefix of the file; see [`cover::prefix_len`] for how
//! much of it is wanted.

pub mod base64;
pub mod choice_laws;
pub mod cover;
pub mod cover_laws;
pub mod flac;
pub mod id3;
pub mod image;
pub mod laws;
pub mod numbers;
pub mod vorbis;

use vstd::prelude::*;
use crate::json;
use crate::text;

verus! {

pub const TIT2: [u8; 4] = [0x54, 0x49, 0x54, 0x32];

pub const TPE1: [u8; 4] = [0x54, 0x50, 0x45, 0x31];

pub const TALB: [u8; 4] = [0x54, 0x41, 0x4c, 0x42];

/// The embedded cover: of the ID3 tag, else of the Ogg comments, else of the
/// FLAC picture blocks.
pub open spec fn cover_of(bytes: Seq<u8>) -> Option<Seq<u8>> {
    let raw = if id3::first_picture(id3::frames_of(bytes)) is Some {
        id3::first_picture(id3::frames_of(bytes))
    } else if vorbis::first_picture(vorbis::ogg_comments_of(bytes)) is Some {
        vorbis::first_picture(vorbis::ogg_comments_of(bytes))
    } else {
        flac::flac_cover(bytes)
    };
    match raw {
        Some(p) => Some(image::picture_or_all(p)),
        None => None,
    }
}

pub fn extract_cover_bytes(bytes: &[u8]) -> (r: Option<Vec<u8>>)
    ensures
        image::opt_bytes(r) == cover_of(bytes@),
{
    let raw = match id3::extract_id3_apic(bytes) {
        Some(p) => Some(p),
        None => match vorbis::extract_ogg_picture(bytes) {
            Some(p) => Some(p),
            None => flac::extract_flac_picture(bytes),
        },
    };
    match raw {
        Some(p) => Some(image::picture_or_rest(p)),
        None => None,
    }
}

/// The descriptions under which custom frames carry lyrics.
pub open spec fn lyric_names() -> Seq<Seq<char>> {
    seq![
        "lyrics-eng"@,
        "lyrics-xxx"@,
        "lyrics"@,
        "lyrics3"@,
        "unsync"@,
        "unsyncedlyrics"@,
        "eng"@,
        "xxx"@,
    ]
}

pub open spec fn is_ogg(bytes: Seq<u8>) -> bool {
    bytes.len() >= 4 && vorbis::is_page(bytes, 0)
}

/// The embedded lyrics: of a lyrics frame, else of a custom frame, else of the
/// comments of an Ogg or of a FLAC file.
pub open spec fn lyrics_of(bytes: Seq<u8>) -> Seq<char> {
    let frames = id3::frames_of(bytes);
    let uslt = id3::first_uslt(frames);
    let txxx = id3::first_txxx(frames, lyric_names());
    if text::trimmed(uslt).len() > 0 {
        uslt
    } else if text::trimmed(txxx).len() > 0 {
        txxx
    } else if is_ogg(bytes) || flac::is_flac(bytes) {
        vorbis::first_value(vorbis::comments_of(bytes), "LYRICS"@)
    } else {
        Seq::empty()
    }
}

fn is_blank(s: &str) -> (r: bool)
    ensures
        r == (text::trimmed(s@).len() == 0),
{
    let t = text::trim(s);
    t.as_str().is_empty()
}

pub fn extract_embedded_lyrics(bytes: &[u8]) -> (r: String)
    ensures
        r@ == lyrics_of(bytes@),
{
    let uslt = id3::extract_uslt(bytes);
    if !is_blank(uslt.as_str()) {
        return uslt;
    }
    let names: [&str; 8] = [
        "lyrics-eng",
        "lyrics-xxx",
        "lyrics",
        "lyrics3",
        "unsync",
        "unsyncedlyrics",
        "eng",
        "xxx",
    ];
    let wanted: &[&str] = names.as_slice();
    assert(id3::str_texts(wanted@) =~= lyric_names());
    let txxx = id3::extract_txxx(bytes, wanted);
    if !is_blank(txxx.as_str()) {
        return txxx;
    }
    let ogg: bool = bytes.len() >= 4 && bytes[0] == 0x4f && bytes[1] == 0x67 && bytes[2] == 0x67
        && bytes[3] == 0x53;
    if ogg || flac::has_flac_mark(bytes) {
        return vorbis::extract_ogg_text(bytes, "LYRICS");
    }
    String::new()
}

/// A text frame, or else the comment of the same meaning.
pub open spec fn tag_text(bytes: Seq<u8>, frame: Seq<u8>, key: Seq<char>) -> Seq<char> {
    let own = id3::first_text(id3::frames_of(bytes), frame);
    if own.len() > 0 {
        own
    } else {
        vorbis::first_value(vorbis::comments_of(bytes), key)
    }
}

pub fn extract_tag(bytes: &[u8], frame: &[u8; 4], key: &str) -> (r: String)
    ensures
        r@ == tag_text(bytes@, frame@, key@),
        forall|j: int, t: Seq<char>|
            #![trigger id3::frames_of(bytes@)[j], vstd::utf8::encode_utf8(t)]
            0 <= j < id3::frames_of(bytes@).len() && id3::is_first(
                id3::frames_of(bytes@),
                frame@,
                j,
            ) && text::has_inked_ends(t) && (id3::frames_of(bytes@)[j].1 == seq![0u8]
                + vstd::utf8::encode_utf8(t) || id3::frames_of(bytes@)[j].1 == seq![3u8]
                + vstd::utf8::encode_utf8(t)) ==> r@ == t,
{
    let own = id3::extract_id3_text(bytes, frame);
    if own.as_str().is_empty() {
        vorbis::extract_ogg_text(bytes, key)
    } else {
        own
    }
}

/// What is told of a file with these tags.
pub open spec fn tags_text(
    title: Seq<char>,
    artist: Seq<char>,
    album: Seq<char>,
    cover: bool,
    lyrics: Seq<char>,
) -> Seq<char> {
    "{\"title\":\""@ + json::escaped(title, true) + "\",\"artist\":\""@ + json::escaped(artist, true)
        + "\",\"album\":\""@ + json::escaped(album, true) + "\",\"cover\":"@ + text::bool_text(cover)
        + ",\"lyrics\":\""@ + json::escaped(lyrics, true) + "\"}"@
}

/// The tags as a JSON object.
pub fn tags_object(title: &str, artist: &str, album: &str, cover: bool, lyrics: &str) -> (r: String)
    ensures
        r@ == tags_text(title@, artist@, album@, cover, lyrics@),
{
    let mut s = "{\"title\":\"".to_owned();
    s.append(json::json_escape(title).as_str());
    s.append("\",\"artist\":\"");
    s.append(json::json_escape(artist).as_str());
    s.append("\",\"album\":\"");
    s.append(json::json_escape(album).as_str());
    s.append("\",\"cover\":");
    s.append(text::yes_no(cover));
    s.append(",\"lyrics\":\"");
    s.append(json::json_escape(lyrics).as_str());
    s.append("\"}");
    s
}

/// What a file's prefix tells of it; nothing is known of an empty prefix.
pub open spec fn tags_json_text(bytes: Seq<u8>) -> Seq<char> {
    if bytes.len() == 0 {
        "{\"title\":\"\",\"artist\":\"\",\"album\":\"\",\"cover\":false}"@
    } else {
        tags_text(
            tag_text(bytes, TIT2@, "TITLE"@),
            tag_text(bytes, TPE1@, "ARTIST"@),
            tag_text(bytes, TALB@, "ALBUM"@),
            cover_of(bytes) is Some,
            lyrics_of(bytes),
        )
    }
}

pub fn tags_json(bytes: &[u8]) -> (r: String)
    ensures
        r@ == tags_json_text(bytes@),
{
    if bytes.len() == 0 {
        return "{\"title\":\"\",\"artist\":\"\",\"album\":\"\",\"cover\":false}".to_owned();
    }
    let title = extract_tag(bytes, &TIT2, "TITLE");
    let artist = extract_tag(bytes, &TPE1, "ARTIST");
    let album = extract_tag(bytes, &TALB, "ALBUM");
    let cover: bool = extract_cover_bytes(bytes).is_some();
    let lyrics = extract_embedded_lyrics(bytes);
    tags_object(title.as_str(), artist.as_str(), album.as_str(), cover, lyrics.as_str())
}

} // verus!
