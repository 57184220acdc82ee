//! What the first bytes of a stream say of its format.

use vstd::prelude::*;
use crate::provider;
use crate::provider::AudioFormat;
use crate::text;

verus! {

/// The bytes of a word of ASCII.
pub open spec fn ascii(word: Seq<char>) -> Seq<u8> {
    word.map_values(|c: char| c as u8)
}

/// Every format is known by a name of its own.
pub proof fn law_formats_have_names()
    ensures
        provider::format_name(AudioFormat::Mp3) == "mp3"@,
        provider::format_name(AudioFormat::OggVorbis) == "ogg"@,
        provider::format_name(AudioFormat::Opus) == "opus"@,
        provider::format_name(AudioFormat::Wav) == "wav"@,
        provider::format_name(AudioFormat::Flac) == "flac"@,
        provider::format_name(AudioFormat::M4a) == "m4a"@,
        provider::format_name(AudioFormat::Unknown) == "unknown"@,
{
}

proof fn lemma_begins(word: Seq<u8>, rest: Seq<u8>)
    ensures
        provider::reads(word + rest, 0, word),
{
    assert((word + rest).subrange(0, word.len() as int) =~= word);
}

proof fn lemma_not_at(head: Seq<u8>, at: int, word: Seq<u8>, k: int)
    requires
        0 <= k < word.len(),
        0 <= at,
        at + word.len() <= head.len() ==> head[at + k] != word[k],
    ensures
        !provider::reads(head, at, word),
{
    if provider::reads(head, at, word) {
        assert(head.subrange(at, at + word.len())[k] == head[at + k]);
    }
}

/// A FLAC file begins with its mark.
pub proof fn law_flac_is_sniffed(rest: Seq<u8>)
    ensures
        provider::sniffed(ascii("fLaC"@) + rest) == AudioFormat::Flac,
{
    reveal_strlit("fLaC");
    assert(ascii("fLaC"@) =~= provider::word_flac());
    lemma_begins(ascii("fLaC"@), rest);
}

/// An MPEG stream begins with a tag, or with eleven bits of its first frame.
pub proof fn law_mp3_is_sniffed(rest: Seq<u8>, b: u8)
    ensures
        b >= 0xe0 ==> provider::sniffed(seq![0xffu8, b] + rest) == AudioFormat::Mp3 || text::occurs_at(
            seq![0xffu8, b] + rest,
            ascii("ftyp"@),
            4,
        ),
        provider::sniffed(ascii("ID3"@) + rest) == AudioFormat::Mp3 || text::occurs_at(
            ascii("ID3"@) + rest,
            ascii("ftyp"@),
            4,
        ),
        b < 0xe0 ==> provider::sniffed(seq![0xffu8, b] + rest) != AudioFormat::Mp3,
{
    reveal_strlit("ID3");
    reveal_strlit("ftyp");
    assert(ascii("ID3"@) =~= provider::word_id3());
    assert(ascii("ftyp"@) =~= provider::word_ftyp());
    lemma_begins(ascii("ID3"@), rest);
    let s = seq![0xffu8, b] + rest;
    let t = ascii("ID3"@) + rest;
    assert(s[0] == 0xff && s[1] == b);
    assert(t[0] == 0x49);
    lemma_not_at(s, 0, provider::word_flac(), 0);
    lemma_not_at(s, 0, provider::word_oggs(), 0);
    lemma_not_at(s, 0, provider::word_riff(), 0);
    lemma_not_at(s, 0, provider::word_id3(), 0);
    lemma_not_at(t, 0, provider::word_flac(), 0);
    lemma_not_at(t, 0, provider::word_oggs(), 0);
    lemma_not_at(t, 0, provider::word_riff(), 0);
}

/// An M4A file names its type behind the length of the first box.
pub proof fn law_m4a_is_sniffed(length: Seq<u8>, brand: Seq<u8>, rest: Seq<u8>)
    requires
        length.len() == 4,
        length[0] != 'f' as u8,
        length[0] != 'O' as u8,
        brand.len() == 4,
    ensures
        provider::sniffed(length + ascii("ftyp"@) + brand + rest) == AudioFormat::M4a,
{
    reveal_strlit("ftyp");
    assert(ascii("ftyp"@) =~= provider::word_ftyp());
    let s = length + ascii("ftyp"@) + brand + rest;
    assert(s.subrange(4, 8) =~= provider::word_ftyp());
    assert(s[0] == length[0]);
    lemma_not_at(s, 0, provider::word_flac(), 0);
    lemma_not_at(s, 0, provider::word_oggs(), 0);
}

/// A WAV file is a RIFF file whose kind is WAVE; another RIFF file is none.
pub proof fn law_wav_is_sniffed(length: Seq<u8>, kind: Seq<u8>, rest: Seq<u8>)
    requires
        length.len() == 4,
        length != ascii("ftyp"@),
        kind.len() == 4,
    ensures
        (provider::sniffed(ascii("RIFF"@) + length + kind + rest) == AudioFormat::Wav) <==> kind
            == ascii("WAVE"@),
{
    reveal_strlit("RIFF");
    reveal_strlit("WAVE");
    reveal_strlit("ftyp");
    assert(ascii("RIFF"@) =~= provider::word_riff());
    assert(ascii("WAVE"@) =~= provider::word_wave());
    assert(ascii("ftyp"@) =~= provider::word_ftyp());
    let s = ascii("RIFF"@) + length + kind + rest;
    assert(s.subrange(0, 4) =~= provider::word_riff());
    assert(s.subrange(4, 8) =~= length);
    assert(s.subrange(8, 12) =~= kind);
    assert(s[0] == 0x52);
    lemma_not_at(s, 0, provider::word_flac(), 0);
    lemma_not_at(s, 0, provider::word_oggs(), 0);
}

/// An Ogg file whose first 64 bytes name Opus is one of Opus; any other is one of
/// Vorbis.
pub proof fn law_ogg_is_sniffed(header: Seq<u8>, rest: Seq<u8>)
    ensures
        4 + header.len() + 8 <= 64 ==> provider::sniffed(
            ascii("OggS"@) + header + ascii("OpusHead"@) + rest,
        ) == AudioFormat::Opus,
        !text::occurs(ascii("OggS"@) + header, ascii("OpusHead"@)) && header.len() >= 60
            ==> provider::sniffed(ascii("OggS"@) + header) == AudioFormat::OggVorbis,
{
    reveal_strlit("OggS");
    reveal_strlit("OpusHead");
    assert(ascii("OggS"@) =~= provider::word_oggs());
    assert(ascii("OpusHead"@) =~= provider::word_opus_head());
    let s = ascii("OggS"@) + header + ascii("OpusHead"@) + rest;
    assert(s.subrange(0, 4) =~= provider::word_oggs());
    assert(s[0] == 0x4f);
    lemma_not_at(s, 0, provider::word_flac(), 0);
    if 4 + header.len() + 8 <= 64 {
        let at = 4 + header.len() as int;
        let page = provider::first_page(s);
        assert(page.len() >= at + 8);
        assert(page.subrange(at, at + 8) =~= ascii("OpusHead"@));
        assert(text::occurs_at(page, provider::word_opus_head(), at));
    }
    let t = ascii("OggS"@) + header;
    assert(t.subrange(0, 4) =~= provider::word_oggs());
    assert(t[0] == 0x4f);
    lemma_not_at(t, 0, provider::word_flac(), 0);
    if text::occurs(provider::first_page(t), provider::word_opus_head()) {
        let page = provider::first_page(t);
        let at = choose|at: int| text::occurs_at(page, provider::word_opus_head(), at);
        assert(t.subrange(at, at + 8) =~= page.subrange(at, at + 8));
        assert(text::occurs_at(t, provider::word_opus_head(), at));
    }
}

/// Bytes that begin as none of the formats do are of none.
pub proof fn law_other_bytes_are_unknown(head: Seq<u8>)
    requires
        head.len() > 0 ==> head[0] != 'f' as u8 && head[0] != 'O' as u8 && head[0] != 'R' as u8
            && head[0] != 'I' as u8 && head[0] != 0xff,
        head.len() > 4 ==> head[4] != 'f' as u8,
    ensures
        provider::sniffed(head) == AudioFormat::Unknown,
{
    lemma_not_at(head, 0, provider::word_flac(), 0);
    lemma_not_at(head, 0, provider::word_oggs(), 0);
    lemma_not_at(head, 0, provider::word_riff(), 0);
    lemma_not_at(head, 0, provider::word_id3(), 0);
    lemma_not_at(head, 4, provider::word_ftyp(), 0);
}

/// Everything but the unknown can be played.
pub proof fn law_known_formats_are_playable(f: &AudioFormat, r: bool)
    requires
        call_ensures(AudioFormat::is_playable, (f,), r),
    ensures
        r <==> *f != AudioFormat::Unknown,
{
}

/// What the log says of a song: where it is from, what it is, how long, how dense
/// and how large.
pub proof fn law_song_is_described(a: provider::Audio, n: u64)
    ensures
        a.size == Some(n) ==> a.described() == a.source + " "@ + provider::format_name(a.format)
            + " "@ + text::dec_text(a.duration_ms as nat) + "ms bitrate="@ + text::dec_text(
            a.bitrate as nat,
        ) + " size="@ + ("Some("@ + text::dec_text(n as nat) + ")"@) + " src="@ + a.song_id,
        a.size is None ==> a.described() == a.source + " "@ + provider::format_name(a.format)
            + " "@ + text::dec_text(a.duration_ms as nat) + "ms bitrate="@ + text::dec_text(
            a.bitrate as nat,
        ) + " size="@ + "None"@ + " src="@ + a.song_id,
{
}

/// A local file is its path; it belongs to no provider and never goes stale.
pub proof fn law_local_file_is_its_path(
    path: &str,
    format: AudioFormat,
    size: Option<u64>,
    r: provider::AudioInfo,
)
    requires
        call_ensures(provider::AudioInfo::local, (path, format, size), r),
    ensures
        r@.url == path@,
        r@.format == format,
        r@.size == size,
        r@.source == "local"@,
        r@.song_id.len() == 0,
        r@.expires_at == 0,
        r@.duration_ms == 0,
        r@.bitrate == 0,
{
}

} // verus!
