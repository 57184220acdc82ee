//! Providers, and the question of formats.
//!
//! A provider answers one question: given a song, where are the bytes and what
//! are they? The format itself always comes from the bytes, never from the end
//! of an address.

pub mod laws;
pub mod netease;

use vstd::prelude::*;
use crate::text;
use crate::provider::netease::resolve::UrlCache;

verus! {

/// The quality asked for; each provider maps it onto its own ladder.
#[derive(Clone, Copy, Debug, PartialEq, Eq, Structural)]
pub enum Quality {
    /// The best that the account may have.
    Auto,
    Low,
    Medium,
    High,
    Lossless,
}

/// What the player can decode.
#[derive(Clone, Copy, Debug, PartialEq, Eq, Structural)]
pub enum AudioFormat {
    Mp3,
    OggVorbis,
    Opus,
    Wav,
    Flac,
    M4a,
    Unknown,
}

pub open spec fn format_name(f: AudioFormat) -> Seq<char> {
    match f {
        AudioFormat::Mp3 => "mp3"@,
        AudioFormat::OggVorbis => "ogg"@,
        AudioFormat::Opus => "opus"@,
        AudioFormat::Wav => "wav"@,
        AudioFormat::Flac => "flac"@,
        AudioFormat::M4a => "m4a"@,
        AudioFormat::Unknown => "unknown"@,
    }
}

/// Bytes `a` to `b` read as these characters.
pub open spec fn reads(head: Seq<u8>, at: int, word: Seq<u8>) -> bool {
    text::occurs_at(head, word, at)
}

pub open spec fn word_flac() -> Seq<u8> {
    seq![0x66u8, 0x4cu8, 0x61u8, 0x43u8]
}

pub open spec fn word_oggs() -> Seq<u8> {
    seq![0x4fu8, 0x67u8, 0x67u8, 0x53u8]
}

pub open spec fn word_opus_head() -> Seq<u8> {
    seq![0x4fu8, 0x70u8, 0x75u8, 0x73u8, 0x48u8, 0x65u8, 0x61u8, 0x64u8]
}

pub open spec fn word_ftyp() -> Seq<u8> {
    seq![0x66u8, 0x74u8, 0x79u8, 0x70u8]
}

pub open spec fn word_riff() -> Seq<u8> {
    seq![0x52u8, 0x49u8, 0x46u8, 0x46u8]
}

pub open spec fn word_wave() -> Seq<u8> {
    seq![0x57u8, 0x41u8, 0x56u8, 0x45u8]
}

pub open spec fn word_id3() -> Seq<u8> {
    seq![0x49u8, 0x44u8, 0x33u8]
}

/// The first 64 bytes, where the codec of an Ogg file is named.
pub open spec fn first_page(head: Seq<u8>) -> Seq<u8> {
    if head.len() < 64 {
        head
    } else {
        head.take(64)
    }
}

/// The format that the first bytes show. An Ogg file that does not name Opus is
/// taken for Vorbis; an MPEG frame may stand without a tag in front.
pub open spec fn sniffed(head: Seq<u8>) -> AudioFormat {
    if reads(head, 0, word_flac()) {
        AudioFormat::Flac
    } else if reads(head, 0, word_oggs()) {
        if text::occurs(first_page(head), word_opus_head()) {
            AudioFormat::Opus
        } else {
            AudioFormat::OggVorbis
        }
    } else if head.len() >= 12 && reads(head, 4, word_ftyp()) {
        AudioFormat::M4a
    } else if reads(head, 0, word_riff()) && reads(head, 8, word_wave()) {
        AudioFormat::Wav
    } else if reads(head, 0, word_id3()) {
        AudioFormat::Mp3
    } else if head.len() >= 2 && head[0] == 0xFF && head[1] >= 0xE0 {
        AudioFormat::Mp3
    } else {
        AudioFormat::Unknown
    }
}

fn reads_word(head: &[u8], at: usize, word: &[u8]) -> (r: bool)
    ensures
        r == reads(head@, at as int, word@),
{
    text::bytes_at(head, word, at)
}

impl AudioFormat {
    /// The name under which the decoder knows it.
    pub fn name(&self) -> (r: &'static str)
        ensures
            r@ == format_name(*self),
    {
        match self {
            AudioFormat::Mp3 => "mp3",
            AudioFormat::OggVorbis => "ogg",
            AudioFormat::Opus => "opus",
            AudioFormat::Wav => "wav",
            AudioFormat::Flac => "flac",
            AudioFormat::M4a => "m4a",
            AudioFormat::Unknown => "unknown",
        }
    }

    /// Whether the player can decode it.
    pub fn is_playable(&self) -> (r: bool)
        ensures
            r == (*self != AudioFormat::Unknown),
    {
        *self != AudioFormat::Unknown
    }

    /// Tells a format from the first bytes of a stream.
    pub fn sniff(head: &[u8]) -> (r: Self)
        ensures
            r == sniffed(head@),
    {
        let flac: [u8; 4] = [0x66, 0x4c, 0x61, 0x43];
        assert(flac@ =~= word_flac());
        if reads_word(head, 0, flac.as_slice()) {
            return AudioFormat::Flac;
        }
        let oggs: [u8; 4] = [0x4f, 0x67, 0x67, 0x53];
        assert(oggs@ =~= word_oggs());
        if reads_word(head, 0, oggs.as_slice()) {
            let n: usize = if head.len() < 64 {
                head.len()
            } else {
                64
            };
            let page = vstd::slice::slice_subrange(head, 0, n);
            assert(page@ =~= first_page(head@));
            let opus: [u8; 8] = [0x4f, 0x70, 0x75, 0x73, 0x48, 0x65, 0x61, 0x64];
            assert(opus@ =~= word_opus_head());
            if text::contains_bytes(page, opus.as_slice()) {
                return AudioFormat::Opus;
            }
            return AudioFormat::OggVorbis;
        }
        let ftyp: [u8; 4] = [0x66, 0x74, 0x79, 0x70];
        assert(ftyp@ =~= word_ftyp());
        if head.len() >= 12 && reads_word(head, 4, ftyp.as_slice()) {
            return AudioFormat::M4a;
        }
        let wave: [u8; 4] = [0x57, 0x41, 0x56, 0x45];
        assert(wave@ =~= word_wave());
        let riff: [u8; 4] = [0x52, 0x49, 0x46, 0x46];
        assert(riff@ =~= word_riff());
        if reads_word(head, 0, riff.as_slice()) && reads_word(head, 8, wave.as_slice()) {
            return AudioFormat::Wav;
        }
        let id3: [u8; 3] = [0x49, 0x44, 0x33];
        assert(id3@ =~= word_id3());
        if reads_word(head, 0, id3.as_slice()) {
            return AudioFormat::Mp3;
        }
        if head.len() >= 2 && head[0] == 0xFF && head[1] >= 0xE0 {
            return AudioFormat::Mp3;
        }
        AudioFormat::Unknown
    }
}

// ------------------------------------------------------------------ AudioInfo

/// Everything the player needs to start a stream.
#[derive(Clone, Debug)]
pub struct AudioInfo {
    pub url: String,
    pub format: AudioFormat,
    /// As the provider claims it; zero where it is unknown.
    pub duration_ms: u32,
    pub bitrate: u32,
    pub size: Option<u64>,
    pub source: String,
    pub song_id: String,
    pub quality: Quality,
    /// The time, in milliseconds since 1970, from which `url` is stale.
    pub expires_at: u64,
}

/// What an [`AudioInfo`] says.
#[verifier::ext_equal]
pub struct Audio {
    pub url: Seq<char>,
    pub format: AudioFormat,
    pub duration_ms: u32,
    pub bitrate: u32,
    pub size: Option<u64>,
    pub source: Seq<char>,
    pub song_id: Seq<char>,
    pub quality: Quality,
    pub expires_at: u64,
}

impl View for AudioInfo {
    type V = Audio;

    open spec fn view(&self) -> Audio {
        Audio {
            url: self.url@,
            format: self.format,
            duration_ms: self.duration_ms,
            bitrate: self.bitrate,
            size: self.size,
            source: self.source@,
            song_id: self.song_id@,
            quality: self.quality,
            expires_at: self.expires_at,
        }
    }
}

pub open spec fn size_text(size: Option<u64>) -> Seq<char> {
    match size {
        Some(n) => "Some("@ + text::dec_text(n as nat) + ")"@,
        None => "None"@,
    }
}

fn describe_size(size: Option<u64>) -> (r: String)
    ensures
        r@ == size_text(size),
{
    match size {
        Some(n) => {
            let mut s = "Some(".to_owned();
            s.append(text::dec(n).as_str());
            s.append(")");
            s
        },
        None => "None".to_owned(),
    }
}

impl Audio {
    pub open spec fn described(self) -> Seq<char> {
        self.source + " "@ + format_name(self.format) + " "@ + text::dec_text(
            self.duration_ms as nat,
        ) + "ms bitrate="@ + text::dec_text(self.bitrate as nat) + " size="@ + size_text(self.size)
            + " src="@ + self.song_id
    }
}

impl AudioInfo {
    /// A local file: it never goes stale and has no provider behind it.
    pub fn local(path: &str, format: AudioFormat, size: Option<u64>) -> (r: Self)
        ensures
            r@ == (Audio {
                url: path@,
                format,
                duration_ms: 0,
                bitrate: 0,
                size,
                source: "local"@,
                song_id: Seq::empty(),
                quality: Quality::Auto,
                expires_at: 0,
            }),
    {
        let r = AudioInfo {
            url: path.to_owned(),
            format,
            duration_ms: 0,
            bitrate: 0,
            size,
            source: "local".to_owned(),
            song_id: String::new(),
            quality: Quality::Auto,
            expires_at: 0,
        };
        assert(r.song_id@ =~= Seq::empty());
        r
    }

    /// One line for the log.
    pub fn describe(&self) -> (r: String)
        ensures
            r@ == self@.described(),
    {
        let mut s = self.source.as_str().to_owned();
        s.append(" ");
        s.append(self.format.name());
        s.append(" ");
        s.append(text::dec(self.duration_ms as u64).as_str());
        s.append("ms bitrate=");
        s.append(text::dec(self.bitrate as u64).as_str());
        s.append(" size=");
        s.append(describe_size(self.size).as_str());
        s.append(" src=");
        s.append(self.song_id.as_str());
        s
    }
}

// --------------------------------------------------------------------- errors

#[derive(Clone, Debug, PartialEq, Eq)]
pub enum ProviderError {
    /// No provider handles this.
    Unsupported,
    Network(String),
    /// The session is missing or was rejected.
    Auth(String),
    /// The account may not have this quality.
    VipRequired,
    NotFound,
    /// The address went stale; resolve it anew.
    Expired,
    Cancelled,
}

/// What a [`ProviderError`] says.
pub enum Failure {
    Unsupported,
    Network(Seq<char>),
    Auth(Seq<char>),
    VipRequired,
    NotFound,
    Expired,
    Cancelled,
}

impl View for ProviderError {
    type V = Failure;

    open spec fn view(&self) -> Failure {
        match self {
            ProviderError::Unsupported => Failure::Unsupported,
            ProviderError::Network(s) => Failure::Network(s@),
            ProviderError::Auth(s) => Failure::Auth(s@),
            ProviderError::VipRequired => Failure::VipRequired,
            ProviderError::NotFound => Failure::NotFound,
            ProviderError::Expired => Failure::Expired,
            ProviderError::Cancelled => Failure::Cancelled,
        }
    }
}

/// What came of resolving a song.
pub open spec fn outcome(r: Result<AudioInfo, ProviderError>) -> Result<Audio, Failure> {
    match r {
        Ok(info) => Ok(info@),
        Err(e) => Err(e@),
    }
}

/// What came back from a provider's server.
pub open spec fn answer(r: Result<String, ProviderError>) -> Result<Seq<char>, Failure> {
    match r {
        Ok(s) => Ok(s@),
        Err(e) => Err(e@),
    }
}

/// The seam between the player and its providers.
pub trait MusicProvider {
    spec fn label(&self) -> Seq<char>;

    fn name(&self) -> (r: &'static str)
        ensures
            r@ == self.label(),
    ;

    /// Resolves a song at a time, from the cache where that is fresh enough, and
    /// else from what the server replied.
    fn resolve(
        &self,
        song_id: &str,
        quality: Quality,
        cache: &mut UrlCache,
        now_ms: u64,
        reply: Result<String, ProviderError>,
    ) -> (r: Result<AudioInfo, ProviderError>);
}

} // verus!
