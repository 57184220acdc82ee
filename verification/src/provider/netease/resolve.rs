//! From a song to its playing address, and the cache of addresses.
//!
//! ```text
//! cached and not close to going stale   -> use it again
//! else                                  -> ask, and note when it goes stale
//! ```
//!
//! Entries are found by song and quality and never leave memory.

use vstd::prelude::*;
use crate::text;
use crate::provider;
use crate::provider::Audio;
use crate::provider::AudioFormat;
use crate::provider::AudioInfo;
use crate::provider::Failure;
use crate::provider::ProviderError;
use crate::provider::Quality;
use crate::provider::netease;
use crate::provider::netease::answer;
use crate::provider::netease::api::Call;
use crate::provider::netease::api::CallView;

verus! {

/// An address counts as stale this long before it is.
pub const EXPIRY_MARGIN_MS: u64 = 180000;

/// How long an address is taken to last.
pub const URL_TTL_MS: u64 = 720000;

#[derive(Clone, Debug)]
pub struct CachedUrl {
    pub song_id: String,
    pub quality: Quality,
    pub url: String,
    pub size: Option<u64>,
    pub bitrate: u32,
    pub expires_at_ms: u64,
}

/// What a [`CachedUrl`] says.
#[verifier::ext_equal]
pub struct Entry {
    pub song_id: Seq<char>,
    pub quality: Quality,
    pub url: Seq<char>,
    pub size: Option<u64>,
    pub bitrate: u32,
    pub expires_at_ms: u64,
}

impl View for CachedUrl {
    type V = Entry;

    open spec fn view(&self) -> Entry {
        Entry {
            song_id: self.song_id@,
            quality: self.quality,
            url: self.url@,
            size: self.size,
            bitrate: self.bitrate,
            expires_at_ms: self.expires_at_ms,
        }
    }
}

impl Entry {
    /// Whether it can still be used; zero means that it never goes stale.
    pub open spec fn usable_at(self, now_ms: u64) -> bool {
        self.expires_at_ms == 0 || now_ms + EXPIRY_MARGIN_MS < self.expires_at_ms
    }

    pub open spec fn is_for(self, song_id: Seq<char>, quality: Quality) -> bool {
        self.song_id == song_id && self.quality == quality
    }
}

impl CachedUrl {
    pub fn is_usable_at(&self, now_ms: u64) -> (r: bool)
        ensures
            r == self@.usable_at(now_ms),
    {
        self.expires_at_ms == 0 || (self.expires_at_ms > EXPIRY_MARGIN_MS && now_ms
            < self.expires_at_ms - EXPIRY_MARGIN_MS)
    }
}

// ---------------------------------------------------------------------- cache

/// The entries that do not satisfy a condition, in order.
pub open spec fn without(entries: Seq<Entry>, gone: spec_fn(Entry) -> bool) -> Seq<Entry>
    decreases entries.len(),
{
    if entries.len() == 0 {
        entries
    } else {
        let front = without(entries.drop_last(), gone);
        if gone(entries.last()) {
            front
        } else {
            front.push(entries.last())
        }
    }
}

/// The first entry for a song and quality that can still be used.
pub open spec fn hit_in(
    entries: Seq<Entry>,
    song_id: Seq<char>,
    quality: Quality,
    now_ms: u64,
) -> Option<Entry>
    decreases entries.len(),
{
    if entries.len() == 0 {
        None
    } else {
        let earlier = hit_in(entries.drop_last(), song_id, quality, now_ms);
        if earlier is Some {
            earlier
        } else if entries.last().is_for(song_id, quality) && entries.last().usable_at(now_ms) {
            Some(entries.last())
        } else {
            None
        }
    }
}

proof fn lemma_hit_prefix(entries: Seq<Entry>, song_id: Seq<char>, quality: Quality, now_ms: u64, k: int)
    requires
        0 <= k <= entries.len(),
        hit_in(entries.take(k), song_id, quality, now_ms) is Some,
    ensures
        hit_in(entries, song_id, quality, now_ms) == hit_in(entries.take(k), song_id, quality, now_ms),
    decreases entries.len(),
{
    if k < entries.len() {
        assert(entries.drop_last().take(k) =~= entries.take(k));
        lemma_hit_prefix(entries.drop_last(), song_id, quality, now_ms, k);
    } else {
        assert(entries.take(k) =~= entries);
    }
}

/// The addresses known so far.
pub struct UrlCache {
    entries: Vec<CachedUrl>,
}

impl View for UrlCache {
    type V = Seq<Entry>;

    closed spec fn view(&self) -> Seq<Entry> {
        self.entries@.map_values(|e: CachedUrl| e@)
    }
}

/// No two entries are for the same song and quality.
pub open spec fn distinct(entries: Seq<Entry>) -> bool {
    forall|i: int, j: int|
        0 <= i < j < entries.len() ==> !(#[trigger] entries[i]).is_for(
            (#[trigger] entries[j]).song_id,
            entries[j].quality,
        )
}

/// The entries once one is put: those for its song and quality go, it comes
/// last.
pub open spec fn with_entry(entries: Seq<Entry>, e: Entry) -> Seq<Entry> {
    without(entries, |x: Entry| x.is_for(e.song_id, e.quality)).push(e)
}

/// The entries once a song is declared stale.
pub open spec fn without_song(entries: Seq<Entry>, song_id: Seq<char>) -> Seq<Entry> {
    without(entries, |x: Entry| x.song_id == song_id)
}

impl Default for UrlCache {
    fn default() -> (r: Self)
        ensures
            r@ == Seq::<Entry>::empty(),
    {
        UrlCache::empty()
    }
}

impl UrlCache {
    pub fn empty() -> (r: Self)
        ensures
            r@ == Seq::<Entry>::empty(),
    {
        let r = UrlCache { entries: Vec::new() };
        assert(r@ =~= Seq::empty());
        r
    }

    /// The entry for a song and quality that can still be used.
    pub fn get(&self, song_id: &str, quality: Quality, now_ms: u64) -> (r: Option<&CachedUrl>)
        ensures
            match r {
                Some(e) => hit_in(self@, song_id@, quality, now_ms) == Some(e@),
                None => hit_in(self@, song_id@, quality, now_ms) is None,
            },
    {
        let mut i: usize = 0;
        assert(hit_in(self@.take(0), song_id@, quality, now_ms) is None);
        while i < self.entries.len()
            invariant
                i <= self.entries@.len(),
                self@.len() == self.entries@.len(),
                hit_in(self@.take(i as int), song_id@, quality, now_ms) is None,
            decreases self.entries.len() - i,
        {
            let e = &self.entries[i];
            assert(self@[i as int] == e@);
            assert(self@.take(i + 1).drop_last() =~= self@.take(i as int));
            if text::same_text(e.song_id.as_str(), song_id) && e.quality == quality && e.is_usable_at(
                now_ms,
            ) {
                proof {
                    lemma_hit_prefix(self@, song_id@, quality, now_ms, i + 1);
                }
                return Some(e);
            }
            i += 1;
        }
        assert(self@.take(i as int) =~= self@);
        None
    }

    /// Drops the entries for a song, of one quality or of any.
    fn drop_song(&mut self, song_id: &str, quality: Option<Quality>)
        ensures
            final(self)@ == without(
                old(self)@,
                |x: Entry| x.song_id == song_id@ && (quality is None || quality == Some(x.quality)),
            ),
    {
        let mut i: usize = 0;
        let ghost all = self@;
        let ghost gone = |x: Entry|
            x.song_id == song_id@ && (quality is None || quality == Some(x.quality));
        assert(self@.take(0) =~= without(all.take(0), gone));
        let ghost mut done: int = 0;
        assert(all.skip(0) =~= all);
        while i < self.entries.len()
            invariant
                i <= self.entries@.len(),
                0 <= done <= all.len(),
                gone == (|x: Entry|
                    x.song_id == song_id@ && (quality is None || quality == Some(x.quality))),
                self@.len() == self.entries@.len(),
                self@.take(i as int) == without(all.take(done), gone),
                self@.skip(i as int) == all.skip(done),
            decreases self.entries.len() - i,
        {
            let ghost now = self@;
            assert(now.skip(i as int).len() == all.skip(done).len());
            assert(now.skip(i as int)[0] == now[i as int]);
            assert(all.skip(done)[0] == all[done]);
            assert(all.take(done + 1).drop_last() =~= all.take(done));
            assert(all.skip(done).skip(1) =~= all.skip(done + 1));
            let level: bool = match quality {
                Some(q) => self.entries[i].quality == q,
                None => true,
            };
            if text::same_text(self.entries[i].song_id.as_str(), song_id) && level {
                self.entries.remove(i);
                assert(self@ =~= now.remove(i as int));
                assert(self@.take(i as int) =~= now.take(i as int));
                assert(self@.skip(i as int) =~= now.skip(i as int).skip(1));
            } else {
                assert(now.take(i + 1) =~= now.take(i as int).push(now[i as int]));
                assert(now.skip(i + 1) =~= now.skip(i as int).skip(1));
                i += 1;
            }
            proof {
                done = done + 1;
            }
        }
        assert(all.take(done) =~= all) by {
            assert(self@.skip(i as int).len() == 0);
        }
        assert(self@.take(i as int) =~= self@);
    }

    /// Puts an entry in the place of those for its song and quality.
    pub fn put(&mut self, entry: CachedUrl)
        ensures
            final(self)@ == with_entry(old(self)@, entry@),
    {
        self.drop_song(entry.song_id.as_str(), Some(entry.quality));
        let ghost before = self@;
        assert((|x: Entry| x.is_for(entry@.song_id, entry@.quality)) =~= (|x: Entry|
            x.song_id == entry@.song_id && (Some(entry.quality) is None || Some(entry.quality)
                == Some(x.quality))));
        self.entries.push(entry);
        assert(self@ =~= before.push(entry@));
    }

    /// Forgets a song, whatever the quality.
    pub fn invalidate(&mut self, song_id: &str)
        ensures
            final(self)@ == without_song(old(self)@, song_id@),
    {
        self.drop_song(song_id, None);
        assert((|x: Entry| x.song_id == song_id@) =~= (|x: Entry|
            x.song_id == song_id@ && (None::<Quality> is None || None::<Quality> == Some(x.quality))));
    }

    pub fn len(&self) -> (r: usize)
        ensures
            r == self@.len(),
    {
        self.entries.len()
    }
}

// ----------------------------------------------------------- laws of the cache

proof fn lemma_without_spared(
    entries: Seq<Entry>,
    gone: spec_fn(Entry) -> bool,
    song_id: Seq<char>,
    quality: Quality,
    now_ms: u64,
)
    requires
        forall|x: Entry| x.is_for(song_id, quality) ==> !#[trigger] gone(x),
    ensures
        hit_in(without(entries, gone), song_id, quality, now_ms) == hit_in(
            entries,
            song_id,
            quality,
            now_ms,
        ),
    decreases entries.len(),
{
    if entries.len() > 0 {
        lemma_without_spared(entries.drop_last(), gone, song_id, quality, now_ms);
        let front = without(entries.drop_last(), gone);
        if !gone(entries.last()) {
            assert(front.push(entries.last()).drop_last() =~= front);
        }
    }
}

proof fn lemma_without_gone(
    entries: Seq<Entry>,
    gone: spec_fn(Entry) -> bool,
    song_id: Seq<char>,
    quality: Quality,
    now_ms: u64,
)
    requires
        forall|x: Entry| x.is_for(song_id, quality) ==> #[trigger] gone(x),
    ensures
        hit_in(without(entries, gone), song_id, quality, now_ms) is None,
    decreases entries.len(),
{
    if entries.len() > 0 {
        lemma_without_gone(entries.drop_last(), gone, song_id, quality, now_ms);
        let front = without(entries.drop_last(), gone);
        if !gone(entries.last()) {
            assert(front.push(entries.last()).drop_last() =~= front);
        }
    }
}

proof fn lemma_without_sub(entries: Seq<Entry>, gone: spec_fn(Entry) -> bool)
    ensures
        forall|i: int|
            0 <= i < without(entries, gone).len() ==> !gone(#[trigger] without(entries, gone)[i])
                && entries.contains(without(entries, gone)[i]),
        distinct(entries) ==> distinct(without(entries, gone)),
    decreases entries.len(),
{
    if entries.len() > 0 {
        let front = entries.drop_last();
        lemma_without_sub(front, gone);
        let w = without(front, gone);
        assert forall|i: int| 0 <= i < without(entries, gone).len() implies !gone(
            #[trigger] without(entries, gone)[i],
        ) && entries.contains(without(entries, gone)[i]) by {
            if i < w.len() {
                let j = choose|j: int| 0 <= j < front.len() && front[j] == w[i];
                assert(entries[j] == w[i]);
            } else {
                assert(entries[entries.len() - 1] == entries.last());
            }
        }
        if distinct(entries) {
            assert forall|i: int, j: int| 0 <= i < j < front.len() implies !(
            #[trigger] front[i]).is_for((#[trigger] front[j]).song_id, front[j].quality) by {
                assert(entries[i] == front[i] && entries[j] == front[j]);
            }
            let all = without(entries, gone);
            assert forall|i: int, j: int| 0 <= i < j < all.len() implies !(#[trigger] all[i]).is_for(
                (#[trigger] all[j]).song_id,
                all[j].quality,
            ) by {
                if j < w.len() {
                    assert(w[i] == all[i] && w[j] == all[j]);
                } else {
                    let k = choose|k: int| 0 <= k < front.len() && front[k] == w[i];
                    assert(w[i] == all[i]);
                    assert(entries[k] == w[i]);
                    assert(entries[entries.len() - 1] == all[j]);
                }
            }
        }
    }
}

/// What was put for a song and quality is what is found for it, while it can be
/// used; what is found for others stays as it was.
pub proof fn law_put_then_get(
    entries: Seq<Entry>,
    e: Entry,
    song_id: Seq<char>,
    quality: Quality,
    now_ms: u64,
)
    ensures
        hit_in(with_entry(entries, e), song_id, quality, now_ms) == if e.is_for(song_id, quality) {
            if e.usable_at(now_ms) {
                Some(e)
            } else {
                None
            }
        } else {
            hit_in(entries, song_id, quality, now_ms)
        },
{
    let gone = |x: Entry| x.is_for(e.song_id, e.quality);
    let rest = without(entries, gone);
    assert(rest.push(e).drop_last() =~= rest);
    if e.is_for(song_id, quality) {
        lemma_without_gone(entries, gone, song_id, quality, now_ms);
    } else {
        lemma_without_spared(entries, gone, song_id, quality, now_ms);
    }
}

/// Putting never leaves two entries for the same song and quality.
pub proof fn law_put_keeps_distinct(entries: Seq<Entry>, e: Entry)
    requires
        distinct(entries),
    ensures
        distinct(with_entry(entries, e)),
{
    let gone = |x: Entry| x.is_for(e.song_id, e.quality);
    lemma_without_sub(entries, gone);
    let w = without(entries, gone);
    let all = with_entry(entries, e);
    assert forall|i: int, j: int| 0 <= i < j < all.len() implies !(#[trigger] all[i]).is_for(
        (#[trigger] all[j]).song_id,
        all[j].quality,
    ) by {
        assert(all[i] == w[i]);
        if j < w.len() {
            assert(all[j] == w[j]);
        } else {
            assert(!gone(w[i]));
        }
    }
}

/// After a song is declared stale nothing is found for it; what is found for
/// others stays as it was.
pub proof fn law_invalidate_forgets(
    entries: Seq<Entry>,
    gone_song: Seq<char>,
    song_id: Seq<char>,
    quality: Quality,
    now_ms: u64,
)
    ensures
        hit_in(without_song(entries, gone_song), song_id, quality, now_ms) == if song_id
            == gone_song {
            None
        } else {
            hit_in(entries, song_id, quality, now_ms)
        },
{
    let gone = |x: Entry| x.song_id == gone_song;
    if song_id == gone_song {
        lemma_without_gone(entries, gone, song_id, quality, now_ms);
    } else {
        lemma_without_spared(entries, gone, song_id, quality, now_ms);
    }
}

/// Whatever is found is for the song and quality asked for, and has more than
/// the margin left.
pub proof fn law_hit_is_fresh(
    entries: Seq<Entry>,
    song_id: Seq<char>,
    quality: Quality,
    now_ms: u64,
)
    ensures
        hit_in(entries, song_id, quality, now_ms) matches Some(e) ==> e.is_for(song_id, quality) && (
        e.expires_at_ms == 0 || now_ms + EXPIRY_MARGIN_MS < e.expires_at_ms),
    decreases entries.len(),
{
    if entries.len() > 0 {
        law_hit_is_fresh(entries.drop_last(), song_id, quality, now_ms);
    }
}

// -------------------------------------------------------------------- resolving

/// A song identifier: one to twenty digits.
pub open spec fn is_song_id(s: Seq<char>) -> bool {
    1 <= s.len() <= 20 && text::all_digits(s)
}

pub fn song_id_ok(s: &str) -> (r: bool)
    ensures
        r == is_song_id(s@),
{
    let cs = text::chars_of(s);
    if cs.len() < 1 || cs.len() > 20 {
        return false;
    }
    let mut i: usize = 0;
    while i < cs.len()
        invariant
            i <= cs@.len(),
            cs@ == s@,
            forall|j: int| 0 <= j < i ==> text::is_digit(#[trigger] cs@[j]),
        decreases cs.len() - i,
    {
        if !text::digit(cs[i]) {
            assert(!text::is_digit(s@[i as int]));
            return false;
        }
        i += 1;
    }
    true
}

/// What the player is told of a resolved song.
pub open spec fn audio_of(
    song_id: Seq<char>,
    quality: Quality,
    url: Seq<char>,
    size: Option<u64>,
    bitrate: u32,
    duration_ms: u32,
    expires_at_ms: u64,
    format_hint: Option<AudioFormat>,
) -> Audio {
    Audio {
        url,
        format: match format_hint {
            Some(f) => f,
            None => AudioFormat::Unknown,
        },
        duration_ms,
        bitrate,
        size,
        source: "netease"@,
        song_id,
        quality,
        expires_at: expires_at_ms,
    }
}

/// Turns an answer into what the player needs. The hint is only the server's
/// word; the decoder still looks at the bytes.
pub fn to_audio_info(
    song_id: &str,
    quality: Quality,
    url: &str,
    size: Option<u64>,
    bitrate: u32,
    duration_ms: u32,
    expires_at_ms: u64,
    format_hint: Option<AudioFormat>,
) -> (r: AudioInfo)
    ensures
        r@ == audio_of(
            song_id@,
            quality,
            url@,
            size,
            bitrate,
            duration_ms,
            expires_at_ms,
            format_hint,
        ),
{
    AudioInfo {
        url: url.to_owned(),
        format: match format_hint {
            Some(f) => f,
            None => AudioFormat::Unknown,
        },
        duration_ms,
        bitrate,
        size,
        source: "netease".to_owned(),
        song_id: song_id.to_owned(),
        quality,
        expires_at: expires_at_ms,
    }
}

/// What the server says of a song's address.
pub struct ParsedUrl {
    pub url: String,
    pub size: Option<u64>,
    pub bitrate: u32,
    pub kind: String,
}

/// What a [`ParsedUrl`] says.
#[verifier::ext_equal]
pub struct Parsed {
    pub url: Seq<char>,
    pub size: Option<u64>,
    pub bitrate: u32,
    pub kind: Seq<char>,
}

impl View for ParsedUrl {
    type V = Parsed;

    open spec fn view(&self) -> Parsed {
        Parsed { url: self.url@, size: self.size, bitrate: self.bitrate, kind: self.kind@ }
    }
}

pub open spec fn is_web_address(s: Seq<char>) -> bool {
    text::begins(s, "http://"@) || text::begins(s, "https://"@)
}

pub fn web_address(s: &str) -> (r: bool)
    ensures
        r == is_web_address(s@),
{
    text::starts_with(s, "http://") || text::starts_with(s, "https://")
}

pub open spec fn as_size(n: Option<nat>) -> Option<u64> {
    match n {
        Some(v) => Some(v as u64),
        None => None,
    }
}

/// The address in the server's answer; `None` without a web address.
pub open spec fn parsed_url(body: Seq<char>) -> Option<Parsed> {
    match answer::string_of(body, "url"@) {
        Some(url) => if is_web_address(url) {
            Some(
                Parsed {
                    url,
                    size: as_size(answer::u64_of(body, "size"@)),
                    bitrate: match answer::u64_of(body, "br"@) {
                        Some(n) => (n as u64) as u32,
                        None => 0,
                    },
                    kind: match answer::string_of(body, "type"@) {
                        Some(k) => k,
                        None => Seq::empty(),
                    },
                },
            )
        } else {
            None
        },
        None => None,
    }
}

pub fn parse_song_url(json: &str) -> (r: Option<ParsedUrl>)
    ensures
        match r {
            Some(p) => parsed_url(json@) == Some(p@),
            None => parsed_url(json@) is None,
        },
{
    let url = match answer::json_string(json, "url") {
        Some(u) => u,
        None => {
            return None;
        },
    };
    if !web_address(url.as_str()) {
        return None;
    }
    let size = answer::json_u64(json, "size");
    let bitrate: u32 = match answer::json_u64(json, "br") {
        Some(n) => n as u32,
        None => 0,
    };
    let kind = match answer::json_string(json, "type") {
        Some(k) => k,
        None => String::new(),
    };
    let p = ParsedUrl { url, size, bitrate, kind };
    assert(parsed_url(json@)->0 =~= p@);
    Some(p)
}

pub open spec fn format_of_kind(kind: Seq<char>) -> Option<AudioFormat> {
    if kind == "mp3"@ {
        Some(AudioFormat::Mp3)
    } else if kind == "m4a"@ || kind == "aac"@ {
        Some(AudioFormat::M4a)
    } else if kind == "flac"@ {
        Some(AudioFormat::Flac)
    } else {
        None
    }
}

fn kind_format(kind: &str) -> (r: Option<AudioFormat>)
    ensures
        r == format_of_kind(kind@),
{
    if text::same_text(kind, "mp3") {
        Some(AudioFormat::Mp3)
    } else if text::same_text(kind, "m4a") || text::same_text(kind, "aac") {
        Some(AudioFormat::M4a)
    } else if text::same_text(kind, "flac") {
        Some(AudioFormat::Flac)
    } else {
        None
    }
}

/// Where the server's type is the name of a format, the format is the one with
/// that name; AAC comes in the container of M4A; of any other type nothing is
/// known.
pub proof fn law_format_has_the_name_of_its_type(kind: Seq<char>)
    ensures
        kind == "mp3"@ || kind == "m4a"@ || kind == "flac"@ ==> (format_of_kind(kind) matches Some(f)
            && provider::format_name(f) == kind),
        kind == "aac"@ ==> (format_of_kind(kind) matches Some(f) && provider::format_name(f)
            == "m4a"@),
        kind != "mp3"@ && kind != "m4a"@ && kind != "flac"@ && kind != "aac"@ ==> format_of_kind(kind)
            is None,
{
    reveal_strlit("mp3");
    reveal_strlit("m4a");
    reveal_strlit("flac");
    reveal_strlit("aac");
    assert("mp3"@[1] != "m4a"@[1]);
    assert("mp3"@[0] != "aac"@[0]);
    assert("m4a"@[0] != "aac"@[0]);
    assert("flac"@.len() != "mp3"@.len());
    assert("flac"@.len() != "m4a"@.len());
    assert("flac"@.len() != "aac"@.len());
}

/// What looking a song up comes to.
pub enum Lookup {
    /// This is the answer.
    Answer(Result<AudioInfo, ProviderError>),
    /// The server has to be asked this.
    Ask(Call),
}

/// What a [`Lookup`] says.
pub enum LookupView {
    Answer(Result<Audio, Failure>),
    Ask(CallView),
}

impl View for Lookup {
    type V = LookupView;

    open spec fn view(&self) -> LookupView {
        match self {
            Lookup::Answer(r) => LookupView::Answer(provider::outcome(*r)),
            Lookup::Ask(c) => LookupView::Ask(c@),
        }
    }
}

/// An identifier that is none is not found; a fresh cached address is used
/// again; else the server is asked.
pub open spec fn looked_up(
    entries: Seq<Entry>,
    song_id: Seq<char>,
    quality: Quality,
    now_ms: u64,
) -> LookupView {
    if !is_song_id(song_id) {
        LookupView::Answer(Err(Failure::NotFound))
    } else {
        match hit_in(entries, song_id, quality, now_ms) {
            Some(e) => LookupView::Answer(
                Ok(
                    audio_of(
                        song_id,
                        quality,
                        e.url,
                        e.size,
                        e.bitrate,
                        0,
                        e.expires_at_ms,
                        Some(AudioFormat::Mp3),
                    ),
                ),
            ),
            None => LookupView::Ask(
                CallView::song_url(song_id, quality, netease::quality_name(quality)),
            ),
        }
    }
}

/// Looks a song up, and says what to ask where that is needed.
pub fn resolve(song_id: &str, quality: Quality, cache: &UrlCache, now_ms: u64) -> (r: Lookup)
    ensures
        r@ == looked_up(cache@, song_id@, quality, now_ms),
{
    if !song_id_ok(song_id) {
        return Lookup::Answer(Err(ProviderError::NotFound));
    }
    match cache.get(song_id, quality, now_ms) {
        Some(hit) => {
            let info = to_audio_info(
                song_id,
                quality,
                hit.url.as_str(),
                hit.size,
                hit.bitrate,
                0,
                hit.expires_at_ms,
                Some(AudioFormat::Mp3),
            );
            Lookup::Answer(Ok(info))
        },
        None => Lookup::Ask(Call::url_quality(song_id, quality, netease::quality_id(quality))),
    }
}

pub open spec fn expiry(now_ms: u64) -> u64 {
    if now_ms + URL_TTL_MS <= u64::MAX {
        (now_ms + URL_TTL_MS) as u64
    } else {
        u64::MAX
    }
}

/// The cache entry for an address that the server gave.
pub open spec fn entry_of(song_id: Seq<char>, quality: Quality, p: Parsed, now_ms: u64) -> Entry {
    Entry {
        song_id,
        quality,
        url: p.url,
        size: p.size,
        bitrate: p.bitrate,
        expires_at_ms: expiry(now_ms),
    }
}

/// What a song resolves to, given what the server replied or would reply.
pub open spec fn resolved(
    entries: Seq<Entry>,
    song_id: Seq<char>,
    quality: Quality,
    now_ms: u64,
    reply: Result<Seq<char>, Failure>,
) -> Result<Audio, Failure> {
    match looked_up(entries, song_id, quality, now_ms) {
        LookupView::Answer(a) => a,
        LookupView::Ask(_) => match reply {
            Err(e) => Err(e),
            Ok(body) => match parsed_url(body) {
                None => Err(Failure::NotFound),
                Some(p) => Ok(
                    audio_of(
                        song_id,
                        quality,
                        p.url,
                        p.size,
                        p.bitrate,
                        0,
                        expiry(now_ms),
                        format_of_kind(p.kind),
                    ),
                ),
            },
        },
    }
}

/// The cache afterwards: a new address is noted, nothing else changes it.
pub open spec fn cache_after(
    entries: Seq<Entry>,
    song_id: Seq<char>,
    quality: Quality,
    now_ms: u64,
    reply: Result<Seq<char>, Failure>,
) -> Seq<Entry> {
    match looked_up(entries, song_id, quality, now_ms) {
        LookupView::Answer(_) => entries,
        LookupView::Ask(_) => match reply {
            Err(_) => entries,
            Ok(body) => match parsed_url(body) {
                None => entries,
                Some(p) => with_entry(entries, entry_of(song_id, quality, p, now_ms)),
            },
        },
    }
}

/// Resolves a song: from the cache where that is fresh enough, else from the
/// server's reply.
pub fn fetch(
    song_id: &str,
    quality: Quality,
    cache: &mut UrlCache,
    now_ms: u64,
    reply: Result<String, ProviderError>,
) -> (r: Result<AudioInfo, ProviderError>)
    ensures
        provider::outcome(r) == resolved(
            old(cache)@,
            song_id@,
            quality,
            now_ms,
            provider::answer(reply),
        ),
        final(cache)@ == cache_after(
            old(cache)@,
            song_id@,
            quality,
            now_ms,
            provider::answer(reply),
        ),
{
    match resolve(song_id, quality, cache, now_ms) {
        Lookup::Answer(a) => {
            return a;
        },
        Lookup::Ask(_) => {},
    }
    let body = match reply {
        Ok(b) => b,
        Err(e) => {
            return Err(e);
        },
    };
    let p = match parse_song_url(body.as_str()) {
        Some(p) => p,
        None => {
            return Err(ProviderError::NotFound);
        },
    };
    let expires: u64 = now_ms.saturating_add(URL_TTL_MS);
    let entry = CachedUrl {
        song_id: song_id.to_owned(),
        quality,
        url: p.url.as_str().to_owned(),
        size: p.size,
        bitrate: p.bitrate,
        expires_at_ms: expires,
    };
    assert(entry@ =~= entry_of(song_id@, quality, p@, now_ms));
    cache.put(entry);
    let format = kind_format(p.kind.as_str());
    Ok(to_audio_info(song_id, quality, p.url.as_str(), p.size, p.bitrate, 0, expires, format))
}

/// An address that the server just gave is used again until it is close to
/// going stale: the second look does not ask.
pub proof fn law_second_look_is_cached(
    entries: Seq<Entry>,
    song_id: Seq<char>,
    quality: Quality,
    now_ms: u64,
    body: Seq<char>,
    later_ms: u64,
)
    requires
        looked_up(entries, song_id, quality, now_ms) is Ask,
        parsed_url(body) is Some,
        later_ms + EXPIRY_MARGIN_MS < expiry(now_ms),
    ensures
        ({
            let after = cache_after(entries, song_id, quality, now_ms, Ok(body));
            &&& looked_up(after, song_id, quality, later_ms) matches LookupView::Answer(a)
            &&& a matches Ok(info)
            &&& info.url == parsed_url(body)->0.url
            &&& info.expires_at == expiry(now_ms)
        }),
{
    let e = entry_of(song_id, quality, parsed_url(body)->0, now_ms);
    law_put_then_get(entries, e, song_id, quality, later_ms);
}

// -------------------------------------------------------------- refused addresses

/// A status by which the server says that an address is no longer good.
pub open spec fn is_stale_status(status: i32) -> bool {
    status == 403 || status == 404 || status == 410
}

/// What a status on a playing address comes to.
#[derive(Clone, Copy, Debug, PartialEq, Eq, Structural)]
pub enum Recovery {
    /// It says nothing of the address.
    Unrelated,
    /// Resolve the song anew and try again.
    Again,
    /// It was tried again already.
    GiveUp,
}

pub open spec fn recovery(status: i32, retried: bool) -> Recovery {
    if !is_stale_status(status) {
        Recovery::Unrelated
    } else if retried {
        Recovery::GiveUp
    } else {
        Recovery::Again
    }
}

/// Takes the status that the playing address of a song was answered with: a stale
/// address is forgotten, and resolved once more.
pub fn on_status(cache: &mut UrlCache, song_id: &str, status: i32, retried: bool) -> (r: Recovery)
    ensures
        r == recovery(status, retried),
        final(cache)@ == (if is_stale_status(status) {
            without_song(old(cache)@, song_id@)
        } else {
            old(cache)@
        }),
{
    if status != 403 && status != 404 && status != 410 {
        return Recovery::Unrelated;
    }
    cache.invalidate(song_id);
    if retried {
        Recovery::GiveUp
    } else {
        Recovery::Again
    }
}

/// After a stale address the server is asked again, whatever the cache held and
/// whenever the next look is; and there is only one more try.
pub proof fn law_stale_address_is_resolved_once_more(
    entries: Seq<Entry>,
    song_id: Seq<char>,
    quality: Quality,
    status: i32,
    now_ms: u64,
)
    requires
        is_stale_status(status),
        is_song_id(song_id),
    ensures
        looked_up(without_song(entries, song_id), song_id, quality, now_ms) is Ask,
        recovery(status, false) == Recovery::Again,
        recovery(status, true) == Recovery::GiveUp,
{
    law_invalidate_forgets(entries, song_id, song_id, quality, now_ms);
}

// --------------------------------------------------------------- play addresses

pub open spec fn is_netease(url: Seq<char>) -> bool {
    text::occurs(url, "music.163.com"@) || text::occurs(url, "126.net"@)
}

pub fn is_netease_host(url: &str) -> (r: bool)
    ensures
        r == is_netease(url@),
{
    text::contains_text(url, "music.163.com") || text::contains_text(url, "126.net")
}

/// The song of an anonymous playing address.
pub open spec fn outer_song(url: Seq<char>) -> Option<Seq<char>> {
    if !text::occurs(url, "music.163.com/song/media/outer/url"@) {
        None
    } else {
        match answer::behind(url, "id="@) {
            Some(rest) => {
                let id = text::leading_digits(rest);
                if 1 <= id.len() <= 20 {
                    Some(id)
                } else {
                    None
                }
            },
            None => None,
        }
    }
}

pub fn outer_song_id(url: &str) -> (r: Option<String>)
    ensures
        match r {
            Some(id) => outer_song(url@) == Some(id@),
            None => outer_song(url@) is None,
        },
{
    if !text::contains_text(url, "music.163.com/song/media/outer/url") {
        return None;
    }
    let cs = text::chars_of(url);
    let len: usize = cs.len();
    let pat = text::chars_of("id=");
    match text::find_chars(cs.as_slice(), pat.as_slice()) {
        Some(i) => {
            let from: usize = i + pat.len();
            let n = text::digit_run(cs.as_slice(), from);
            if n < 1 || n > 20 {
                None
            } else {
                Some(text::text_of_range(cs.as_slice(), from, from + n))
            }
        },
        None => None,
    }
}

proof fn lemma_digits_lead(id: Seq<char>, rest: Seq<char>)
    requires
        text::all_digits(id),
        rest.len() > 0 ==> !text::is_digit(rest[0]),
    ensures
        text::leading_digits(id + rest) == id,
    decreases id.len(),
{
    if id.len() > 0 {
        assert((id + rest).drop_first() =~= id.drop_first() + rest);
        lemma_digits_lead(id.drop_first(), rest);
        assert(seq![id[0]] + id.drop_first() =~= id);
    } else {
        assert(id + rest =~= rest);
    }
}

/// The first `n` characters are none of `c`.
spec fn free_of(s: Seq<char>, c: char, n: nat) -> bool
    decreases n,
{
    n == 0 || (s[n - 1] != c && free_of(s, c, (n - 1) as nat))
}

proof fn lemma_free_of(s: Seq<char>, c: char, n: nat)
    requires
        free_of(s, c, n),
    ensures
        forall|k: int| 0 <= k < n ==> s[k] != c,
    decreases n,
{
    if n > 0 {
        lemma_free_of(s, c, (n - 1) as nat);
    }
}

/// The song that an anonymous address is made for is the song that is read back
/// out of it.
pub proof fn law_address_names_its_song(id: Seq<char>)
    requires
        is_song_id(id),
    ensures
        netease::media_address(id) is Some,
        outer_song(netease::media_address(id)->0) == Some(id),
{
    reveal_strlit("https://music.163.com/song/media/outer/url?id=");
    reveal_strlit("music.163.com/song/media/outer/url");
    reveal_strlit("id=");
    reveal_strlit(".mp3");
    let head = "https://music.163.com/song/media/outer/url?id="@;
    let url = netease::media_address(id)->0;
    assert(url == head + id + ".mp3"@);
    assert(url.subrange(8, 42) =~= "music.163.com/song/media/outer/url"@);
    assert(text::occurs_at(url, "music.163.com/song/media/outer/url"@, 8));
    assert(free_of(head, '=', 45)) by {
        reveal_with_fuel(free_of, 46);
    }
    lemma_free_of(head, '=', 45);
    assert(url.subrange(43, 46) =~= "id="@);
    assert(text::occurs_at(url, "id="@, 43));
    assert forall|j: int| 0 <= j < 43 implies !text::occurs_at(url, "id="@, j) by {
        assert(url[j + 2] == head[j + 2]);
        assert(url.subrange(j, j + 3)[2] == url[j + 2]);
    }
    text::lemma_find_from(url, "id="@, 0);
    assert(text::find(url, "id="@) == Some(43int));
    assert(url.skip(46) =~= id + ".mp3"@);
    lemma_digits_lead(id, ".mp3"@);
}

/// The address and referer to play from. Only an anonymous address is replaced,
/// and only by a web address that the song resolved to; every failure leaves the
/// address as it was.
pub open spec fn play_address(
    url: Seq<char>,
    referer: Seq<char>,
    fetched: Result<Audio, Failure>,
) -> (Seq<char>, Seq<char>) {
    let own = if referer.len() == 0 && is_netease(url) {
        netease::REFERER@
    } else {
        referer
    };
    if outer_song(url) is Some && fetched is Ok && is_web_address(fetched->Ok_0.url) {
        (fetched->Ok_0.url, netease::REFERER@)
    } else {
        (url, own)
    }
}

/// What an address resolves to where it is an anonymous one: its song, in the
/// lowest quality.
pub open spec fn play_resolved(
    entries: Seq<Entry>,
    url: Seq<char>,
    now_ms: u64,
    reply: Result<Seq<char>, Failure>,
) -> Result<Audio, Failure> {
    match outer_song(url) {
        Some(id) => resolved(entries, id, Quality::Low, now_ms, reply),
        None => Err(Failure::Unsupported),
    }
}

pub open spec fn play_cache_after(
    entries: Seq<Entry>,
    url: Seq<char>,
    now_ms: u64,
    reply: Result<Seq<char>, Failure>,
) -> Seq<Entry> {
    match outer_song(url) {
        Some(id) => cache_after(entries, id, Quality::Low, now_ms, reply),
        None => entries,
    }
}

/// What the server has to be asked before an address is played, if anything.
pub fn play_question(url: &str, cache: &UrlCache, now_ms: u64) -> (r: Option<Call>)
    ensures
        match outer_song(url@) {
            Some(id) => match looked_up(cache@, id, Quality::Low, now_ms) {
                LookupView::Ask(c) => r is Some && r->0@ == c,
                LookupView::Answer(_) => r is None,
            },
            None => r is None,
        },
{
    match outer_song_id(url) {
        Some(id) => match resolve(id.as_str(), Quality::Low, cache, now_ms) {
            Lookup::Ask(c) => Some(c),
            Lookup::Answer(_) => None,
        },
        None => None,
    }
}

/// Chooses the playing address: an anonymous one is replaced by what its song
/// resolves to, from the cache or from the server's reply.
pub fn prepare_play_url(
    url: &str,
    referer: &str,
    cache: &mut UrlCache,
    now_ms: u64,
    reply: Result<String, ProviderError>,
) -> (r: (String, String))
    ensures
        (r.0@, r.1@) == play_address(
            url@,
            referer@,
            play_resolved(old(cache)@, url@, now_ms, provider::answer(reply)),
        ),
        final(cache)@ == play_cache_after(old(cache)@, url@, now_ms, provider::answer(reply)),
{
    let own: String = if referer.is_empty() && is_netease_host(url) {
        netease::REFERER.to_owned()
    } else {
        referer.to_owned()
    };
    match outer_song_id(url) {
        Some(id) => {
            let fetched = fetch(id.as_str(), Quality::Low, cache, now_ms, reply);
            if let Ok(info) = &fetched {
                if web_address(info.url.as_str()) {
                    return (info.url.as_str().to_owned(), netease::REFERER.to_owned());
                }
            }
            (url.to_owned(), own)
        },
        None => (url.to_owned(), own),
    }
}

/// A failed resolution never makes playback worse: the address stays.
pub proof fn law_failure_keeps_address(
    entries: Seq<Entry>,
    url: Seq<char>,
    referer: Seq<char>,
    now_ms: u64,
    reply: Result<Seq<char>, Failure>,
)
    requires
        play_resolved(entries, url, now_ms, reply) is Err,
    ensures
        play_address(url, referer, play_resolved(entries, url, now_ms, reply)).0 == url,
{
}

/// An address that is not an anonymous one is never replaced, and nothing is
/// asked or noted for it.
pub proof fn law_other_addresses_stay(
    entries: Seq<Entry>,
    url: Seq<char>,
    referer: Seq<char>,
    now_ms: u64,
    reply: Result<Seq<char>, Failure>,
)
    requires
        outer_song(url) is None,
    ensures
        play_address(url, referer, play_resolved(entries, url, now_ms, reply)).0 == url,
        play_cache_after(entries, url, now_ms, reply) == entries,
{
}

} // verus!
