//! The provider behind the online tracks.

pub mod account;
pub mod aes;
pub mod aes_laws;
pub mod answer;
pub mod api;
pub mod bigint;
pub mod crypto;
pub mod crypto_laws;
pub mod laws;
pub mod login;
pub mod login_laws;
pub mod qr;
pub mod qr_laws;
pub mod reed_solomon;
pub mod resolve;

use vstd::prelude::*;
use crate::provider;
use crate::provider::AudioInfo;
use crate::provider::MusicProvider;
use crate::provider::ProviderError;
use crate::provider::Quality;
use crate::provider::netease::account::Session;
use crate::provider::netease::account::SessionView;
use crate::provider::netease::resolve::UrlCache;

verus! {

/// The referer that the servers expect.
pub const REFERER: &'static str = "https://music.163.com/";

pub const USER_AGENT: &'static str =
    "Mozilla/5.0 (Windows NT 10.0; Win64; x64) AppleWebKit/537.36 (KHTML, like Gecko) Chrome/120.0.0.0 Safari/537.36";

pub struct NetEaseProvider {
    session: Session,
}

impl NetEaseProvider {
    pub closed spec fn session_view(self) -> SessionView {
        self.session@
    }

    /// A provider without a login.
    pub fn new() -> (r: Self)
        ensures
            r.session_view() == SessionView::anonymous(),
    {
        NetEaseProvider { session: Session::anonymous() }
    }

    pub fn session(&self) -> (r: &Session)
        ensures
            r@ == self.session_view(),
    {
        &self.session
    }
}

impl Default for NetEaseProvider {
    fn default() -> (r: Self)
        ensures
            r.session_view() == SessionView::anonymous(),
    {
        NetEaseProvider::new()
    }
}

impl MusicProvider for NetEaseProvider {
    open spec fn label(&self) -> Seq<char> {
        "netease"@
    }

    fn name(&self) -> (r: &'static str) {
        "netease"
    }

    fn resolve(
        &self,
        song_id: &str,
        quality: Quality,
        cache: &mut UrlCache,
        now_ms: u64,
        reply: Result<String, ProviderError>,
    ) -> (r: Result<AudioInfo, ProviderError>)
        ensures
            provider::outcome(r) == resolve::resolved(
                old(cache)@,
                song_id@,
                quality,
                now_ms,
                provider::answer(reply),
            ),
            final(cache)@ == resolve::cache_after(
                old(cache)@,
                song_id@,
                quality,
                now_ms,
                provider::answer(reply),
            ),
    {
        resolve::fetch(song_id, quality, cache, now_ms, reply)
    }
}

/// The anonymous playing address of a song.
pub open spec fn media_address(song_id: Seq<char>) -> Option<Seq<char>> {
    if resolve::is_song_id(song_id) {
        Some("https://music.163.com/song/media/outer/url?id="@ + song_id + ".mp3"@)
    } else {
        None
    }
}

pub fn anonymous_media_url(song_id: &str) -> (r: Option<String>)
    ensures
        match r {
            Some(u) => media_address(song_id@) == Some(u@),
            None => media_address(song_id@) is None,
        },
{
    if !resolve::song_id_ok(song_id) {
        return None;
    }
    let mut s = "https://music.163.com/song/media/outer/url?id=".to_owned();
    s.append(song_id);
    s.append(".mp3");
    Some(s)
}

/// The server's name for a quality.
pub open spec fn quality_name(q: Quality) -> Seq<char> {
    match q {
        Quality::Auto => "exhigh"@,
        Quality::High => "exhigh"@,
        Quality::Low => "standard"@,
        Quality::Medium => "higher"@,
        Quality::Lossless => "lossless"@,
    }
}

pub fn quality_id(q: Quality) -> (r: &'static str)
    ensures
        r@ == quality_name(q),
{
    match q {
        Quality::Auto => "exhigh",
        Quality::High => "exhigh",
        Quality::Low => "standard",
        Quality::Medium => "higher",
        Quality::Lossless => "lossless",
    }
}

/// The cookie to send for a session.
pub fn session_cookie(session: &Session) -> (r: Option<String>)
    ensures
        match r {
            Some(c) => c@ == session@.cookie && c@.len() > 0,
            None => session@.cookie.len() == 0,
        },
{
    session.cookie_header()
}

} // verus!
