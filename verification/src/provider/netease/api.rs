//! The server's interface: which calls there are, and what goes over the wire.
//!
//! This is the only place that spells out an endpoint.

use vstd::prelude::*;
use crate::text;
use crate::provider::Failure;
use crate::provider::MusicProvider;
use crate::provider::ProviderError;
use crate::provider::Quality;
use crate::provider::netease::crypto;
use crate::provider::netease::crypto::Payload;
use crate::tags::numbers;

verus! {

pub const HOST: &'static str = "https://music.163.com";

/// Title, artists, album and length of a song.
pub const PATH_SONG_DETAIL: &'static str = "/api/v3/song/detail";

/// The playing address of a song.
pub const PATH_SONG_URL_V1: &'static str = "/api/song/enhance/player/url/v1";

pub const PATH_LYRIC: &'static str = "/api/song/lyric";

pub const PATH_PLAYLIST_DETAIL: &'static str = "/api/v6/playlist/detail";

/// How a call is dressed.
#[derive(Clone, Copy, Debug, PartialEq, Eq, Structural)]
pub enum Flavour {
    /// Plain query string.
    Plain,
    /// AES-128-CBC and an RSA-wrapped key.
    WeApi,
    /// AES-128-ECB under a fixed key.
    EApi,
}

/// What a call asks.
#[derive(Clone, Debug)]
pub struct Call {
    pub path: &'static str,
    pub flavour: Flavour,
    /// In the clear; they are encrypted when the call is made.
    pub params: Vec<(String, String)>,
}

/// What a [`Call`] says.
#[verifier::ext_equal]
pub struct CallView {
    pub path: Seq<char>,
    pub flavour: Flavour,
    pub params: Seq<(Seq<char>, Seq<char>)>,
}

impl View for Call {
    type V = CallView;

    open spec fn view(&self) -> CallView {
        CallView {
            path: self.path@,
            flavour: self.flavour,
            params: crypto::pair_texts(self.params@),
        }
    }
}

pub open spec fn encode_type(quality: Quality) -> Seq<char> {
    if quality == Quality::Lossless {
        "flac"@
    } else {
        "mp3"@
    }
}

impl CallView {
    /// The call for a song's playing address.
    pub open spec fn song_url(song_id: Seq<char>, quality: Quality, level: Seq<char>) -> CallView {
        CallView {
            path: PATH_SONG_URL_V1@,
            flavour: Flavour::WeApi,
            params: seq![
                ("ids"@, "["@ + song_id + "]"@),
                ("level"@, level),
                ("encodeType"@, encode_type(quality)),
                ("csrf_token"@, Seq::empty()),
            ],
        }
    }
}

impl Call {
    /// Asks for a song's playing address: FLAC for the lossless level, MP3 for
    /// every other.
    pub fn url_quality(song_id: &str, quality: Quality, level: &str) -> (r: Self)
        ensures
            r@ == CallView::song_url(song_id@, quality, level@),
    {
        let encode: &str = if quality == Quality::Lossless {
            "flac"
        } else {
            "mp3"
        };
        let mut ids = "[".to_owned();
        ids.append(song_id);
        ids.append("]");
        let mut params: Vec<(String, String)> = Vec::new();
        params.push(("ids".to_owned(), ids));
        params.push(("level".to_owned(), level.to_owned()));
        params.push(("encodeType".to_owned(), encode.to_owned()));
        params.push(("csrf_token".to_owned(), String::new()));
        let r = Call { path: PATH_SONG_URL_V1, flavour: Flavour::WeApi, params };
        let ghost want = CallView::song_url(song_id@, quality, level@);
        assert(r@.params =~~= want.params);
        r
    }
}

/// A form to send, and where.
#[derive(Clone, Debug)]
pub struct PostForm {
    pub url: String,
    pub body: String,
    pub referer: String,
    pub cookie: String,
}

/// What a [`PostForm`] says.
#[verifier::ext_equal]
pub struct FormView {
    pub url: Seq<char>,
    pub body: Seq<char>,
    pub referer: Seq<char>,
    pub cookie: Seq<char>,
}

impl View for PostForm {
    type V = FormView;

    open spec fn view(&self) -> FormView {
        FormView {
            url: self.url@,
            body: self.body@,
            referer: self.referer@,
            cookie: self.cookie@,
        }
    }
}

/// `/api/` becomes `/weapi/`, once, behind the host.
pub open spec fn weapi_address(path: Seq<char>) -> Seq<char> {
    let rest = match text::find(path, "/api/"@) {
        Some(i) => path.take(i) + "/weapi/"@ + path.skip(i + 5),
        None => path,
    };
    HOST@ + rest
}

pub fn weapi_url(path: &str) -> (r: String)
    ensures
        r@ == weapi_address(path@),
{
    let cs = text::chars_of(path);
    let n: usize = cs.len();
    let pat = text::chars_of("/api/");
    proof {
        reveal_strlit("/api/");
    }
    let mut out = HOST.to_owned();
    match text::find_chars(cs.as_slice(), pat.as_slice()) {
        Some(i) => {
            let mut rest = text::text_of_range(cs.as_slice(), 0, i);
            rest.append("/weapi/");
            rest.append(text::text_of_range(cs.as_slice(), i + 5, n).as_str());
            assert(cs@.subrange(0, i as int) =~= cs@.take(i as int));
            assert(cs@.subrange(i + 5, n as int) =~= cs@.skip(i + 5));
            out.append(rest.as_str());
        },
        None => {
            out.append(path);
        },
    }
    out
}

/// The form, unless an address or a cookie holds a zero character.
pub open spec fn form_of(url: Seq<char>, body: Seq<char>, cookie: Seq<char>) -> Result<
    FormView,
    Failure,
> {
    if text::has_zero(url) {
        Err(Failure::Network("bad url"@))
    } else if text::has_zero(cookie) {
        Err(Failure::Network("bad cookie"@))
    } else {
        Ok(FormView { url, body, referer: "https://music.163.com/"@, cookie })
    }
}

pub open spec fn form_outcome(r: Result<PostForm, ProviderError>) -> Result<FormView, Failure> {
    match r {
        Ok(f) => Ok(f@),
        Err(e) => Err(e@),
    }
}

pub fn post_form(url: &str, body: &str, cookie: &str) -> (r: Result<PostForm, ProviderError>)
    ensures
        form_outcome(r) == form_of(url@, body@, cookie@),
{
    if text::contains_zero(url) {
        return Err(ProviderError::Network("bad url".to_owned()));
    }
    if text::contains_zero(cookie) {
        return Err(ProviderError::Network("bad cookie".to_owned()));
    }
    let f = PostForm {
        url: url.to_owned(),
        body: body.to_owned(),
        referer: "https://music.163.com/".to_owned(),
        cookie: cookie.to_owned(),
    };
    Ok(f)
}

pub open spec fn key_text(k: Option<String>) -> Seq<char> {
    match k {
        Some(s) => s@,
        None => Seq::empty(),
    }
}

/// The form that carries a payload; without a cookie a desktop client is
/// claimed.
pub open spec fn payload_form(path: Seq<char>, params: Seq<char>, key: Seq<char>, cookie: Seq<char>) -> Result<
    FormView,
    Failure,
> {
    form_of(
        weapi_address(path),
        "params="@ + crypto::form_text(vstd::utf8::encode_utf8(params)) + "&encSecKey="@ + key,
        if cookie.len() == 0 {
            "os=pc"@
        } else {
            cookie
        },
    )
}

pub fn post_payload(path: &str, payload: &Payload, cookie: &str) -> (r: Result<
    PostForm,
    ProviderError,
>)
    ensures
        form_outcome(r) == payload_form(
            path@,
            payload.params@,
            key_text(payload.enc_sec_key),
            cookie@,
        ),
{
    let mut body = "params=".to_owned();
    body.append(crypto::form_escape(payload.params.as_str()).as_str());
    body.append("&encSecKey=");
    match &payload.enc_sec_key {
        Some(k) => {
            body.append(k.as_str());
        },
        None => {
            assert(body@ + Seq::<char>::empty() =~= body@);
        },
    }
    let url = weapi_url(path);
    let cookie: &str = if cookie.is_empty() {
        "os=pc"
    } else {
        cookie
    };
    post_form(url.as_str(), body.as_str(), cookie)
}

/// The form of a `weapi` call with this plain text and secret.
pub open spec fn weapi_form(
    path: Seq<char>,
    plain: Seq<char>,
    secret: Seq<char>,
    cookie: Seq<char>,
) -> Result<FormView, Failure> {
    payload_form(path, crypto::weapi_params(plain, secret), crypto::rsa_text(secret), cookie)
}

/// Dresses a call. `path` is an `/api/` one.
pub fn post_weapi(path: &str, json: &str, cookie: &str, state: &mut u64, tick: u64) -> (r: Result<
    PostForm,
    ProviderError,
>)
    ensures
        *final(state) == crypto::stirred(*old(state), tick),
        form_outcome(r) == weapi_form(path@, json@, crypto::secret_of(*final(state)), cookie@),
{
    let secret = crypto::random_secret(state, tick);
    proof {
        crypto::law_drawn_secret_is_usable(*state);
    }
    match crypto::encrypt_weapi_json(json, secret.as_str()) {
        Ok(payload) => post_payload(path, &payload, cookie),
        Err(_) => Err(ProviderError::Unsupported),
    }
}

/// Dresses a call that is described; only `weapi` calls are made.
pub fn call(c: &Call, cookie: &str, state: &mut u64, tick: u64) -> (r: Result<
    PostForm,
    ProviderError,
>)
    ensures
        c.flavour != Flavour::WeApi ==> form_outcome(r) == Err::<FormView, Failure>(
            Failure::Unsupported,
        ) && *final(state) == *old(state),
        c.flavour == Flavour::WeApi ==> *final(state) == crypto::stirred(*old(state), tick)
            && form_outcome(r) == weapi_form(
            c@.path,
            crypto::object_text(c@.params),
            crypto::secret_of(*final(state)),
            cookie@,
        ),
{
    if c.flavour != Flavour::WeApi {
        return Err(ProviderError::Unsupported);
    }
    match crypto::encrypt_weapi(c.params.as_slice(), state, tick) {
        Ok(payload) => post_payload(c.path, &payload, cookie),
        Err(_) => Err(ProviderError::Unsupported),
    }
}

// --------------------------------------------------------------------- replies

/// What a reply means: `sent` is the number of body bytes or a transport error,
/// `status` the HTTP status. The cookie text ends at its first zero byte.
pub open spec fn reply_of(sent: i32, status: i32, body: Seq<u8>, set_cookie: Seq<u8>) -> Result<
    (Seq<char>, Seq<char>),
    Failure,
> {
    if sent < 0 {
        Err(Failure::Network("post "@ + text::int_text(sent as int)))
    } else if status != 200 {
        Err(Failure::Network("status "@ + text::int_text(status as int)))
    } else {
        let n = if sent < body.len() {
            sent as int
        } else {
            body.len() as int
        };
        let c = match numbers::zero_from(set_cookie, 0) {
            Some(i) => i,
            None => set_cookie.len() as int,
        };
        Ok((text::lossy_text(body.take(n)), text::lossy_text(set_cookie.take(c))))
    }
}

pub open spec fn reply_outcome(r: Result<(String, String), ProviderError>) -> Result<
    (Seq<char>, Seq<char>),
    Failure,
> {
    match r {
        Ok(p) => Ok((p.0@, p.1@)),
        Err(e) => Err(e@),
    }
}

/// Reads a reply: the body, and the cookies that came with it.
pub fn read_reply(sent: i32, status: i32, body: &[u8], set_cookie: &[u8]) -> (r: Result<
    (String, String),
    ProviderError,
>)
    ensures
        reply_outcome(r) == reply_of(sent, status, body@, set_cookie@),
{
    if sent < 0 {
        let mut s = "post ".to_owned();
        s.append(text::dec_i64(sent as i64).as_str());
        return Err(ProviderError::Network(s));
    }
    if status != 200 {
        let mut s = "status ".to_owned();
        s.append(text::dec_i64(status as i64).as_str());
        return Err(ProviderError::Network(s));
    }
    let n: usize = if (sent as usize) < body.len() {
        sent as usize
    } else {
        body.len()
    };
    let part = vstd::slice::slice_subrange(body, 0, n);
    assert(part@ =~= body@.take(n as int));
    let c: usize = match numbers::find_zero(set_cookie, 0) {
        Some(i) => i,
        None => set_cookie.len(),
    };
    let cookie = vstd::slice::slice_subrange(set_cookie, 0, c);
    assert(cookie@ =~= set_cookie@.take(c as int));
    Ok((text::from_utf8_lossy(part), text::from_utf8_lossy(cookie)))
}

/// The name of whichever provider stands behind the seam.
pub fn provider_name<P: MusicProvider>(p: &P) -> (r: &'static str)
    ensures
        r@ == p.label(),
{
    p.name()
}

} // verus!
