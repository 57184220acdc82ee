//! Logging in by scanning a code.
//!
//! The screen only reads the state and uploads a picture that is ready. The
//! dialogue with the server runs beside it: get a key, show it as a code, and
//! ask every two seconds whether it was scanned (801 waiting, 802 scanned, 803
//! confirmed, 800 expired). Each dialogue carries the generation it was started
//! in; a newer start or a logout makes it stale, and a stale dialogue changes
//! nothing.

use vstd::prelude::*;
use crate::host;
use crate::json;
use crate::text;
use crate::provider::Failure;
use crate::provider::ProviderError;
use crate::provider::netease::answer;
use crate::provider::netease::api;
use crate::provider::netease::qr;

verus! {

/// The name under which the cookie is kept.
pub const STORE_KEY: &'static str = "netease_cookie";

/// How often the server is asked.
pub const POLL_ROUNDS: u32 = 50;

pub const KEY_PATH: &'static str = "/api/login/qrcode/unikey";

pub const KEY_JSON: &'static str = "{\"type\":1,\"csrf_token\":\"\"}";

pub const POLL_PATH: &'static str = "/api/login/qrcode/client/login";

pub const FIRST_COOKIE: &'static str = "os=pc";

// --------------------------------------------------------------------- cookies

/// Whether text can be cut to the cookie limit: the cut, where there is one,
/// falls between two characters.
pub open spec fn clippable(s: Seq<char>) -> bool {
    let bytes = vstd::utf8::encode_utf8(text::trimmed(s));
    bytes.len() > 3800 ==> vstd::utf8::is_char_boundary(bytes, 3800)
}

/// The text without white space at its ends, cut to 3800 bytes.
pub open spec fn clipped(s: Seq<char>) -> Seq<char> {
    let t = text::trimmed(s);
    let bytes = vstd::utf8::encode_utf8(t);
    if bytes.len() <= 3800 {
        t
    } else {
        vstd::utf8::decode_utf8(bytes.take(3800))
    }
}

pub fn can_clip(s: &str) -> (r: bool)
    ensures
        r == clippable(s@),
{
    let t = text::trim(s);
    let n: usize = t.as_str().as_bytes().len();
    n <= 3800 || t.as_str().is_char_boundary(3800)
}

pub fn clip_cookie(s: &str) -> (r: String)
    requires
        clippable(s@),
    ensures
        r@ == clipped(s@),
{
    let t = text::trim(s);
    let n: usize = t.as_str().as_bytes().len();
    if n <= 3800 {
        return t;
    }
    let (front, _) = t.as_str().split_at(3800);
    proof {
        let bytes = vstd::utf8::encode_utf8(t@);
        assert(bytes.subrange(0, 3800) =~= bytes.take(3800));
        vstd::utf8::encode_utf8_decode_utf8(front@);
    }
    front.to_owned()
}

/// The part of a cookie before its first equals sign.
pub open spec fn cookie_name(part: Seq<char>) -> Seq<char> {
    text::split_on(part, '=')[0]
}

/// Whether a cookie of this name stands among the parts.
pub open spec fn has_cookie(parts: Seq<Seq<char>>, name: Seq<char>) -> bool {
    exists|k: int|
        0 <= k < parts.len() && {
            let p = text::trimmed(#[trigger] parts[k]);
            p == name || text::begins(p, name + seq!['='])
        }
}

/// `jar` with one more cookie, unless it is empty, nameless or already there.
pub open spec fn with_cookie(jar: Seq<char>, part: Seq<char>) -> Seq<char> {
    let p = text::trimmed(part);
    let name = cookie_name(p);
    if p.len() == 0 || name.len() == 0 || has_cookie(text::split_on(jar, ';'), name) {
        jar
    } else if jar.len() == 0 {
        p
    } else {
        jar + "; "@ + p
    }
}

/// `jar` with the cookies of a list, first to last.
pub open spec fn with_cookies(jar: Seq<char>, parts: Seq<Seq<char>>) -> Seq<char>
    decreases parts.len(),
{
    if parts.len() == 0 {
        jar
    } else {
        with_cookie(with_cookies(jar, parts.drop_last()), parts.last())
    }
}

/// The jar with the cookies that a reply set, before it is cut.
pub open spec fn joined(base: Seq<char>, extra: Seq<char>) -> Seq<char> {
    with_cookies(text::trimmed(base), text::split_on(extra, ';'))
}

fn jar_has(jar: &str, name: &[char]) -> (r: bool)
    ensures
        r == has_cookie(text::split_on(jar@, ';'), name@),
{
    let cs = text::chars_of(jar);
    let parts = text::split(cs.as_slice(), ';');
    let mut with_eq: Vec<char> = vstd::slice::slice_to_vec(name);
    with_eq.push('=');
    assert(with_eq@ =~= name@ + seq!['=']);
    let ghost all = text::split_on(jar@, ';');
    let mut k: usize = 0;
    while k < parts.len()
        invariant
            k <= parts@.len(),
            all == text::split_on(jar@, ';'),
            text::texts(parts@) == all,
            with_eq@ == name@ + seq!['='],
            forall|j: int|
                0 <= j < k ==> {
                    let p = text::trimmed(#[trigger] all[j]);
                    p != name@ && !text::begins(p, name@ + seq!['='])
                },
        decreases parts.len() - k,
    {
        assert(all[k as int] == parts@[k as int]@);
        let p = text::trim(parts[k].as_str());
        let pc = text::chars_of(p.as_str());
        if text::same_chars(pc.as_slice(), name) || text::chars_at(
            pc.as_slice(),
            with_eq.as_slice(),
            0,
        ) {
            return true;
        }
        k += 1;
    }
    false
}

fn add_cookie(jar: String, part: &str) -> (r: String)
    ensures
        r@ == with_cookie(jar@, part@),
{
    let p = text::trim(part);
    if p.as_str().is_empty() {
        return jar;
    }
    let pc = text::chars_of(p.as_str());
    let pieces = text::split(pc.as_slice(), '=');
    let name = text::chars_of(pieces[0].as_str());
    assert(text::texts(pieces@)[0] == pieces@[0]@);
    if name.len() == 0 || jar_has(jar.as_str(), name.as_slice()) {
        return jar;
    }
    if jar.as_str().is_empty() {
        return p;
    }
    let mut out = jar;
    out.append("; ");
    out.append(p.as_str());
    out
}

/// The jar with the cookies that a reply set.
pub fn join_cookie(base: &str, extra: &str) -> (r: String)
    requires
        clippable(joined(base@, extra@)),
    ensures
        r@ == clipped(joined(base@, extra@)),
{
    let all = join_all(base, extra);
    clip_cookie(all.as_str())
}

fn join_all(base: &str, extra: &str) -> (r: String)
    ensures
        r@ == joined(base@, extra@),
{
    let mut out = text::trim(base);
    let ec = text::chars_of(extra);
    let parts = text::split(ec.as_slice(), ';');
    let ghost all = text::split_on(extra@, ';');
    let ghost start = text::trimmed(base@);
    let mut k: usize = 0;
    assert(all.take(0) =~= Seq::empty());
    while k < parts.len()
        invariant
            k <= parts@.len(),
            text::texts(parts@) == all,
            out@ == with_cookies(start, all.take(k as int)),
        decreases parts.len() - k,
    {
        assert(all.take(k + 1).drop_last() =~= all.take(k as int));
        assert(all[k as int] == parts@[k as int]@);
        out = add_cookie(out, parts[k].as_str());
        k += 1;
    }
    assert(all.take(k as int) =~= all);
    out
}

pub open spec fn has_login(s: Seq<char>) -> bool {
    text::occurs(s, "MUSIC_U"@)
}

/// Where the login cookie is found: in the body, in the header, or in the jar.
pub open spec fn login_source(body: Seq<char>, header: Seq<char>, jar: Seq<char>) -> Seq<char> {
    let own = answer::string_of(body, "cookie"@);
    if own is Some && has_login(own->0) {
        own->0
    } else if has_login(header) {
        header
    } else if has_login(jar) {
        jar
    } else {
        Seq::empty()
    }
}

fn find_login(body: &str, header: &str, jar: &str) -> (r: String)
    ensures
        r@ == login_source(body@, header@, jar@),
{
    if let Some(c) = answer::json_string(body, "cookie") {
        if text::contains_text(c.as_str(), "MUSIC_U") {
            return c;
        }
    }
    if text::contains_text(header, "MUSIC_U") {
        return header.to_owned();
    }
    if text::contains_text(jar, "MUSIC_U") {
        return jar.to_owned();
    }
    String::new()
}

pub fn pick_cookie(body: &str, header: &str, jar: &str) -> (r: String)
    requires
        clippable(login_source(body@, header@, jar@)),
    ensures
        r@ == clipped(login_source(body@, header@, jar@)),
{
    let c = find_login(body, header, jar);
    clip_cookie(c.as_str())
}

/// The first `n` characters.
pub open spec fn first_chars(s: Seq<char>, n: nat) -> Seq<char> {
    if s.len() <= n {
        s
    } else {
        s.take(n as int)
    }
}

pub fn clip_chars(s: &str, n: usize) -> (r: String)
    ensures
        r@ == first_chars(s@, n as nat),
{
    let cs = text::chars_of(s);
    if cs.len() <= n {
        return s.to_owned();
    }
    let r = text::text_of_range(cs.as_slice(), 0, n);
    assert(cs@.subrange(0, n as int) =~= cs@.take(n as int));
    r
}

/// A key that may be shown: letters, digits, dashes and underscores, at most 64.
pub open spec fn is_key(s: Seq<char>) -> bool {
    1 <= s.len() <= 64 && forall|i: int|
        0 <= i < s.len() ==> {
            let c = #[trigger] s[i];
            text::is_alnum(c) || c == '-' || c == '_'
        }
}

pub fn key_ok(key: &str) -> (r: bool)
    ensures
        r == is_key(key@),
{
    let cs = text::chars_of(key);
    if cs.len() < 1 || cs.len() > 64 {
        return false;
    }
    let mut i: usize = 0;
    while i < cs.len()
        invariant
            i <= cs@.len(),
            cs@ == key@,
            forall|j: int|
                0 <= j < i ==> {
                    let c = #[trigger] cs@[j];
                    text::is_alnum(c) || c == '-' || c == '_'
                },
        decreases cs.len() - i,
    {
        let c = cs[i];
        if !(text::alnum(c) || c == '-' || c == '_') {
            assert(!text::is_alnum(key@[i as int]));
            return false;
        }
        i += 1;
    }
    true
}

// ----------------------------------------------------------------------- state

/// How far a login is.
#[derive(Clone, Copy, Debug, PartialEq, Eq, Structural)]
pub enum Phase {
    Idle,
    Wait,
    Scanned,
    Expired,
    LoggedIn,
    Fail,
}

pub open spec fn phase_name(p: Phase) -> Seq<char> {
    match p {
        Phase::Idle => "idle"@,
        Phase::Wait => "wait"@,
        Phase::Scanned => "scanned"@,
        Phase::Expired => "expired"@,
        Phase::LoggedIn => "ok"@,
        Phase::Fail => "fail"@,
    }
}

impl Phase {
    pub fn name(&self) -> (r: &'static str)
        ensures
            r@ == phase_name(*self),
    {
        match self {
            Phase::Idle => "idle",
            Phase::Wait => "wait",
            Phase::Scanned => "scanned",
            Phase::Expired => "expired",
            Phase::LoggedIn => "ok",
            Phase::Fail => "fail",
        }
    }
}

/// The login as the screen sees it.
pub struct Login {
    gen: u32,
    phase: Phase,
    hint: String,
    tex: i32,
    pending: Option<Vec<u8>>,
    cookie: String,
    loaded: bool,
}

/// What a [`Login`] holds.
#[verifier::ext_equal]
pub struct LoginView {
    /// The dialogue that counts.
    pub gen: u32,
    pub phase: Phase,
    pub hint: Seq<char>,
    pub tex: i32,
    /// A picture of the code that is not uploaded yet.
    pub pending: Option<Seq<u8>>,
    pub cookie: Seq<char>,
    pub loaded: bool,
}

pub open spec fn next_gen(gen: u32) -> u32 {
    if gen == u32::MAX {
        0
    } else {
        (gen + 1) as u32
    }
}

impl View for Login {
    type V = LoginView;

    closed spec fn view(&self) -> LoginView {
        LoginView {
            gen: self.gen,
            phase: self.phase,
            hint: self.hint@,
            tex: self.tex,
            pending: match self.pending {
                Some(p) => Some(p@),
                None => None,
            },
            cookie: self.cookie@,
            loaded: self.loaded,
        }
    }
}

/// A cookie that was kept and can be used.
pub open spec fn is_saved_login(saved: Seq<char>) -> bool {
    has_login(saved) && vstd::utf8::encode_utf8(saved).len() < 4000 && !text::has_zero(saved)
}

impl LoginView {
    pub open spec fn fresh() -> LoginView {
        LoginView {
            gen: 0,
            phase: Phase::Idle,
            hint: "未登录"@,
            tex: -1i32,
            pending: None,
            cookie: Seq::empty(),
            loaded: false,
        }
    }

    /// Once the kept cookie was looked at; only the first look counts.
    pub open spec fn with_saved(self, saved: Seq<char>) -> LoginView {
        if self.loaded {
            self
        } else if is_saved_login(saved) {
            LoginView { loaded: true, cookie: saved, phase: Phase::LoggedIn, hint: "已登录"@, ..self }
        } else {
            LoginView { loaded: true, phase: Phase::Idle, hint: "未登录"@, ..self }
        }
    }

    /// Once a new dialogue was started.
    pub open spec fn started(self) -> LoginView {
        LoginView {
            gen: next_gen(self.gen),
            phase: Phase::Wait,
            hint: "正在获取二维码"@,
            pending: None,
            tex: -1i32,
            ..self
        }
    }

    /// Once the user logged out.
    pub open spec fn logged_out(self) -> LoginView {
        LoginView {
            gen: next_gen(self.gen),
            cookie: Seq::empty(),
            phase: Phase::Idle,
            hint: "未登录"@,
            pending: None,
            tex: -1i32,
            ..self
        }
    }

    /// Once a dialogue reported; a stale one changes nothing.
    pub open spec fn hinted(self, gen: u32, phase: Phase, hint: Seq<char>) -> LoginView {
        if self.gen == gen {
            LoginView { phase, hint, ..self }
        } else {
            self
        }
    }

    /// The cookie to send with a call: a desktop client is claimed in every one.
    pub open spec fn cookie_to_send(self) -> Seq<char> {
        if self.cookie.len() == 0 {
            "os=pc"@
        } else if text::occurs(self.cookie, "os=pc"@) {
            self.cookie
        } else {
            "os=pc; "@ + self.cookie
        }
    }

    pub open spec fn status(self) -> Seq<char> {
        "{\"phase\":\""@ + phase_name(self.phase) + "\",\"hint\":\""@ + json::escaped(
            first_chars(self.hint, 24),
            true,
        ) + "\",\"tex\":"@ + text::int_text(self.tex as int) + "}"@
    }
}

impl Login {
    pub fn fresh() -> (r: Self)
        ensures
            r@ == LoginView::fresh(),
    {
        let r = Login {
            gen: 0,
            phase: Phase::Idle,
            hint: "未登录".to_owned(),
            tex: -1,
            pending: None,
            cookie: String::new(),
            loaded: false,
        };
        assert(r@ =~= LoginView::fresh());
        r
    }

    /// Whether the kept cookie was looked at.
    pub fn is_loaded(&self) -> (r: bool)
        ensures
            r == self@.loaded,
    {
        self.loaded
    }

    /// Whether a dialogue still counts.
    pub fn alive(&self, gen: u32) -> (r: bool)
        ensures
            r == (self@.gen == gen),
    {
        self.gen == gen
    }

    /// Takes the kept cookie in.
    pub fn load_saved(&mut self, saved: &str)
        ensures
            final(self)@ == old(self)@.with_saved(saved@),
    {
        if self.loaded {
            return;
        }
        self.loaded = true;
        let n: usize = saved.as_bytes().len();
        if text::contains_text(saved, "MUSIC_U") && n < 4000 && !text::contains_zero(saved) {
            self.cookie = saved.to_owned();
            self.phase = Phase::LoggedIn;
            self.hint = "已登录".to_owned();
        } else {
            self.phase = Phase::Idle;
            self.hint = "未登录".to_owned();
        }
        assert(self@ =~= old(self)@.with_saved(saved@));
    }

    pub fn phase(&self) -> (r: Phase)
        ensures
            r == self@.phase,
    {
        self.phase
    }

    pub fn hint(&self) -> (r: &str)
        ensures
            r@ == self@.hint,
    {
        self.hint.as_str()
    }

    pub fn api_cookie(&self) -> (r: String)
        ensures
            r@ == self@.cookie_to_send(),
    {
        if self.cookie.as_str().is_empty() {
            "os=pc".to_owned()
        } else if text::contains_text(self.cookie.as_str(), "os=pc") {
            self.cookie.as_str().to_owned()
        } else {
            let mut s = "os=pc; ".to_owned();
            s.append(self.cookie.as_str());
            s
        }
    }

    /// Starts a dialogue and gives its generation.
    pub fn start(&mut self) -> (gen: u32)
        ensures
            final(self)@ == old(self)@.started(),
            gen == final(self)@.gen,
    {
        self.gen = if self.gen == u32::MAX {
            0
        } else {
            self.gen + 1
        };
        self.phase = Phase::Wait;
        self.hint = "正在获取二维码".to_owned();
        self.pending = None;
        self.tex = -1;
        assert(self@ =~= old(self)@.started());
        self.gen
    }

    /// The dialogue could not be run at all.
    pub fn start_failed(&mut self, gen: u32)
        ensures
            final(self)@ == old(self)@.hinted(gen, Phase::Fail, "登录线程失败"@),
    {
        self.set_hint(gen, Phase::Fail, "登录线程失败");
    }

    /// Logs out. The kept cookie is to be emptied.
    pub fn logout(&mut self)
        ensures
            final(self)@ == old(self)@.logged_out(),
    {
        self.gen = if self.gen == u32::MAX {
            0
        } else {
            self.gen + 1
        };
        self.cookie = String::new();
        self.phase = Phase::Idle;
        self.hint = "未登录".to_owned();
        self.pending = None;
        self.tex = -1;
        assert(self@ =~= old(self)@.logged_out());
    }

    pub fn set_hint(&mut self, gen: u32, phase: Phase, hint: &str)
        ensures
            final(self)@ == old(self)@.hinted(gen, phase, hint@),
    {
        if self.gen == gen {
            self.phase = phase;
            self.hint = hint.to_owned();
            assert(self@ =~= old(self)@.hinted(gen, phase, hint@));
        }
    }

    /// Whether a picture waits to be uploaded.
    pub fn has_picture(&self) -> (r: bool)
        ensures
            r == (self@.pending is Some),
    {
        self.pending.is_some()
    }

    /// The picture to upload, once.
    pub fn take_pending(&mut self) -> (r: Option<Vec<u8>>)
        ensures
            match r {
                Some(p) => old(self)@.pending == Some(p@),
                None => old(self)@.pending is None,
            },
            final(self)@ == (LoginView { pending: None, ..old(self)@ }),
    {
        let p = self.pending.take();
        assert(self@ =~= LoginView { pending: None, ..old(self)@ });
        p
    }

    /// What the screen shows.
    pub fn status_json(&self) -> (r: String)
        ensures
            r@ == self@.status(),
    {
        let mut s = "{\"phase\":\"".to_owned();
        s.append(self.phase.name());
        s.append("\",\"hint\":\"");
        let short = clip_chars(self.hint.as_str(), 24);
        s.append(json::json_escape(short.as_str()).as_str());
        s.append("\",\"tex\":");
        s.append(text::dec_i64(self.tex as i64).as_str());
        s.append("}");
        s
    }

    /// Uploads a picture that is ready, and says what the screen shows. The
    /// second part is the handle of a picture uploaded just now, or -1.
    pub fn state_json(&mut self, ui: &mut pocketjs_core::Ui) -> (r: (String, i32))
        ensures
            r.0@ == final(self)@.status(),
            old(self)@.pending is None ==> r.1 == -1 && final(self)@ == old(self)@ && *final(ui)
                == *old(ui),
            old(self)@.pending is Some ==> final(self)@ == (LoginView {
                pending: None,
                tex: r.1,
                ..old(self)@
            }) && host::uploaded(*old(ui), *final(ui), r.1, old(self)@.pending->0) && (
            old(self)@.pending->0.len() != 262144 ==> r.1 == -1),
    {
        let mut fresh: i32 = -1;
        match self.take_pending() {
            Some(rgba) => {
                fresh = upload_qr(ui, rgba.as_slice());
                self.tex = fresh;
                assert(self@ =~= LoginView { pending: None, tex: fresh, ..old(self)@ });
            },
            None => {
                assert(self@ =~= old(self)@);
            },
        }
        (self.status_json(), fresh)
    }
}

/// Hands the picture of a code to the interface core; a picture of another size
/// is refused.
pub fn upload_qr(ui: &mut pocketjs_core::Ui, rgba: &[u8]) -> (r: i32)
    ensures
        host::uploaded(*old(ui), *final(ui), r, rgba@),
        rgba@.len() != 262144 ==> r == -1,
{
    if rgba.len() != 262144 {
        return -1;
    }
    assert(rgba@.take(262144) =~= rgba@);
    host::upload_texture(ui, rgba, 256, 256)
}

// -------------------------------------------------------------------- dialogue

/// A dialogue that has shown its code.
pub struct Polling {
    gen: u32,
    key: String,
    jar: String,
    misses: u32,
    rounds: u32,
}

/// What a [`Polling`] holds.
#[verifier::ext_equal]
pub struct PollingView {
    pub gen: u32,
    pub key: Seq<char>,
    /// The cookies gathered so far.
    pub jar: Seq<char>,
    /// Failures in a row.
    pub misses: u32,
    /// Questions asked.
    pub rounds: u32,
}

impl View for Polling {
    type V = PollingView;

    closed spec fn view(&self) -> PollingView {
        PollingView {
            gen: self.gen,
            key: self.key@,
            jar: self.jar@,
            misses: self.misses,
            rounds: self.rounds,
        }
    }
}

pub open spec fn code_in(body: Seq<char>) -> int {
    match answer::i32_of(body, "code"@) {
        Some(c) => c,
        None => 0,
    }
}

pub open spec fn message_in(body: Seq<char>, fallback: Seq<char>) -> Seq<char> {
    first_chars(
        match answer::string_of(body, "message"@) {
            Some(m) => m,
            None => fallback,
        },
        24,
    )
}

/// The code that a reply carries, zero where it carries none.
pub fn read_code(body: &str) -> (r: i32)
    ensures
        r == code_in(body@),
{
    match answer::json_i32(body, "code") {
        Some(c) => c,
        None => 0,
    }
}

fn read_message(body: &str, fallback: &str) -> (r: String)
    ensures
        r@ == message_in(body@, fallback@),
{
    match answer::json_string(body, "message") {
        Some(m) => clip_chars(m.as_str(), 24),
        None => clip_chars(fallback, 24),
    }
}

/// The address that the code carries.
pub open spec fn code_address(key: Seq<char>) -> Seq<char> {
    "https://music.163.com/login?codekey="@ + key
}

/// The picture of a key.
pub open spec fn key_picture(key: Seq<char>) -> Option<Seq<u8>> {
    let data = vstd::utf8::encode_utf8(code_address(key));
    match qr::picked_from(data.len(), 1) {
        Some(ver) => Some(qr::picture_of(qr::matrix_of(data, ver), ver.size as int)),
        None => None,
    }
}

/// Why a key reply ends the dialogue; `None` where it goes on.
pub open spec fn key_refusal(reply: Result<(Seq<char>, Seq<char>), Failure>) -> Option<Seq<char>> {
    match reply {
        Err(_) => Some("网络失败"@),
        Ok((body, _)) => if code_in(body) != 200 {
            Some(message_in(body, "拿不到二维码"@))
        } else {
            match answer::string_of(body, "unikey"@) {
                None => Some("没有二维码"@),
                Some(key) => if !is_key(key) {
                    Some("二维码无效"@)
                } else if key_picture(key) is None {
                    Some("二维码画不出来"@)
                } else {
                    None
                },
            }
        },
    }
}

/// The dialogue that a key reply opens: the code is shown and the polling can
/// begin. Nothing comes of a refusal or of a dialogue that is stale.
pub open spec fn polling_of(
    login: LoginView,
    gen: u32,
    reply: Result<(Seq<char>, Seq<char>), Failure>,
) -> Option<PollingView> {
    if login.gen != gen || key_refusal(reply) is Some {
        None
    } else {
        let (body, set_cookie) = reply->Ok_0;
        Some(
            PollingView {
                gen,
                key: answer::string_of(body, "unikey"@)->0,
                jar: clipped(joined(FIRST_COOKIE@, set_cookie)),
                misses: 0,
                rounds: 0,
            },
        )
    }
}

/// The login once a key reply came.
pub open spec fn after_key(
    login: LoginView,
    gen: u32,
    reply: Result<(Seq<char>, Seq<char>), Failure>,
) -> LoginView {
    if login.gen != gen {
        login
    } else {
        match key_refusal(reply) {
            Some(why) => login.hinted(gen, Phase::Fail, why),
            None => {
                let key = answer::string_of(reply->Ok_0.0, "unikey"@)->0;
                LoginView {
                    pending: key_picture(key),
                    phase: Phase::Wait,
                    hint: "请用网易云扫码"@,
                    ..login
                }
            },
        }
    }
}

pub open spec fn polling_view(p: Option<Polling>) -> Option<PollingView> {
    match p {
        Some(x) => Some(x@),
        None => None,
    }
}

/// Whether a reply to the request for a key can be taken: one that opens a
/// dialogue must not have its cookies cut inside a character.
pub open spec fn takes_key(
    login: LoginView,
    gen: u32,
    reply: Result<(Seq<char>, Seq<char>), Failure>,
) -> bool {
    login.gen == gen && key_refusal(reply) is None ==> clippable(
        joined(FIRST_COOKIE@, reply->Ok_0.1),
    )
}

/// The key of a reply that does not end the dialogue.
fn key_of(reply: &Result<(String, String), ProviderError>) -> (r: Option<String>)
    ensures
        r is Some == (key_refusal(api::reply_outcome(*reply)) is None),
{
    let body = match reply {
        Ok(p) => p.0.as_str(),
        Err(_) => {
            return None;
        },
    };
    if read_code(body) != 200 {
        return None;
    }
    match answer::json_string(body, "unikey") {
        Some(key) => {
            if !key_ok(key.as_str()) {
                return None;
            }
            let mut url = "https://music.163.com/login?codekey=".to_owned();
            url.append(key.as_str());
            match qr::pick_version(url.as_str().as_bytes().len()) {
                Some(_) => Some(key),
                None => None,
            }
        },
        None => None,
    }
}

pub fn can_take_key(
    login: &Login,
    gen: u32,
    reply: &Result<(String, String), ProviderError>,
) -> (r: bool)
    ensures
        r == takes_key(login@, gen, api::reply_outcome(*reply)),
{
    if !login.alive(gen) || key_of(reply).is_none() {
        return true;
    }
    match reply {
        Ok(p) => {
            let all = join_all(FIRST_COOKIE, p.1.as_str());
            can_clip(all.as_str())
        },
        Err(_) => true,
    }
}

/// Takes the reply to the request for a key.
pub fn on_key(login: &mut Login, gen: u32, reply: &Result<(String, String), ProviderError>) -> (r:
    Option<Polling>)
    requires
        takes_key(old(login)@, gen, api::reply_outcome(*reply)),
    ensures
        final(login)@ == after_key(old(login)@, gen, api::reply_outcome(*reply)),
        polling_view(r) == polling_of(old(login)@, gen, api::reply_outcome(*reply)),
{
    if !login.alive(gen) {
        return None;
    }
    let (body, set_cookie) = match reply {
        Ok(p) => (p.0.as_str(), p.1.as_str()),
        Err(_) => {
            login.set_hint(gen, Phase::Fail, "网络失败");
            return None;
        },
    };
    if read_code(body) != 200 {
        let msg = read_message(body, "拿不到二维码");
        login.set_hint(gen, Phase::Fail, msg.as_str());
        return None;
    }
    let key = match answer::json_string(body, "unikey") {
        Some(k) => k,
        None => {
            login.set_hint(gen, Phase::Fail, "没有二维码");
            return None;
        },
    };
    if !key_ok(key.as_str()) {
        login.set_hint(gen, Phase::Fail, "二维码无效");
        return None;
    }
    let mut url = "https://music.163.com/login?codekey=".to_owned();
    url.append(key.as_str());
    let rgba = match qr::rgba(url.as_str().as_bytes()) {
        Some(px) => px,
        None => {
            login.set_hint(gen, Phase::Fail, "二维码画不出来");
            return None;
        },
    };
    login.pending = Some(rgba);
    login.phase = Phase::Wait;
    login.hint = "请用网易云扫码".to_owned();
    assert(login@ =~= after_key(old(login)@, gen, api::reply_outcome(*reply)));
    let jar = join_cookie(FIRST_COOKIE, set_cookie);
    let p = Polling { gen, key, jar, misses: 0, rounds: 0 };
    assert(p@ =~= polling_of(old(login)@, gen, api::reply_outcome(*reply))->0);
    Some(p)
}

/// What the dialogue does next.
pub enum Next {
    /// Wait and ask again.
    Again,
    /// It is over.
    Stop,
    /// It is over, and this cookie is to be kept.
    Keep(String),
}

/// What a [`Next`] says.
pub enum NextView {
    Again,
    Stop,
    Keep(Seq<char>),
}

impl View for Next {
    type V = NextView;

    open spec fn view(&self) -> NextView {
        match self {
            Next::Again => NextView::Again,
            Next::Stop => NextView::Stop,
            Next::Keep(c) => NextView::Keep(c@),
        }
    }
}

impl PollingView {
    pub open spec fn alive(self, login: LoginView) -> bool {
        login.gen == self.gen
    }

    /// The question to ask.
    pub open spec fn question(self) -> Seq<char> {
        "{\"key\":\""@ + self.key + "\",\"type\":1,\"csrf_token\":\"\"}"@
    }

    /// The jar once a reply set cookies, before it is cut.
    pub open spec fn jar_with(self, more: Seq<char>) -> Seq<char> {
        joined(self.jar, more)
    }

    /// The dialogue once a reply came.
    pub open spec fn after(self, reply: Result<(Seq<char>, Seq<char>), Failure>) -> PollingView {
        match reply {
            Err(_) => PollingView {
                misses: (self.misses + 1) as u32,
                rounds: (self.rounds + 1) as u32,
                ..self
            },
            Ok((_, more)) => PollingView {
                misses: 0,
                rounds: (self.rounds + 1) as u32,
                jar: if more.len() > 0 {
                    clipped(self.jar_with(more))
                } else {
                    self.jar
                },
                ..self
            },
        }
    }

    /// The login cookie that a confirming reply gives.
    pub open spec fn login_cookie(self, body: Seq<char>, more: Seq<char>) -> Seq<char> {
        clipped(login_source(body, more, self.after(Ok((body, more))).jar))
    }

    /// Whether a reply can be worked on: what it makes the jar and the login
    /// cookie can be cut.
    pub open spec fn can_take(self, body: Seq<char>, more: Seq<char>) -> bool {
        &&& more.len() > 0 ==> clippable(self.jar_with(more))
        &&& code_in(body) == 803 ==> clippable(
            login_source(body, more, self.after(Ok((body, more))).jar),
        )
    }

    /// What a reply says of the login, and whether it ends the dialogue. The
    /// last question asked ends it too.
    pub open spec fn verdict(self, reply: Result<(Seq<char>, Seq<char>), Failure>) -> (
        Option<(Phase, Seq<char>)>,
        bool,
    ) {
        let last = self.rounds + 1 >= POLL_ROUNDS;
        let waiting: (Option<(Phase, Seq<char>)>, bool) = if last {
            (Some((Phase::Expired, "二维码已过期"@)), true)
        } else {
            (None, false)
        };
        match reply {
            Err(_) => if self.misses + 1 >= 4 {
                (Some((Phase::Fail, "轮询失败"@)), true)
            } else {
                waiting
            },
            Ok((body, more)) => {
                let code = code_in(body);
                if code == 801 {
                    waiting
                } else if code == 802 {
                    if last {
                        waiting
                    } else {
                        (Some((Phase::Scanned, "已扫码，请在手机确认"@)), false)
                    }
                } else if code == 803 {
                    if has_login(self.login_cookie(body, more)) {
                        (Some((Phase::LoggedIn, "登录成功"@)), true)
                    } else {
                        (Some((Phase::Fail, "登录没有账号信息"@)), true)
                    }
                } else if code == 800 {
                    (Some((Phase::Expired, "二维码已过期"@)), true)
                } else {
                    (Some((Phase::Fail, message_in(body, "登录失败"@))), true)
                }
            },
        }
    }

    /// Whether a reply confirms the login.
    pub open spec fn confirms(self, reply: Result<(Seq<char>, Seq<char>), Failure>) -> bool {
        reply matches Ok((body, more)) && code_in(body) == 803 && has_login(
            self.login_cookie(body, more),
        )
    }

    /// The login once a reply came.
    pub open spec fn login_after(
        self,
        login: LoginView,
        reply: Result<(Seq<char>, Seq<char>), Failure>,
    ) -> LoginView {
        if login.gen != self.gen {
            login
        } else {
            let told = match self.verdict(reply).0 {
                Some((phase, hint)) => login.hinted(self.gen, phase, hint),
                None => login,
            };
            if self.confirms(reply) {
                let (body, more) = reply->Ok_0;
                LoginView { cookie: self.login_cookie(body, more), ..told }
            } else {
                told
            }
        }
    }

    /// What the dialogue does once a reply came.
    pub open spec fn next(
        self,
        login: LoginView,
        reply: Result<(Seq<char>, Seq<char>), Failure>,
    ) -> NextView {
        if login.gen != self.gen {
            NextView::Stop
        } else if self.confirms(reply) {
            let (body, more) = reply->Ok_0;
            NextView::Keep(self.login_cookie(body, more))
        } else if self.verdict(reply).1 {
            NextView::Stop
        } else {
            NextView::Again
        }
    }
}

impl Polling {
    /// The dialogue's counters before it is over.
    pub open spec fn going(self) -> bool {
        self@.rounds < POLL_ROUNDS && self@.misses < 4
    }

    pub fn gen(&self) -> (r: u32)
        ensures
            r == self@.gen,
    {
        self.gen
    }

    pub fn jar(&self) -> (r: &str)
        ensures
            r@ == self@.jar,
    {
        self.jar.as_str()
    }

    /// The question to ask.
    pub fn poll_json(&self) -> (r: String)
        ensures
            r@ == self@.question(),
    {
        let mut s = "{\"key\":\"".to_owned();
        s.append(self.key.as_str());
        s.append("\",\"type\":1,\"csrf_token\":\"\"}");
        s
    }

    /// Whether a reply can be worked on.
    pub fn can_take_reply(&self, body: &str, more: &str) -> (r: bool)
        ensures
            r == self@.can_take(body@, more@),
    {
        let after: String;
        if !more.is_empty() {
            let all = join_all(self.jar.as_str(), more);
            if !can_clip(all.as_str()) {
                return false;
            }
            after = clip_cookie(all.as_str());
        } else {
            after = self.jar.as_str().to_owned();
        }
        if read_code(body) == 803 {
            let c = find_login(body, more, after.as_str());
            return can_clip(c.as_str());
        }
        true
    }

    /// Takes a reply to the question. A stale dialogue stops.
    pub fn on_poll(&mut self, login: &mut Login, reply: &Result<(String, String), ProviderError>) -> (r:
        Next)
        requires
            old(self).going(),
            reply matches Ok(p) ==> old(self)@.can_take(p.0@, p.1@),
        ensures
            final(self)@ == old(self)@.after(api::reply_outcome(*reply)),
            final(login)@ == old(self)@.login_after(old(login)@, api::reply_outcome(*reply)),
            r@ == old(self)@.next(old(login)@, api::reply_outcome(*reply)),
            r is Again ==> final(self).going(),
    {
        let ghost before = self@;
        let ghost out = api::reply_outcome(*reply);
        let last: bool = self.rounds + 1 >= POLL_ROUNDS;
        self.rounds = self.rounds + 1;
        let (body, more) = match reply {
            Ok(p) => (p.0.as_str(), p.1.as_str()),
            Err(_) => {
                self.misses = self.misses + 1;
                assert(self@ =~= before.after(out));
                if !login.alive(self.gen) {
                    return Next::Stop;
                }
                if self.misses >= 4 {
                    login.set_hint(self.gen, Phase::Fail, "轮询失败");
                    return Next::Stop;
                }
                if last {
                    login.set_hint(self.gen, Phase::Expired, "二维码已过期");
                    return Next::Stop;
                }
                return Next::Again;
            },
        };
        self.misses = 0;
        if !more.is_empty() {
            self.jar = join_cookie(self.jar.as_str(), more);
        }
        assert(self@ =~= before.after(out));
        if !login.alive(self.gen) {
            return Next::Stop;
        }
        let code: i32 = read_code(body);
        if code == 803 {
            let cookie = pick_cookie(body, more, self.jar.as_str());
            if !text::contains_text(cookie.as_str(), "MUSIC_U") {
                login.set_hint(self.gen, Phase::Fail, "登录没有账号信息");
                return Next::Stop;
            }
            login.cookie = cookie.as_str().to_owned();
            login.phase = Phase::LoggedIn;
            login.hint = "登录成功".to_owned();
            assert(login@ =~= before.login_after(old(login)@, out));
            return Next::Keep(cookie);
        }
        if code == 800 {
            login.set_hint(self.gen, Phase::Expired, "二维码已过期");
            return Next::Stop;
        }
        if code != 801 && code != 802 {
            let msg = read_message(body, "登录失败");
            login.set_hint(self.gen, Phase::Fail, msg.as_str());
            return Next::Stop;
        }
        if last {
            login.set_hint(self.gen, Phase::Expired, "二维码已过期");
            return Next::Stop;
        }
        if code == 802 {
            login.set_hint(self.gen, Phase::Scanned, "已扫码，请在手机确认");
        }
        Next::Again
    }
}

// ------------------------------------------------------------------------ laws

/// A stale dialogue changes nothing, whatever the server says.
pub proof fn law_stale_dialogue_is_silent(
    p: PollingView,
    login: LoginView,
    gen: u32,
    reply: Result<(Seq<char>, Seq<char>), Failure>,
)
    requires
        login.gen != gen,
        p.gen == gen,
    ensures
        after_key(login, gen, reply) == login,
        polling_of(login, gen, reply) is None,
        p.login_after(login, reply) == login,
        p.next(login, reply) is Stop,
{
}

/// Starting anew and logging out both make every dialogue of the current
/// generation stale.
pub proof fn law_newer_start_supersedes(login: LoginView)
    ensures
        login.started().gen != login.gen,
        login.logged_out().gen != login.gen,
{
}

/// A cookie is kept only where the server confirmed the login and the cookie
/// names an account; it is then the cookie of the login.
pub proof fn law_kept_cookie_is_a_login(
    p: PollingView,
    login: LoginView,
    reply: Result<(Seq<char>, Seq<char>), Failure>,
)
    ensures
        p.next(login, reply) matches NextView::Keep(c) ==> has_login(c) && p.login_after(
            login,
            reply,
        ).cookie == c && p.login_after(login, reply).phase == Phase::LoggedIn && reply is Ok
            && code_in(reply->Ok_0.0) == 803,
{
}

/// Nothing but a confirmed login changes the cookie during a dialogue.
pub proof fn law_only_confirmation_changes_cookie(
    p: PollingView,
    login: LoginView,
    gen: u32,
    reply: Result<(Seq<char>, Seq<char>), Failure>,
)
    requires
        !(p.next(login, reply) is Keep),
    ensures
        p.login_after(login, reply).cookie == login.cookie,
        after_key(login, gen, reply).cookie == login.cookie,
{
}

/// A dialogue asks at most so many questions.
pub proof fn law_dialogue_ends(
    p: PollingView,
    login: LoginView,
    reply: Result<(Seq<char>, Seq<char>), Failure>,
)
    requires
        p.next(login, reply) is Again,
        p.rounds < POLL_ROUNDS,
    ensures
        p.after(reply).rounds == p.rounds + 1,
        p.after(reply).rounds < POLL_ROUNDS,
{
}

/// Every key that may be shown fits into a code.
pub proof fn law_key_fits_code(key: Seq<char>)
    requires
        is_key(key),
    ensures
        key_picture(key) is Some,
{
    let url = code_address(key);
    reveal_strlit("https://music.163.com/login?codekey=");
    let head = "https://music.163.com/login?codekey="@;
    assert(head.len() == 36);
    assert forall|i: int| 0 <= i < url.len() implies '\0' <= #[trigger] url[i] <= '\u{7f}' by {
        if i >= 36 {
            let c = key[i - 36];
            assert(url[i] == c);
            assert(text::is_alnum(c) || c == '-' || c == '_');
        } else {
            lemma_head_ascii(i);
            assert(url[i] == head[i]);
        }
    }
    vstd::utf8::is_ascii_chars_encode_utf8(url);
    qr::law_capacity(vstd::utf8::encode_utf8(url).len());
}

proof fn lemma_head_ascii(i: int)
    requires
        0 <= i < 36,
    ensures
        '\0' <= "https://music.163.com/login?codekey="@[i] <= '\u{7f}',
{
    reveal_strlit("https://music.163.com/login?codekey=");
    if i < 12 {
        if i < 6 {
            if i == 0 {} else if i == 1 {} else if i == 2 {} else if i == 3 {} else if i == 4 {} else {}
        } else {
            if i == 6 {} else if i == 7 {} else if i == 8 {} else if i == 9 {} else if i == 10 {} else {}
        }
    } else if i < 24 {
        if i < 18 {
            if i == 12 {} else if i == 13 {} else if i == 14 {} else if i == 15 {} else if i == 16 {} else {}
        } else {
            if i == 18 {} else if i == 19 {} else if i == 20 {} else if i == 21 {} else if i == 22 {} else {}
        }
    } else {
        if i < 30 {
            if i == 24 {} else if i == 25 {} else if i == 26 {} else if i == 27 {} else if i == 28 {} else {}
        } else {
            if i == 30 {} else if i == 31 {} else if i == 32 {} else if i == 33 {} else if i == 34 {} else {}
        }
    }
}

} // verus!
