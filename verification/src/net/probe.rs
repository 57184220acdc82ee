//! The network probe: which requests it makes, how it judges them, and the
//! report it writes. It runs only where the card asks for it.

use vstd::prelude::*;
use crate::text;
use crate::provider;

verus! {

pub const REPORT: &'static str = "ux0:data/yunyin-netprobe.log";

pub const TLS_DEFAULT: i32 = 0;

pub const TLS_VERIFY: i32 = 1;

// ----------------------------------------------------------------------- names

pub open spec fn stage_text(at: i32) -> Seq<char> {
    if at == 0 {
        "init"@
    } else if at == 1 {
        "create"@
    } else if at == 2 {
        "send"@
    } else if at == 3 {
        "status"@
    } else if at == 4 {
        "read"@
    } else if at == 5 {
        "abort"@
    } else {
        "?"@
    }
}

/// The step at which a request failed.
pub fn stage_name(at: i32) -> (r: &'static str)
    ensures
        r@ == stage_text(at),
{
    if at == 0 {
        "init"
    } else if at == 1 {
        "create"
    } else if at == 2 {
        "send"
    } else if at == 3 {
        "status"
    } else if at == 4 {
        "read"
    } else if at == 5 {
        "abort"
    } else {
        "?"
    }
}

pub open spec fn error_text(code: u32) -> Seq<char> {
    if code == 0x80431022 {
        "OUT_OF_MEMORY"@
    } else if code == 0x80431068 {
        "TIMEOUT"@
    } else if code == 0x80431080 {
        "ABORTED"@
    } else if code == 0x80431075 {
        "SSL (handshake/certificate rejected)"@
    } else if code == 0x80410104 {
        "EINTR (socket read interrupted — abort landed)"@
    } else if code == 0x80436001 {
        "RESOLVER_EPACKET"@
    } else if code == 0x80436002 {
        "RESOLVER_ENODNS (DNS)"@
    } else if code == 0x80436003 {
        "RESOLVER_ETIMEDOUT (DNS)"@
    } else if code == 0x80436005 {
        "RESOLVER_EFORMAT"@
    } else if code == 0x80436006 {
        "RESOLVER_ESERVERFAILURE (DNS)"@
    } else if code == 0x80436009 {
        "RESOLVER_ESERVERREFUSED (DNS)"@
    } else if code == 0x8043600A {
        "RESOLVER_ENORECORD (DNS)"@
    } else if code == 0x80435022 {
        "SSL_OUT_OF_MEMORY"@
    } else if code == 0x80435108 {
        "SSL_INVALID_FORMAT"@
    } else if code == 0x80435060 {
        "HTTPS_CERT (certificate rejected)"@
    } else {
        ""@
    }
}

/// The name of a system error code.
pub fn error_name(code: u32) -> (r: &'static str)
    ensures
        r@ == error_text(code),
{
    if code == 0x80431022 {
        "OUT_OF_MEMORY"
    } else if code == 0x80431068 {
        "TIMEOUT"
    } else if code == 0x80431080 {
        "ABORTED"
    } else if code == 0x80431075 {
        "SSL (handshake/certificate rejected)"
    } else if code == 0x80410104 {
        "EINTR (socket read interrupted — abort landed)"
    } else if code == 0x80436001 {
        "RESOLVER_EPACKET"
    } else if code == 0x80436002 {
        "RESOLVER_ENODNS (DNS)"
    } else if code == 0x80436003 {
        "RESOLVER_ETIMEDOUT (DNS)"
    } else if code == 0x80436005 {
        "RESOLVER_EFORMAT"
    } else if code == 0x80436006 {
        "RESOLVER_ESERVERFAILURE (DNS)"
    } else if code == 0x80436009 {
        "RESOLVER_ESERVERREFUSED (DNS)"
    } else if code == 0x8043600A {
        "RESOLVER_ENORECORD (DNS)"
    } else if code == 0x80435022 {
        "SSL_OUT_OF_MEMORY"
    } else if code == 0x80435108 {
        "SSL_INVALID_FORMAT"
    } else if code == 0x80435060 {
        "HTTPS_CERT (certificate rejected)"
    } else {
        ""
    }
}

pub open spec fn tls_text(mode: i32) -> Seq<char> {
    if mode == TLS_VERIFY {
        "verify"@
    } else {
        "default"@
    }
}

pub fn tls_name(mode: i32) -> (r: &'static str)
    ensures
        r@ == tls_text(mode),
{
    if mode == TLS_VERIFY {
        "verify"
    } else {
        "default"
    }
}

/// What the first bytes of a payload look like.
pub open spec fn magic_text(b: Seq<u8>) -> Seq<char> {
    if provider::reads(b, 0, provider::word_flac()) {
        "FLAC"@
    } else if provider::reads(b, 0, provider::word_id3()) {
        "MP3(ID3)"@
    } else if b.len() >= 2 && b[0] == 0xFF && b[1] >= 0xE0 {
        "MP3(frame)"@
    } else if provider::reads(b, 0, provider::word_oggs()) {
        if text::occurs(provider::first_page(b), provider::word_opus_head()) {
            "OGG/Opus"@
        } else {
            "OGG/Vorbis"@
        }
    } else if b.len() >= 12 && provider::reads(b, 4, provider::word_ftyp()) {
        "M4A(ftyp)"@
    } else if provider::reads(b, 8, provider::word_wave()) {
        "WAV"@
    } else {
        "?"@
    }
}

pub fn magic_of(b: &[u8]) -> (r: &'static str)
    ensures
        r@ == magic_text(b@),
{
    let flac: [u8; 4] = [0x66, 0x4c, 0x61, 0x43];
    assert(flac@ =~= provider::word_flac());
    if text::bytes_at(b, flac.as_slice(), 0) {
        return "FLAC";
    }
    let id3: [u8; 3] = [0x49, 0x44, 0x33];
    assert(id3@ =~= provider::word_id3());
    if text::bytes_at(b, id3.as_slice(), 0) {
        return "MP3(ID3)";
    }
    if b.len() >= 2 && b[0] == 0xFF && b[1] >= 0xE0 {
        return "MP3(frame)";
    }
    let oggs: [u8; 4] = [0x4f, 0x67, 0x67, 0x53];
    assert(oggs@ =~= provider::word_oggs());
    if text::bytes_at(b, oggs.as_slice(), 0) {
        let n: usize = if b.len() < 64 {
            b.len()
        } else {
            64
        };
        let page = vstd::slice::slice_subrange(b, 0, n);
        assert(page@ =~= provider::first_page(b@));
        let opus: [u8; 8] = [0x4f, 0x70, 0x75, 0x73, 0x48, 0x65, 0x61, 0x64];
        assert(opus@ =~= provider::word_opus_head());
        if text::contains_bytes(page, opus.as_slice()) {
            return "OGG/Opus";
        }
        return "OGG/Vorbis";
    }
    let ftyp: [u8; 4] = [0x66, 0x74, 0x79, 0x70];
    assert(ftyp@ =~= provider::word_ftyp());
    if b.len() >= 12 && text::bytes_at(b, ftyp.as_slice(), 4) {
        return "M4A(ftyp)";
    }
    let wave: [u8; 4] = [0x57, 0x41, 0x56, 0x45];
    assert(wave@ =~= provider::word_wave());
    if text::bytes_at(b, wave.as_slice(), 8) {
        return "WAV";
    }
    "?"
}

/// Two upper-case digits for each byte.
pub open spec fn bytes_hex(b: Seq<u8>) -> Seq<char>
    decreases b.len(),
{
    if b.len() == 0 {
        Seq::empty()
    } else {
        bytes_hex(b.drop_last()) + text::hex_text(b.last() as nat, 2, true)
    }
}

pub open spec fn first_four(b: Seq<u8>) -> Seq<u8> {
    if b.len() < 4 {
        b
    } else {
        b.take(4)
    }
}

/// The first four bytes in hexadecimal.
pub fn hex4(b: &[u8]) -> (r: String)
    ensures
        r@ == bytes_hex(first_four(b@)),
{
    let n: usize = if b.len() < 4 {
        b.len()
    } else {
        4
    };
    let mut s = String::new();
    let mut i: usize = 0;
    assert(b@.take(0) =~= Seq::empty());
    while i < n
        invariant
            i <= n <= b@.len(),
            s@ == bytes_hex(b@.take(i as int)),
        decreases n - i,
    {
        assert(b@.take(i + 1).drop_last() =~= b@.take(i as int));
        let two = text::hex_fixed(b[i] as u64, 2, true);
        s.append(two.as_str());
        i += 1;
    }
    assert(b@.take(n as int) =~= first_four(b@));
    s
}

// -------------------------------------------------------------------- attempts

/// What a request showed.
#[derive(Clone, Copy, Debug)]
pub struct ProbeResult {
    pub status: i32,
    pub tls_mode: i32,
    pub err_code: u32,
    pub err_at: i32,
    pub ssl_error: u32,
    pub ssl_detail: u32,
    pub content_length: i64,
    pub range_total: u64,
    pub range_start: i64,
    pub range_end: i64,
    pub redirected: i32,
    pub ca_loaded: i32,
    pub verify_flags: i32,
    pub http_pool: u32,
    pub ssl_pool: u32,
    pub headers_len: i32,
    pub content_type_audio: i32,
    pub bytes_read: i32,
    pub took_ms: u32,
    pub abort_took_ms: u32,
    pub aborted: i32,
}

impl Default for ProbeResult {
    fn default() -> (r: Self)
        ensures
            r.status == 0 && r.err_code == 0 && r.err_at == -1 && r.content_length == -1
                && r.range_total == 0 && r.range_start == -1 && r.range_end == -1 && r.bytes_read == 0
                && r.aborted == 0 && r.took_ms == 0 && r.abort_took_ms == 0 && r.ca_loaded == 0
                && r.verify_flags == 0 && r.ssl_error == 0 && r.ssl_detail == 0 && r.tls_mode == 0
                && r.redirected == 0 && r.http_pool == 0 && r.ssl_pool == 0 && r.headers_len == 0
                && r.content_type_audio == 0,
    {
        ProbeResult {
            status: 0,
            tls_mode: 0,
            err_code: 0,
            err_at: -1,
            ssl_error: 0,
            ssl_detail: 0,
            content_length: -1,
            range_total: 0,
            range_start: -1,
            range_end: -1,
            redirected: 0,
            ca_loaded: 0,
            verify_flags: 0,
            http_pool: 0,
            ssl_pool: 0,
            headers_len: 0,
            content_type_audio: 0,
            bytes_read: 0,
            took_ms: 0,
            abort_took_ms: 0,
            aborted: 0,
        }
    }
}

/// What a request is meant to show.
#[derive(Clone, Copy, Debug, PartialEq, Eq, Structural)]
pub enum Judge {
    /// A partial answer with bytes.
    Range206,
    /// The redirect itself, not what it leads to.
    Redirect302,
    /// A bad certificate is refused; an answer would mean that nothing is
    /// verified.
    CertReject,
    Anything,
}

pub open spec fn judge_text(j: Judge) -> Seq<char> {
    match j {
        Judge::Range206 => "range206"@,
        Judge::Redirect302 => "redirect302"@,
        Judge::CertReject => "cert-reject"@,
        Judge::Anything => "anything"@,
    }
}

/// Whether a request showed what it was meant to show.
pub open spec fn passes(j: Judge, res: ProbeResult) -> bool {
    match j {
        Judge::Range206 => res.status == 206 && res.bytes_read > 0,
        Judge::Redirect302 => res.status == 302,
        Judge::CertReject => res.status == 0,
        Judge::Anything => true,
    }
}

pub open spec fn reason(j: Judge, res: ProbeResult) -> Seq<char> {
    match j {
        Judge::Range206 => if res.status == 206 {
            ""@
        } else {
            "expected 206"@
        },
        Judge::Redirect302 => if res.status == 302 {
            ""@
        } else {
            "expected a visible 302"@
        },
        Judge::CertReject => if res.status == 0 {
            "certificate refused (verification is active)"@
        } else {
            "certificate ACCEPTED: nothing is being verified"@
        },
        Judge::Anything => ""@,
    }
}

impl Judge {
    pub fn name(&self) -> (r: &'static str)
        ensures
            r@ == judge_text(*self),
    {
        match self {
            Judge::Range206 => "range206",
            Judge::Redirect302 => "redirect302",
            Judge::CertReject => "cert-reject",
            Judge::Anything => "anything",
        }
    }

    pub fn verdict(&self, res: &ProbeResult) -> (r: (bool, &'static str))
        ensures
            r.0 == passes(*self, *res),
            r.1@ == reason(*self, *res),
    {
        match self {
            Judge::Range206 => (
                res.status == 206 && res.bytes_read > 0,
                if res.status == 206 {
                    ""
                } else {
                    "expected 206"
                },
            ),
            Judge::Redirect302 => (
                res.status == 302,
                if res.status == 302 {
                    ""
                } else {
                    "expected a visible 302"
                },
            ),
            Judge::CertReject => (
                res.status == 0,
                if res.status == 0 {
                    "certificate refused (verification is active)"
                } else {
                    "certificate ACCEPTED: nothing is being verified"
                },
            ),
            Judge::Anything => (true, ""),
        }
    }
}

pub open spec fn flag_text(b: bool) -> Seq<char> {
    if b {
        "1"@
    } else {
        "0"@
    }
}

fn flag(b: bool) -> (r: &'static str)
    ensures
        r@ == flag_text(b),
{
    if b {
        "1"
    } else {
        "0"
    }
}

pub open spec fn option_text(tls: i32, res: ProbeResult) -> Seq<char> {
    if tls == TLS_VERIFY {
        if res.verify_flags >= 0 {
            "ok"@
        } else {
            "FAILED"@
        }
    } else {
        "n/a"@
    }
}

fn option_name(tls: i32, res: &ProbeResult) -> (r: &'static str)
    ensures
        r@ == option_text(tls, *res),
{
    if tls == TLS_VERIFY {
        if res.verify_flags >= 0 {
            "ok"
        } else {
            "FAILED"
        }
    } else {
        "n/a"
    }
}

pub open spec fn store_text(tls: i32, res: ProbeResult) -> Seq<char> {
    if tls == TLS_VERIFY {
        if res.ca_loaded != 0 {
            "loaded"@
        } else {
            "NOT-LOADED"@
        }
    } else {
        "n/a"@
    }
}

fn store_name(tls: i32, res: &ProbeResult) -> (r: &'static str)
    ensures
        r@ == store_text(tls, *res),
{
    if tls == TLS_VERIFY {
        if res.ca_loaded != 0 {
            "loaded"
        } else {
            "NOT-LOADED"
        }
    } else {
        "n/a"
    }
}

/// The line that announces a request.
pub open spec fn attempt_line(note: Seq<char>, url: Seq<char>, tls: i32, range: Seq<char>) -> Seq<char> {
    "NET attempt   ["@ + note + "] tls="@ + tls_text(tls) + " range="@ + (if range.len() == 0 {
        "-"@
    } else {
        range
    }) + " url="@ + url
}

/// Announces a request; an address with a zero character is not requested.
pub fn attempt_start(note: &str, url: &str, tls: i32, range: &str) -> (r: Result<String, String>)
    ensures
        match r {
            Ok(s) => !text::has_zero(url@) && s@ == attempt_line(note@, url@, tls, range@),
            Err(s) => text::has_zero(url@) && s@ == "NET attempt   URL contains NUL, skipped"@,
        },
{
    if text::contains_zero(url) {
        return Err("NET attempt   URL contains NUL, skipped".to_owned());
    }
    let mut s = "NET attempt   [".to_owned();
    s.append(note);
    s.append("] tls=");
    s.append(tls_name(tls));
    s.append(" range=");
    if range.is_empty() {
        s.append("-");
    } else {
        s.append(range);
    }
    s.append(" url=");
    s.append(url);
    Ok(s)
}

/// What is sent of a range, a referer or a cookie: with a zero character in it,
/// nothing.
pub fn header_value(s: &str) -> (r: String)
    ensures
        r@ == (if text::has_zero(s@) {
            ""@
        } else {
            s@
        }),
{
    if text::contains_zero(s) {
        return "".to_owned();
    }
    s.to_owned()
}

pub open spec fn result_line(res: ProbeResult, tls: i32, auto_redirect: bool) -> Seq<char> {
    "NET result    status="@ + text::int_text(res.status as int) + " bytes="@ + text::int_text(
        res.bytes_read as int,
    ) + " cl="@ + text::int_text(res.content_length as int) + " range="@ + text::int_text(
        res.range_start as int,
    ) + "-"@ + text::int_text(res.range_end as int) + "/"@ + text::dec_text(res.range_total as nat)
        + " audio="@ + text::int_text(res.content_type_audio as int) + " auto_redirect="@ + flag_text(
        auto_redirect,
    ) + " headers="@ + text::int_text(res.headers_len as int) + " took="@ + text::dec_text(
        res.took_ms as nat,
    ) + "ms ca="@ + text::int_text(res.ca_loaded as int) + " enable_option="@ + option_text(tls, res)
        + " http_pool="@ + text::dec_text(res.http_pool as nat) + " ssl_pool="@ + text::dec_text(
        res.ssl_pool as nat,
    )
}

fn make_result_line(res: &ProbeResult, tls: i32, auto_redirect: bool) -> (r: String)
    ensures
        r@ == result_line(*res, tls, auto_redirect),
{
    let mut s = "NET result    status=".to_owned();
    s.append(text::dec_i64(res.status as i64).as_str());
    s.append(" bytes=");
    s.append(text::dec_i64(res.bytes_read as i64).as_str());
    s.append(" cl=");
    s.append(text::dec_i64(res.content_length).as_str());
    s.append(" range=");
    s.append(text::dec_i64(res.range_start).as_str());
    s.append("-");
    s.append(text::dec_i64(res.range_end).as_str());
    s.append("/");
    s.append(text::dec(res.range_total).as_str());
    s.append(" audio=");
    s.append(text::dec_i64(res.content_type_audio as i64).as_str());
    s.append(" auto_redirect=");
    s.append(flag(auto_redirect));
    s.append(" headers=");
    s.append(text::dec_i64(res.headers_len as i64).as_str());
    s.append(" took=");
    s.append(text::dec(res.took_ms as u64).as_str());
    s.append("ms ca=");
    s.append(text::dec_i64(res.ca_loaded as i64).as_str());
    s.append(" enable_option=");
    s.append(option_name(tls, res));
    s.append(" http_pool=");
    s.append(text::dec(res.http_pool as u64).as_str());
    s.append(" ssl_pool=");
    s.append(text::dec(res.ssl_pool as u64).as_str());
    s
}

pub open spec fn payload_line(first: Seq<u8>) -> Seq<char> {
    "NET payload   first="@ + bytes_hex(first_four(first)) + " magic="@ + magic_text(first)
}

pub open spec fn error_line(res: ProbeResult) -> Seq<char> {
    "NET error     stage="@ + stage_text(res.err_at) + " code=0x"@ + text::hex_text(
        res.err_code as nat,
        8,
        true,
    ) + " "@ + error_text(res.err_code)
}

pub open spec fn tls_line(res: ProbeResult) -> Seq<char> {
    "NET tls       ssl_error=0x"@ + text::hex_text(res.ssl_error as nat, 8, true) + " detail=0x"@
        + text::hex_text(res.ssl_detail as nat, 8, true)
}

pub open spec fn pass_text(pass: bool) -> Seq<char> {
    if pass {
        "PASS"@
    } else {
        "CHECK"@
    }
}

fn pass_name(pass: bool) -> (r: &'static str)
    ensures
        r@ == pass_text(pass),
{
    if pass {
        "PASS"
    } else {
        "CHECK"
    }
}

pub open spec fn verdict_line(note: Seq<char>, tls: i32, judge: Judge, res: ProbeResult) -> Seq<char> {
    "NET verdict   ["@ + note + "] "@ + judge_text(judge) + "="@ + text::bool_text(
        passes(judge, res),
    ) + " cert_store="@ + store_text(tls, res) + " enable_option="@ + option_text(tls, res) + " "@
        + pass_text(passes(judge, res)) + " "@ + reason(judge, res)
}

fn make_verdict_line(note: &str, tls: i32, judge: Judge, res: &ProbeResult) -> (r: String)
    ensures
        r@ == verdict_line(note@, tls, judge, *res),
{
    let (pass, why) = judge.verdict(res);
    let mut s = "NET verdict   [".to_owned();
    s.append(note);
    s.append("] ");
    s.append(judge.name());
    s.append("=");
    s.append(text::yes_no(pass));
    s.append(" cert_store=");
    s.append(store_name(tls, res));
    s.append(" enable_option=");
    s.append(option_name(tls, res));
    s.append(" ");
    s.append(pass_name(pass));
    s.append(" ");
    s.append(why);
    s
}

/// The bytes that a request gave.
pub open spec fn given_bytes(res: ProbeResult, buf: Seq<u8>) -> Seq<u8> {
    if res.bytes_read > 0 {
        buf.take(res.bytes_read as int)
    } else {
        Seq::empty()
    }
}

pub open spec fn line_if(when: bool, line: Seq<char>) -> Seq<Seq<char>> {
    if when {
        seq![line]
    } else {
        Seq::empty()
    }
}

/// The report of a request.
pub open spec fn attempt_report(
    note: Seq<char>,
    tls: i32,
    auto_redirect: bool,
    judge: Judge,
    res: ProbeResult,
    buf: Seq<u8>,
) -> Seq<Seq<char>> {
    seq![result_line(res, tls, auto_redirect)] + line_if(
        res.bytes_read > 0,
        payload_line(given_bytes(res, buf)),
    ) + line_if(res.err_code != 0, error_line(res)) + line_if(
        res.ssl_error != 0 || res.ssl_detail != 0,
        tls_line(res),
    ) + seq![verdict_line(note, tls, judge, res)]
}

/// Reports a request: what came back, what it looks like, what failed, and
/// whether it showed what it was meant to show.
pub fn attempt(
    note: &str,
    tls: i32,
    auto_redirect: bool,
    judge: Judge,
    res: &ProbeResult,
    buf: &[u8],
) -> (r: Vec<String>)
    requires
        res.bytes_read <= buf@.len(),
    ensures
        text::texts(r@) == attempt_report(note@, tls, auto_redirect, judge, *res, buf@),
{
    let mut out: Vec<String> = Vec::new();
    let one = make_result_line(res, tls, auto_redirect);
    let ghost l1 = seq![one@];
    out.push(one);
    assert(text::texts(out@) =~= l1);
    let n: usize = if res.bytes_read > 0 {
        res.bytes_read as usize
    } else {
        0
    };
    let first = vstd::slice::slice_subrange(buf, 0, n);
    assert(first@ =~= given_bytes(*res, buf@));
    let ghost l2 = line_if(res.bytes_read > 0, payload_line(given_bytes(*res, buf@)));
    if res.bytes_read > 0 {
        let mut s = "NET payload   first=".to_owned();
        s.append(hex4(first).as_str());
        s.append(" magic=");
        s.append(magic_of(first));
        out.push(s);
    }
    assert(text::texts(out@) =~= l1 + l2);
    let ghost l3 = line_if(res.err_code != 0, error_line(*res));
    if res.err_code != 0 {
        let mut s = "NET error     stage=".to_owned();
        s.append(stage_name(res.err_at));
        s.append(" code=0x");
        s.append(text::hex_fixed(res.err_code as u64, 8, true).as_str());
        s.append(" ");
        s.append(error_name(res.err_code));
        out.push(s);
    }
    assert(text::texts(out@) =~= l1 + l2 + l3);
    let ghost l4 = line_if(res.ssl_error != 0 || res.ssl_detail != 0, tls_line(*res));
    if res.ssl_error != 0 || res.ssl_detail != 0 {
        let mut s = "NET tls       ssl_error=0x".to_owned();
        s.append(text::hex_fixed(res.ssl_error as u64, 8, true).as_str());
        s.append(" detail=0x");
        s.append(text::hex_fixed(res.ssl_detail as u64, 8, true).as_str());
        out.push(s);
    }
    assert(text::texts(out@) =~= l1 + l2 + l3 + l4);
    let last = make_verdict_line(note, tls, judge, res);
    let ghost l5 = seq![last@];
    out.push(last);
    assert(text::texts(out@) =~= l1 + l2 + l3 + l4 + l5);
    out
}

/// A certificate check passes only where nothing was answered: an answer is
/// reported as "not verified".
pub proof fn law_accepted_certificate_fails(res: ProbeResult)
    requires
        res.status != 0,
    ensures
        !passes(Judge::CertReject, res),
        reason(Judge::CertReject, res) == "certificate ACCEPTED: nothing is being verified"@,
{
}

pub open spec fn abort_passes(res: ProbeResult) -> bool {
    res.aborted != 0 && res.abort_took_ms < 1000 && res.bytes_read > 0
}

pub open spec fn abort_line(note: Seq<char>, res: ProbeResult) -> Seq<char> {
    "NET abort     ["@ + note + "] aborted="@ + text::int_text(res.aborted as int)
        + " bytes_in_flight="@ + text::int_text(res.bytes_read as int) + " stop_after_abort="@
        + text::dec_text(res.abort_took_ms as nat) + "ms last_read=0x"@ + text::hex_text(
        res.err_code as nat,
        8,
        true,
    ) + " "@ + error_text(res.err_code)
}

/// Announces a transfer that is to be given up; an address with a zero character
/// is not requested and nothing is said of it.
pub fn abort_start(note: &str, url: &str) -> (r: Option<String>)
    ensures
        match r {
            Some(s) => !text::has_zero(url@) && s@ == "NET abort     ["@ + note@ + "] url="@ + url@,
            None => text::has_zero(url@),
        },
{
    if text::contains_zero(url) {
        return None;
    }
    let mut s = "NET abort     [".to_owned();
    s.append(note);
    s.append("] url=");
    s.append(url);
    Some(s)
}

/// Reports a transfer that was given up: it must have run, and have stopped
/// within a second.
pub fn abort_attempt(note: &str, res: &ProbeResult) -> (r: (String, String))
    ensures
        r.0@ == abort_line(note@, *res),
        r.1@ == "NET verdict   ["@ + note@ + "] abort "@ + pass_text(abort_passes(*res)),
{
    let mut s = "NET abort     [".to_owned();
    s.append(note);
    s.append("] aborted=");
    s.append(text::dec_i64(res.aborted as i64).as_str());
    s.append(" bytes_in_flight=");
    s.append(text::dec_i64(res.bytes_read as i64).as_str());
    s.append(" stop_after_abort=");
    s.append(text::dec(res.abort_took_ms as u64).as_str());
    s.append("ms last_read=0x");
    s.append(text::hex_fixed(res.err_code as u64, 8, true).as_str());
    s.append(" ");
    s.append(error_name(res.err_code));
    let mut v = "NET verdict   [".to_owned();
    v.append(note);
    v.append("] abort ");
    v.append(pass_name(res.aborted != 0 && res.abort_took_ms < 1000 && res.bytes_read > 0));
    (s, v)
}

/// Reports the memory pools.
pub fn memory_report(rc: i32, pool: u32, used: u32, peak: u32, ca_ssl: u32, ca_http: u32) -> (r:
    String)
    ensures
        r@ == "NET memory    rc="@ + text::int_text(rc as int) + " pool="@ + text::dec_text(
            pool as nat,
        ) + "B used="@ + text::dec_text(used as nat) + "B peak="@ + text::dec_text(peak as nat)
            + "B | CA-ready pools: ssl="@ + text::dec_text(ca_ssl as nat) + "B http="@
            + text::dec_text(ca_http as nat)
            + "B  (ssl usage figures are in the lines above)"@,
{
    let mut s = "NET memory    rc=".to_owned();
    s.append(text::dec_i64(rc as i64).as_str());
    s.append(" pool=");
    s.append(text::dec(pool as u64).as_str());
    s.append("B used=");
    s.append(text::dec(used as u64).as_str());
    s.append("B peak=");
    s.append(text::dec(peak as u64).as_str());
    s.append("B | CA-ready pools: ssl=");
    s.append(text::dec(ca_ssl as u64).as_str());
    s.append("B http=");
    s.append(text::dec(ca_http as u64).as_str());
    s.append("B  (ssl usage figures are in the lines above)");
    s
}

// ---------------------------------------------------------------------- the run

/// One request to make.
pub struct Ask {
    pub note: String,
    pub url: String,
    pub referer: String,
    pub cookie: String,
    pub tls: i32,
    pub range: String,
    pub read_cap: usize,
    pub auto_redirect: bool,
    pub judge: Judge,
}

/// What an [`Ask`] says.
#[verifier::ext_equal]
pub struct AskView {
    pub note: Seq<char>,
    pub url: Seq<char>,
    pub referer: Seq<char>,
    pub cookie: Seq<char>,
    pub tls: i32,
    pub range: Seq<char>,
    pub read_cap: usize,
    pub auto_redirect: bool,
    pub judge: Judge,
}

impl View for Ask {
    type V = AskView;

    open spec fn view(&self) -> AskView {
        AskView {
            note: self.note@,
            url: self.url@,
            referer: self.referer@,
            cookie: self.cookie@,
            tls: self.tls,
            range: self.range@,
            read_cap: self.read_cap,
            auto_redirect: self.auto_redirect,
            judge: self.judge,
        }
    }
}

/// One step of a run.
pub enum Step {
    /// Write a line.
    Line(String),
    /// Make a request and report it.
    Attempt(Ask),
    /// Start a transfer and give it up after a while.
    Abort { note: String, url: String, referer: String, tls: i32, wait_ms: u32 },
    /// Report the memory pools.
    Memory,
}

/// What a [`Step`] says.
pub enum StepView {
    Line(Seq<char>),
    Attempt(AskView),
    Abort { note: Seq<char>, url: Seq<char>, referer: Seq<char>, tls: i32, wait_ms: u32 },
    Memory,
}

impl View for Step {
    type V = StepView;

    open spec fn view(&self) -> StepView {
        match self {
            Step::Line(s) => StepView::Line(s@),
            Step::Attempt(a) => StepView::Attempt(a@),
            Step::Abort { note, url, referer, tls, wait_ms } => StepView::Abort {
                note: note@,
                url: url@,
                referer: referer@,
                tls: *tls,
                wait_ms: *wait_ms,
            },
            Step::Memory => StepView::Memory,
        }
    }
}

pub open spec fn steps_of(v: Seq<Step>) -> Seq<StepView> {
    v.map_values(|s: Step| s@)
}

pub const FAVICON: &'static str = "https://music.163.com/favicon.ico";

pub const OUTER: &'static str = "https://music.163.com/song/media/outer/url?id=3346495279.mp3";

pub const HOME: &'static str = "https://music.163.com/";

/// A target that the card names: an address, and a referer on the next line that
/// is not blank.
pub open spec fn custom_target(s: Seq<char>) -> Option<(Seq<char>, Seq<char>)> {
    let lines = full_lines(text::lines_of(s));
    if lines.len() == 0 {
        None
    } else {
        Some(
            (
                text::trimmed(lines[0]),
                if lines.len() > 1 {
                    text::trimmed(lines[1])
                } else {
                    Seq::empty()
                },
            ),
        )
    }
}

/// The lines that are not blank.
pub open spec fn full_lines(lines: Seq<Seq<char>>) -> Seq<Seq<char>>
    decreases lines.len(),
{
    if lines.len() == 0 {
        Seq::empty()
    } else {
        let front = full_lines(lines.drop_last());
        if text::trimmed(lines.last()).len() == 0 {
            front
        } else {
            front.push(lines.last())
        }
    }
}

/// Reads the target that the card names.
pub fn url_file_target(s: &str) -> (r: Option<(String, String)>)
    ensures
        match r {
            Some(t) => custom_target(s@) == Some((t.0@, t.1@)),
            None => custom_target(s@) is None,
        },
{
    let lines = text::lines(s);
    let ghost all = text::lines_of(s@);
    let mut full: Vec<String> = Vec::new();
    let mut i: usize = 0;
    assert(all.take(0) =~= Seq::empty());
    assert(text::texts(full@) =~= Seq::empty());
    while i < lines.len()
        invariant
            i <= lines@.len(),
            all == text::lines_of(s@),
            text::texts(lines@) == all,
            text::texts(full@) == full_lines(all.take(i as int)),
        decreases lines.len() - i,
    {
        assert(all.take(i + 1).drop_last() =~= all.take(i as int));
        assert(all[i as int] == lines@[i as int]@);
        let t = text::trim(lines[i].as_str());
        if !t.as_str().is_empty() {
            let ghost before = text::texts(full@);
            let line = lines[i].as_str().to_owned();
            full.push(line);
            assert(text::texts(full@) =~= before.push(line@));
        }
        i += 1;
    }
    assert(all.take(i as int) =~= all);
    if full.len() == 0 {
        return None;
    }
    assert(text::texts(full@)[0] == full@[0]@);
    let url = text::trim(full[0].as_str());
    let referer: String = if full.len() > 1 {
        assert(text::texts(full@)[1] == full@[1]@);
        text::trim(full[1].as_str())
    } else {
        String::new()
    };
    assert(full@.len() <= 1 ==> referer@ =~= Seq::empty());
    Some((url, referer))
}

pub open spec fn ask_view(
    note: Seq<char>,
    url: Seq<char>,
    referer: Seq<char>,
    cookie: Seq<char>,
    tls: i32,
    range: Seq<char>,
    read_cap: usize,
    auto_redirect: bool,
    judge: Judge,
) -> StepView {
    StepView::Attempt(
        AskView { note, url, referer, cookie, tls, range, read_cap, auto_redirect, judge },
    )
}

fn ask(
    note: &str,
    url: &str,
    referer: &str,
    cookie: &str,
    tls: i32,
    range: &str,
    read_cap: usize,
    auto_redirect: bool,
    judge: Judge,
) -> (r: Step)
    ensures
        r@ == ask_view(
            note@,
            url@,
            referer@,
            cookie@,
            tls,
            range@,
            read_cap,
            auto_redirect,
            judge,
        ),
{
    let a = Ask {
        note: note.to_owned(),
        url: url.to_owned(),
        referer: referer.to_owned(),
        cookie: cookie.to_owned(),
        tls,
        range: range.to_owned(),
        read_cap,
        auto_redirect,
        judge,
    };
    Step::Attempt(a)
}

/// The requests that are made without a target of the card.
pub open spec fn builtin_steps() -> Seq<StepView> {
    seq![
        ask_view(
            "range/206 on API host"@,
            FAVICON@,
            ""@,
            ""@,
            TLS_DEFAULT,
            "bytes=0-2047"@,
            65536,
            true,
            Judge::Range206,
        ),
        ask_view(
            "audio via outer/url -> CDN (302)"@,
            OUTER@,
            HOME@,
            ""@,
            TLS_DEFAULT,
            "bytes=0-65535"@,
            65536,
            true,
            Judge::Range206,
        ),
        ask_view(
            "same chain, certificate verification on"@,
            OUTER@,
            HOME@,
            ""@,
            TLS_VERIFY,
            "bytes=0-65535"@,
            65536,
            true,
            Judge::Range206,
        ),
        ask_view(
            "302 visible (auto-redirect off)"@,
            OUTER@,
            HOME@,
            ""@,
            TLS_DEFAULT,
            "bytes=0-255"@,
            2048,
            false,
            Judge::Redirect302,
        ),
        ask_view(
            "cookie header reaches server"@,
            FAVICON@,
            HOME@,
            "YUNYIN_PROBE=1"@,
            TLS_DEFAULT,
            "bytes=0-255"@,
            4096,
            true,
            Judge::Range206,
        ),
        ask_view(
            "bad certificate (self-signed) — refusal = verification works"@,
            "https://self-signed.badssl.com/"@,
            ""@,
            ""@,
            TLS_VERIFY,
            "bytes=0-255"@,
            2048,
            false,
            Judge::CertReject,
        ),
        ask_view(
            "expired certificate — refusal = validity window is checked"@,
            "https://expired.badssl.com/"@,
            ""@,
            ""@,
            TLS_VERIFY,
            "bytes=0-255"@,
            2048,
            false,
            Judge::CertReject,
        ),
        StepView::Abort {
            note: "outer/url transfer"@,
            url: OUTER@,
            referer: HOME@,
            tls: TLS_DEFAULT,
            wait_ms: 400,
        },
    ]
}

fn builtin_targets() -> (r: Vec<Step>)
    ensures
        steps_of(r@) == builtin_steps(),
{
    let mut v: Vec<Step> = Vec::new();
    v.push(
        ask(
            "range/206 on API host",
            FAVICON,
            "",
            "",
            TLS_DEFAULT,
            "bytes=0-2047",
            65536,
            true,
            Judge::Range206,
        ),
    );
    v.push(
        ask(
            "audio via outer/url -> CDN (302)",
            OUTER,
            HOME,
            "",
            TLS_DEFAULT,
            "bytes=0-65535",
            65536,
            true,
            Judge::Range206,
        ),
    );
    v.push(
        ask(
            "same chain, certificate verification on",
            OUTER,
            HOME,
            "",
            TLS_VERIFY,
            "bytes=0-65535",
            65536,
            true,
            Judge::Range206,
        ),
    );
    v.push(
        ask(
            "302 visible (auto-redirect off)",
            OUTER,
            HOME,
            "",
            TLS_DEFAULT,
            "bytes=0-255",
            2048,
            false,
            Judge::Redirect302,
        ),
    );
    v.push(
        ask(
            "cookie header reaches server",
            FAVICON,
            HOME,
            "YUNYIN_PROBE=1",
            TLS_DEFAULT,
            "bytes=0-255",
            4096,
            true,
            Judge::Range206,
        ),
    );
    v.push(
        ask(
            "bad certificate (self-signed) — refusal = verification works",
            "https://self-signed.badssl.com/",
            "",
            "",
            TLS_VERIFY,
            "bytes=0-255",
            2048,
            false,
            Judge::CertReject,
        ),
    );
    v.push(
        ask(
            "expired certificate — refusal = validity window is checked",
            "https://expired.badssl.com/",
            "",
            "",
            TLS_VERIFY,
            "bytes=0-255",
            2048,
            false,
            Judge::CertReject,
        ),
    );
    v.push(
        Step::Abort {
            note: "outer/url transfer".to_owned(),
            url: OUTER.to_owned(),
            referer: HOME.to_owned(),
            tls: TLS_DEFAULT,
            wait_ms: 400,
        },
    );
    assert(steps_of(v@) =~= builtin_steps());
    v
}

/// The requests that are made for a target of the card.
pub open spec fn custom_steps(url: Seq<char>, referer: Seq<char>) -> Seq<StepView> {
    seq![
        StepView::Line("NET target    custom URL from netprobe.url"@),
        ask_view(
            "custom (netprobe.url)"@,
            url,
            referer,
            ""@,
            TLS_DEFAULT,
            "bytes=0-65535"@,
            65536,
            true,
            Judge::Anything,
        ),
        StepView::Abort { note: "custom"@, url, referer, tls: TLS_DEFAULT, wait_ms: 400 },
    ]
}

/// All steps of a run.
pub open spec fn run_steps(init: i32, online: i32, custom: Option<(Seq<char>, Seq<char>)>) -> Seq<
    StepView,
> {
    let head = seq![
        StepView::Line("=== yunyin Phase 0 network probe ==="@),
        StepView::Line(
            "NET env       init="@ + text::int_text(init as int) + " online="@ + text::int_text(
                online as int,
            ),
        ),
    ];
    let body = match custom {
        Some((url, referer)) => custom_steps(url, referer),
        None => builtin_steps(),
    };
    head + body + seq![StepView::Memory, StepView::Line("=== probe finished ==="@)]
}

pub open spec fn target_view(t: Option<(String, String)>) -> Option<(Seq<char>, Seq<char>)> {
    match t {
        Some(p) => Some((p.0@, p.1@)),
        None => None,
    }
}

/// What a run does, given the state of the network and the target of the card.
pub fn run(init: i32, online: i32, custom: &Option<(String, String)>) -> (r: Vec<Step>)
    ensures
        steps_of(r@) == run_steps(init, online, target_view(*custom)),
{
    let mut out: Vec<Step> = Vec::new();
    out.push(Step::Line("=== yunyin Phase 0 network probe ===".to_owned()));
    let mut s = "NET env       init=".to_owned();
    s.append(text::dec_i64(init as i64).as_str());
    s.append(" online=");
    s.append(text::dec_i64(online as i64).as_str());
    out.push(Step::Line(s));
    let ghost head = steps_of(out@);
    let mut body: Vec<Step> = Vec::new();
    match custom {
        Some((url, referer)) => {
            body.push(Step::Line("NET target    custom URL from netprobe.url".to_owned()));
            body.push(
                ask(
                    "custom (netprobe.url)",
                    url.as_str(),
                    referer.as_str(),
                    "",
                    TLS_DEFAULT,
                    "bytes=0-65535",
                    65536,
                    true,
                    Judge::Anything,
                ),
            );
            body.push(
                Step::Abort {
                    note: "custom".to_owned(),
                    url: url.as_str().to_owned(),
                    referer: referer.as_str().to_owned(),
                    tls: TLS_DEFAULT,
                    wait_ms: 400,
                },
            );
            assert(steps_of(body@) =~= custom_steps(url@, referer@));
        },
        None => {
            body = builtin_targets();
        },
    }
    let ghost middle = steps_of(body@);
    out.append(&mut body);
    assert(steps_of(out@) =~= head + middle);
    out.push(Step::Memory);
    out.push(Step::Line("=== probe finished ===".to_owned()));
    assert(steps_of(out@) =~= run_steps(init, online, target_view(*custom)));
    out
}

// -------------------------------------------------------------------- bookkeeping

/// Whether a probe was started, runs, and how often it ran.
pub struct Probe {
    started: bool,
    running: bool,
    runs: u32,
}

#[verifier::ext_equal]
pub struct ProbeView {
    pub started: bool,
    pub running: bool,
    pub runs: u32,
}

impl View for Probe {
    type V = ProbeView;

    closed spec fn view(&self) -> ProbeView {
        ProbeView { started: self.started, running: self.running, runs: self.runs }
    }
}

impl ProbeView {
    /// Once a run was asked for; while one runs nothing is added.
    pub open spec fn asked(self) -> ProbeView {
        if self.running {
            self
        } else {
            ProbeView {
                running: true,
                runs: if self.runs == u32::MAX {
                    0
                } else {
                    (self.runs + 1) as u32
                },
                ..self
            }
        }
    }

    pub open spec fn told(self, enabled: bool) -> Seq<char> {
        "{\"enabled\":"@ + text::bool_text(enabled) + ",\"started\":"@ + text::bool_text(self.started)
            + ",\"running\":"@ + text::bool_text(self.running) + ",\"runs\":"@ + text::dec_text(
            self.runs as nat,
        ) + ",\"report\":\""@ + REPORT@ + "\"}"@
    }
}

impl Probe {
    pub fn new() -> (r: Self)
        ensures
            r@ == (ProbeView { started: false, running: false, runs: 0 }),
    {
        let r = Probe { started: false, running: false, runs: 0 };
        assert(r@ =~= ProbeView { started: false, running: false, runs: 0 });
        r
    }

    /// Asks for a run at once; the answer says whether one is to begin.
    pub fn run_now(&mut self) -> (r: bool)
        ensures
            r == !old(self)@.running,
            final(self)@ == old(self)@.asked(),
    {
        if self.running {
            return false;
        }
        self.running = true;
        self.runs = if self.runs == u32::MAX {
            0
        } else {
            self.runs + 1
        };
        assert(self@ =~= old(self)@.asked());
        true
    }

    /// Asks for the run at the start: once, and only where the card asks for it.
    pub fn start_once(&mut self, enabled: bool) -> (r: bool)
        ensures
            r == (!old(self)@.started && enabled && !old(self)@.running),
            final(self)@ == (if old(self)@.started || !enabled {
                old(self)@
            } else {
                (ProbeView { started: true, ..old(self)@ }).asked()
            }),
    {
        if self.started || !enabled {
            return false;
        }
        self.started = true;
        assert(self@ =~= ProbeView { started: true, ..old(self)@ });
        self.run_now()
    }

    /// A run is over.
    pub fn finished(&mut self)
        ensures
            final(self)@ == (ProbeView { running: false, ..old(self)@ }),
    {
        self.running = false;
        assert(self@ =~= ProbeView { running: false, ..old(self)@ });
    }

    pub fn state_json(&self, enabled: bool) -> (r: String)
        ensures
            r@ == self@.told(enabled),
    {
        let mut s = "{\"enabled\":".to_owned();
        s.append(text::yes_no(enabled));
        s.append(",\"started\":");
        s.append(text::yes_no(self.started));
        s.append(",\"running\":");
        s.append(text::yes_no(self.running));
        s.append(",\"runs\":");
        s.append(text::dec(self.runs as u64).as_str());
        s.append(",\"report\":\"");
        s.append(REPORT);
        s.append("\"}");
        s
    }
}

/// While a run goes on, asking for another one changes nothing.
pub proof fn law_one_run_at_a_time(p: ProbeView)
    ensures
        p.asked().asked() == p.asked(),
{
}

} // verus!
