//! HTTP as the transport and the sources speak of it.

use vstd::prelude::*;
use crate::text;
use crate::source;
use crate::source::SourceError;
use crate::source::Trouble;

verus! {

/// What an exchange asks for.
#[derive(Clone, Debug)]
pub struct Request {
    pub url: String,
    /// `bytes=0-8191` and the like.
    pub range: Option<String>,
    pub referer: Option<String>,
    pub user_agent: Option<String>,
    pub cookie: Option<String>,
    pub tls: TlsMode,
}

#[derive(Clone, Copy, Debug, PartialEq, Eq, Structural)]
pub enum TlsMode {
    /// Certificate chain and host name are verified.
    Verify,
    /// For the endpoints whose provider pins its own trust.
    Insecure,
}

/// What an exchange gave.
#[derive(Clone, Debug)]
pub struct Response {
    pub status: u16,
    pub content_length: Option<u64>,
    pub content_range: Option<(u64, u64, u64)>,
    pub bytes: Vec<u8>,
}

impl Response {
    pub fn is_partial(&self) -> (r: bool)
        ensures
            r == (self.status == 206),
    {
        self.status == 206
    }

    pub fn is_ok(&self) -> (r: bool)
        ensures
            r == (200 <= self.status < 300),
    {
        200 <= self.status && self.status < 300
    }
}

/// The transport seam.
pub trait HttpClient {
    fn get(&mut self, req: &Request) -> Result<Response, SourceError>;

    /// Gives up a transfer that runs.
    fn cancel(&mut self) -> Result<(), SourceError>;
}

/// What stands before `://`, or the whole address.
pub open spec fn scheme_of(url: Seq<char>) -> Seq<char> {
    match text::find(url, "://"@) {
        Some(i) => url.take(i),
        None => url,
    }
}

fn scheme(url: &str) -> (r: String)
    ensures
        r@ == scheme_of(url@),
{
    let cs = text::chars_of(url);
    let pat = text::chars_of("://");
    match text::find_chars(cs.as_slice(), pat.as_slice()) {
        Some(i) => {
            let r = text::text_of_range(cs.as_slice(), 0, i);
            assert(cs@.subrange(0, i as int) =~= cs@.take(i as int));
            r
        },
        None => url.to_owned(),
    }
}

/// Whether a redirect is followed: only within the same scheme.
pub fn redirect_allowed(from: &str, to: &str) -> (r: bool)
    ensures
        r == (scheme_of(from@) == scheme_of(to@)),
{
    let a = scheme(from);
    let b = scheme(to);
    text::same_text(a.as_str(), b.as_str())
}

/// A redirect never leaves an encrypted scheme for a plain one.
pub proof fn law_no_downgrade(from: Seq<char>, to: Seq<char>)
    requires
        scheme_of(from) == scheme_of(to),
        scheme_of(from) == "https"@,
    ensures
        scheme_of(to) != "http"@,
{
    reveal_strlit("https");
    reveal_strlit("http");
    assert("https"@.len() != "http"@.len());
}

// -------------------------------------------------------------------- streams

/// What the common failure codes mean.
pub open spec fn hint_of(code: u32) -> Seq<char> {
    if code == 0x80431022 {
        "（内存池不足）"@
    } else if code == 0x80431068 {
        "（超时）"@
    } else if code == 0x80431075 {
        "（TLS 握手/证书被拒）"@
    } else if code == 0x80431080 {
        "（被中止）"@
    } else if code == 0x80410104 {
        "（被取消）"@
    } else if code == 0x80435022 {
        "（SSL 内存不足）"@
    } else if code == 0x80435060 {
        "（证书被拒）"@
    } else if code == 0x80436002 {
        "（DNS 解析不到主机）"@
    } else if code == 0x80436003 {
        "（DNS 超时）"@
    } else {
        ""@
    }
}

pub fn vita_error_hint(code: u32) -> (r: &'static str)
    ensures
        r@ == hint_of(code),
{
    if code == 0x80431022 {
        "（内存池不足）"
    } else if code == 0x80431068 {
        "（超时）"
    } else if code == 0x80431075 {
        "（TLS 握手/证书被拒）"
    } else if code == 0x80431080 {
        "（被中止）"
    } else if code == 0x80410104 {
        "（被取消）"
    } else if code == 0x80435022 {
        "（SSL 内存不足）"
    } else if code == 0x80435060 {
        "（证书被拒）"
    } else if code == 0x80436002 {
        "（DNS 解析不到主机）"
    } else if code == 0x80436003 {
        "（DNS 超时）"
    } else {
        ""
    }
}

/// What opening a stream gave: the length that the server claims, a negative one
/// being unknown. An address with a zero character cannot be asked for at all.
pub open spec fn open_outcome(url: Seq<char>, opened: bool, size: i64, err: u32) -> Result<
    Option<u64>,
    Trouble,
> {
    if text::has_zero(url) {
        Err(Trouble::Unsupported)
    } else if !opened {
        Err(
            Trouble::Network(
                "yhttp_stream_open 失败 (0x"@ + text::hex_text(err as nat, 8, true) + ")"@,
            ),
        )
    } else if size >= 0 {
        Ok(Some(size as u64))
    } else {
        Ok(None)
    }
}

pub fn stream_open_result(url: &str, opened: bool, size: i64, err: u32) -> (r: Result<
    Option<u64>,
    SourceError,
>)
    ensures
        match r {
            Ok(n) => open_outcome(url@, opened, size, err) == Ok::<Option<u64>, Trouble>(n),
            Err(e) => open_outcome(url@, opened, size, err) == Err::<Option<u64>, Trouble>(e@),
        },
{
    if text::contains_zero(url) {
        return Err(SourceError::Unsupported);
    }
    if !opened {
        let mut s = "yhttp_stream_open 失败 (0x".to_owned();
        s.append(text::hex_fixed(err as u64, 8, true).as_str());
        s.append(")");
        return Err(SourceError::Network(s));
    }
    if size >= 0 {
        Ok(Some(size as u64))
    } else {
        Ok(None)
    }
}

/// What the transport's answer to a read means: a count, or with a negative one
/// the failure that its error code names. No code, an interrupted socket and an
/// abort all mean that somebody gave the transfer up.
pub open spec fn stream_outcome(n: i64, code: u32) -> Result<nat, Trouble> {
    if n >= 0 {
        Ok(n as nat)
    } else if code == 0 || code == 0x80410104 || code == 0x80431080 {
        Err(Trouble::Cancelled)
    } else {
        Err(
            Trouble::Network(
                "HTTP 流读取失败 0x"@ + text::hex_text(code as nat, 8, true) + hint_of(code),
            ),
        )
    }
}

pub fn stream_read_result(n: i64, code: u32) -> (r: Result<usize, SourceError>)
    requires
        n <= usize::MAX,
    ensures
        source::read_outcome(r) == stream_outcome(n, code),
{
    if n >= 0 {
        return Ok(n as usize);
    }
    if code == 0 || code == 0x80410104 || code == 0x80431080 {
        return Err(SourceError::Cancelled);
    }
    let mut s = "HTTP 流读取失败 0x".to_owned();
    s.append(text::hex_fixed(code as u64, 8, true).as_str());
    s.append(vita_error_hint(code));
    Err(SourceError::Network(s))
}

/// The scheme of an address is what stands before its colon and slashes; a
/// redirect stays in it.
pub proof fn law_redirect_keeps_the_scheme(
    from: &str,
    to: &str,
    r: bool,
    a: Seq<char>,
    b: Seq<char>,
    x: Seq<char>,
    y: Seq<char>,
)
    requires
        call_ensures(redirect_allowed, (from, to), r),
        from@ == a + "://"@ + x,
        to@ == b + "://"@ + y,
        forall|i: int| 0 <= i < a.len() ==> #[trigger] a[i] != ':',
        forall|i: int| 0 <= i < b.len() ==> #[trigger] b[i] != ':',
    ensures
        r <==> a == b,
{
    lemma_scheme(a, x);
    lemma_scheme(b, y);
}

proof fn lemma_scheme(a: Seq<char>, x: Seq<char>)
    requires
        forall|i: int| 0 <= i < a.len() ==> #[trigger] a[i] != ':',
    ensures
        scheme_of(a + "://"@ + x) == a,
{
    reveal_strlit("://");
    let s = a + "://"@ + x;
    let n = a.len() as int;
    assert(s.subrange(n, n + 3) =~= "://"@);
    assert(text::occurs_at(s, "://"@, n));
    assert forall|j: int| 0 <= j < n implies !text::occurs_at(s, "://"@, j) by {
        assert(s.subrange(j, j + 3)[0] == a[j]);
    }
    text::lemma_find_from(s, "://"@, 0);
    assert(s.take(n) =~= a);
}

/// Statuses: 206 is a part, and from 200 to 299 all is well.
pub proof fn law_statuses(a: Response, part: bool, fine: bool)
    requires
        call_ensures(Response::is_partial, (&a,), part),
        call_ensures(Response::is_ok, (&a,), fine),
    ensures
        part <==> a.status == 206,
        fine <==> 200 <= a.status <= 299,
        part ==> fine,
{
}

/// What the transport reads: a count is a count; without a code, and for the two
/// codes of a transfer that was given up, it is cancelled; any other code is told
/// in eight digits.
pub proof fn law_transport_answers(n: i64, code: u32)
    ensures
        n >= 0 ==> stream_outcome(n, code) == Ok::<nat, Trouble>(n as nat),
        n < 0 && (code == 0 || code == 0x80410104 || code == 0x80431080) ==> stream_outcome(n, code)
            == Err::<nat, Trouble>(Trouble::Cancelled),
        n < 0 && code != 0 && code != 0x80410104 && code != 0x80431080 ==> (stream_outcome(n, code)
            matches Err(Trouble::Network(s)) && text::occurs(s, text::hex_text(code as nat, 8, true))),
{
    if n < 0 && code != 0 && code != 0x80410104 && code != 0x80431080 {
        let head = "HTTP 流读取失败 0x"@;
        let h = text::hex_text(code as nat, 8, true);
        let s = head + h + hint_of(code);
        let k = head.len() as int;
        assert(s.subrange(k, k + h.len()) =~= h);
        assert(text::occurs_at(s, h, k));
    }
}

/// An opened stream has the length that the server claims, or none.
pub proof fn law_opened_stream_has_its_length(url: Seq<char>, size: i64, err: u32)
    requires
        !text::has_zero(url),
    ensures
        size >= 0 ==> open_outcome(url, true, size, err) == Ok::<Option<u64>, Trouble>(
            Some(size as u64),
        ),
        size < 0 ==> open_outcome(url, true, size, err) == Ok::<Option<u64>, Trouble>(None),
        open_outcome(url, false, size, err) is Err,
{
}

/// The codes that a listener is told of in words.
pub proof fn law_codes_have_hints(code: u32, r: &'static str)
    requires
        call_ensures(vita_error_hint, (code,), r),
    ensures
        code == 0x80431022 ==> r@ == "（内存池不足）"@,
        code == 0x80431068 ==> r@ == "（超时）"@,
        code == 0x80431075 ==> r@ == "（TLS 握手/证书被拒）"@,
        code == 0x80431080 ==> r@ == "（被中止）"@,
        code == 0x80410104 ==> r@ == "（被取消）"@,
        code == 0x80435022 ==> r@ == "（SSL 内存不足）"@,
        code == 0x80435060 ==> r@ == "（证书被拒）"@,
        code == 0x80436002 ==> r@ == "（DNS 解析不到主机）"@,
        code == 0x80436003 ==> r@ == "（DNS 超时）"@,
        code < 0x80410104 || 0x80436003 < code ==> r@ == ""@,
{
}

/// A failure is told with its code and what is known of it; an address with a zero
/// character is refused before anything else.
pub proof fn law_failures_are_told(code: u32, url: Seq<char>, opened: bool, size: i64)
    ensures
        code != 0 && code != 0x80410104 && code != 0x80431080 ==> stream_outcome(-1i64, code) == Err::<
            nat,
            Trouble,
        >(
            Trouble::Network(
                "HTTP 流读取失败 0x"@ + text::hex_text(code as nat, 8, true) + hint_of(code),
            ),
        ),
        text::has_zero(url) ==> open_outcome(url, opened, size, code) == Err::<
            Option<u64>,
            Trouble,
        >(Trouble::Unsupported),
        !text::has_zero(url) ==> open_outcome(url, false, size, code) == Err::<Option<u64>, Trouble>(
            Trouble::Network(
                "yhttp_stream_open 失败 (0x"@ + text::hex_text(code as nat, 8, true) + ")"@,
            ),
        ),
{
}

} // verus!
