//! What the probe asks for, how it judges, and what its report says.

use vstd::prelude::*;
use crate::net;
use crate::net::probe;
use crate::net::probe::Judge;
use crate::net::probe::Probe;
use crate::net::probe::ProbeResult;
use crate::net::probe::ProbeView;
use crate::net::probe::StepView;
use crate::provider;
use crate::text;
use crate::text_laws;

verus! {

// ----------------------------------------------------------------------- names

/// The steps of a request, in the order in which they come.
pub proof fn law_stages(at: i32, r: &'static str)
    requires
        call_ensures(probe::stage_name, (at,), r),
    ensures
        at == 0 ==> r@ == "init"@,
        at == 1 ==> r@ == "create"@,
        at == 2 ==> r@ == "send"@,
        at == 3 ==> r@ == "status"@,
        at == 4 ==> r@ == "read"@,
        at == 5 ==> r@ == "abort"@,
        at < 0 || 5 < at ==> r@ == "?"@,
{
}

/// The errors of the system that have a name.
pub proof fn law_errors_have_names(code: u32, r: &'static str)
    requires
        call_ensures(probe::error_name, (code,), r),
    ensures
        code == 0x80431022 ==> r@ == "OUT_OF_MEMORY"@,
        code == 0x80431068 ==> r@ == "TIMEOUT"@,
        code == 0x80431080 ==> r@ == "ABORTED"@,
        code == 0x80431075 ==> r@ == "SSL (handshake/certificate rejected)"@,
        code == 0x80410104 ==> r@ == "EINTR (socket read interrupted — abort landed)"@,
        code == 0x80436001 ==> r@ == "RESOLVER_EPACKET"@,
        code == 0x80436002 ==> r@ == "RESOLVER_ENODNS (DNS)"@,
        code == 0x80436003 ==> r@ == "RESOLVER_ETIMEDOUT (DNS)"@,
        code == 0x80436005 ==> r@ == "RESOLVER_EFORMAT"@,
        code == 0x80436006 ==> r@ == "RESOLVER_ESERVERFAILURE (DNS)"@,
        code == 0x80436009 ==> r@ == "RESOLVER_ESERVERREFUSED (DNS)"@,
        code == 0x8043600A ==> r@ == "RESOLVER_ENORECORD (DNS)"@,
        code == 0x80435022 ==> r@ == "SSL_OUT_OF_MEMORY"@,
        code == 0x80435108 ==> r@ == "SSL_INVALID_FORMAT"@,
        code == 0x80435060 ==> r@ == "HTTPS_CERT (certificate rejected)"@,
        code < 0x80410104 || 0x8043600A < code ==> r@ == ""@,
{
}

/// The two ways to make a secure connection.
pub proof fn law_tls_modes(mode: i32, r: &'static str)
    requires
        call_ensures(probe::tls_name, (mode,), r),
    ensures
        mode == 1 ==> r@ == "verify"@,
        mode != 1 ==> r@ == "default"@,
{
}

// -------------------------------------------------------------------- payloads

/// Payloads are told by the words that their formats begin with.
pub proof fn law_payloads_are_told(four: Seq<u8>, rest: Seq<u8>, b: u8)
    requires
        four.len() == 4,
        b >= 0xe0,
    ensures
        probe::magic_text(seq!['f' as u8, 'L' as u8, 'a' as u8, 'C' as u8] + rest) == "FLAC"@,
        probe::magic_text(seq!['I' as u8, 'D' as u8, '3' as u8] + rest) == "MP3(ID3)"@,
        probe::magic_text(seq![0xffu8, b] + rest) == "MP3(frame)"@,
        four[0] != 'f' as u8 ==> probe::magic_text(
            seq!['R' as u8, 'I' as u8, 'F' as u8, 'F' as u8] + four + seq![
                'W' as u8,
                'A' as u8,
                'V' as u8,
                'E' as u8,
            ] + rest,
        ) == "WAV"@,
        probe::magic_text(
            seq![0u8, 0u8, 0u8, four[0]] + seq!['f' as u8, 't' as u8, 'y' as u8, 'p' as u8] + four
                + rest,
        ) == "M4A(ftyp)"@,
        probe::magic_text(Seq::empty()) == "?"@,
{
    let flac = seq!['f' as u8, 'L' as u8, 'a' as u8, 'C' as u8] + rest;
    assert(flac.subrange(0, 4) =~= provider::word_flac());
    let id3 = seq!['I' as u8, 'D' as u8, '3' as u8] + rest;
    assert(id3[0] == 0x49);
    lemma_reads_first(id3, provider::word_flac());
    assert(id3.subrange(0, 3) =~= provider::word_id3());
    let frame = seq![0xffu8, b] + rest;
    assert(frame[0] == 0xff && frame[1] == b);
    lemma_reads_first(frame, provider::word_flac());
    lemma_reads_first(frame, provider::word_id3());
    let wav = seq!['R' as u8, 'I' as u8, 'F' as u8, 'F' as u8] + four + seq![
        'W' as u8,
        'A' as u8,
        'V' as u8,
        'E' as u8,
    ] + rest;
    assert(wav[0] == 0x52);
    lemma_reads_first(wav, provider::word_flac());
    lemma_reads_first(wav, provider::word_id3());
    lemma_reads_first(wav, provider::word_oggs());
    assert(wav.subrange(8, 12) =~= provider::word_wave());
    if provider::reads(wav, 4, provider::word_ftyp()) {
        assert(wav.subrange(4, 8)[0] == wav[4]);
        assert(wav[4] == four[0]);
    }
    let m4a = seq![0u8, 0u8, 0u8, four[0]] + seq!['f' as u8, 't' as u8, 'y' as u8, 'p' as u8] + four
        + rest;
    assert(m4a[0] == 0);
    lemma_reads_first(m4a, provider::word_flac());
    lemma_reads_first(m4a, provider::word_id3());
    lemma_reads_first(m4a, provider::word_oggs());
    assert(m4a.subrange(4, 8) =~= provider::word_ftyp());
}

/// Of two kinds of Ogg files that which names its head in the first 64 bytes is
/// told from the other.
pub proof fn law_ogg_payloads_are_told(front: Seq<u8>, rest: Seq<u8>, other: Seq<u8>)
    requires
        front.len() <= 52,
        forall|i: int| 0 <= i < other.len() ==> #[trigger] other[i] != 'p' as u8,
    ensures
        probe::magic_text(
            seq!['O' as u8, 'g' as u8, 'g' as u8, 'S' as u8] + front + seq![
                'O' as u8,
                'p' as u8,
                'u' as u8,
                's' as u8,
                'H' as u8,
                'e' as u8,
                'a' as u8,
                'd' as u8,
            ] + rest,
        ) == "OGG/Opus"@,
        probe::magic_text(seq!['O' as u8, 'g' as u8, 'g' as u8, 'S' as u8] + other)
            == "OGG/Vorbis"@,
{
    let word = seq![
        'O' as u8,
        'p' as u8,
        'u' as u8,
        's' as u8,
        'H' as u8,
        'e' as u8,
        'a' as u8,
        'd' as u8,
    ];
    let a = seq!['O' as u8, 'g' as u8, 'g' as u8, 'S' as u8] + front + word + rest;
    assert(a[0] == 0x4f);
    lemma_reads_first(a, provider::word_flac());
    lemma_reads_first(a, provider::word_id3());
    assert(a.subrange(0, 4) =~= provider::word_oggs());
    let page = provider::first_page(a);
    let k = 4 + front.len() as int;
    assert(page.subrange(k, k + 8) =~= word);
    assert(word =~= provider::word_opus_head());
    assert(text::occurs_at(page, provider::word_opus_head(), k));
    let b = seq!['O' as u8, 'g' as u8, 'g' as u8, 'S' as u8] + other;
    assert(b[0] == 0x4f);
    lemma_reads_first(b, provider::word_flac());
    lemma_reads_first(b, provider::word_id3());
    assert(b.subrange(0, 4) =~= provider::word_oggs());
    let first = provider::first_page(b);
    if text::occurs(first, provider::word_opus_head()) {
        let i = choose|i: int| #[trigger] text::occurs_at(first, provider::word_opus_head(), i);
        assert(first.subrange(i, i + 8)[1] == first[i + 1]);
        assert(first[i + 1] == b[i + 1]);
        if i + 1 >= 4 {
            assert(b[i + 1] == other[i + 1 - 4]);
        }
    }
}

proof fn lemma_reads_first(b: Seq<u8>, word: Seq<u8>)
    requires
        word.len() > 0,
        b.len() > 0,
    ensures
        provider::reads(b, 0, word) ==> b[0] == word[0],
{
    if provider::reads(b, 0, word) {
        assert(b.subrange(0, word.len() as int)[0] == b[0]);
    }
}

/// The first four bytes are shown, each in two digits.
pub proof fn law_first_bytes_are_shown(b: Seq<u8>)
    ensures
        b.len() >= 4 ==> probe::bytes_hex(probe::first_four(b)) == text::hex_text(
            b[0] as nat,
            2,
            true,
        ) + text::hex_text(b[1] as nat, 2, true) + text::hex_text(b[2] as nat, 2, true)
            + text::hex_text(b[3] as nat, 2, true),
        b.len() < 4 ==> probe::first_four(b) == b,
        probe::bytes_hex(Seq::empty()) == Seq::<char>::empty(),
{
    if b.len() >= 4 {
        let f = b.take(4);
        assert(f.drop_last() =~= b.take(3));
        assert(b.take(3).drop_last() =~= b.take(2));
        assert(b.take(2).drop_last() =~= b.take(1));
        assert(b.take(1).drop_last() =~= b.take(0));
        assert(b.take(0) =~= Seq::empty());
        assert(probe::bytes_hex(b.take(0)) =~= Seq::<char>::empty());
        assert(probe::bytes_hex(b.take(1)) =~= text::hex_text(b[0] as nat, 2, true));
        assert(probe::bytes_hex(b.take(2)) == probe::bytes_hex(b.take(1)) + text::hex_text(
            b[1] as nat,
            2,
            true,
        ));
        assert(probe::bytes_hex(b.take(3)) == probe::bytes_hex(b.take(2)) + text::hex_text(
            b[2] as nat,
            2,
            true,
        ));
    }
}

// -------------------------------------------------------------------- judging

/// A partial answer must be one and have bytes, a redirect must be seen, a bad
/// certificate must have no answer.
pub proof fn law_judgements(j: &Judge, res: &ProbeResult, r: (bool, &'static str))
    requires
        call_ensures(Judge::verdict, (j, res), r),
    ensures
        *j == Judge::Range206 ==> (r.0 <==> res.status == 206 && res.bytes_read >= 1),
        *j == Judge::Range206 && res.status != 206 ==> r.1@ == "expected 206"@,
        *j == Judge::Range206 && res.status == 206 ==> r.1@ == ""@,
        *j == Judge::Redirect302 ==> (r.0 <==> res.status == 302),
        *j == Judge::Redirect302 && !r.0 ==> r.1@ == "expected a visible 302"@,
        *j == Judge::Redirect302 && r.0 ==> r.1@ == ""@,
        *j == Judge::CertReject ==> (r.0 <==> res.status == 0),
        *j == Judge::CertReject && r.0 ==> r.1@ == "certificate refused (verification is active)"@,
        *j == Judge::Anything ==> r.0 && r.1@ == ""@,
{
}

/// Every judgement has its name.
pub proof fn law_judges_have_names()
    ensures
        probe::judge_text(Judge::Range206) == "range206"@,
        probe::judge_text(Judge::Redirect302) == "redirect302"@,
        probe::judge_text(Judge::CertReject) == "cert-reject"@,
        probe::judge_text(Judge::Anything) == "anything"@,
        probe::pass_text(true) == "PASS"@,
        probe::pass_text(false) == "CHECK"@,
{
}

/// A transfer that was given up passes where it ran and stopped within a second.
pub proof fn law_abort_is_judged(note: &str, res: &ProbeResult, r: (String, String))
    requires
        call_ensures(probe::abort_attempt, (note, res), r),
    ensures
        res.aborted != 0 && res.abort_took_ms <= 999 && res.bytes_read >= 1 ==> r.1@
            == "NET verdict   ["@ + note@ + "] abort "@ + "PASS"@,
        res.aborted == 0 || res.abort_took_ms >= 1000 || res.bytes_read <= 0 ==> r.1@
            == "NET verdict   ["@ + note@ + "] abort "@ + "CHECK"@,
        r.0@ == "NET abort     ["@ + note@ + "] aborted="@ + text::int_text(res.aborted as int)
            + " bytes_in_flight="@ + text::int_text(res.bytes_read as int) + " stop_after_abort="@
            + text::dec_text(res.abort_took_ms as nat) + "ms last_read=0x"@ + text::hex_text(
            res.err_code as nat,
            8,
            true,
        ) + " "@ + probe::error_text(res.err_code),
{
}

// --------------------------------------------------------------------- report

/// A request is announced with what it asks for; an address with a zero character
/// is skipped.
pub proof fn law_attempt_is_announced(
    note: &str,
    url: &str,
    tls: i32,
    range: &str,
    r: Result<String, String>,
    sent: String,
)
    requires
        call_ensures(probe::attempt_start, (note, url, tls, range), r),
        call_ensures(probe::header_value, (range,), sent),
    ensures
        r is Ok <==> !text::occurs(url@, seq!['\0']),
        r is Ok && range@.len() > 0 && tls == 1 ==> r->Ok_0@ == "NET attempt   ["@ + note@
            + "] tls="@ + "verify"@ + " range="@ + range@ + " url="@ + url@,
        r is Ok && range@.len() > 0 && tls == 0 ==> r->Ok_0@ == "NET attempt   ["@ + note@
            + "] tls="@ + "default"@ + " range="@ + range@ + " url="@ + url@,
        r is Ok && range@.len() == 0 && tls == 0 ==> r->Ok_0@ == "NET attempt   ["@ + note@
            + "] tls="@ + "default"@ + " range="@ + "-"@ + " url="@ + url@,
        r is Err ==> r->Err_0@ == "NET attempt   URL contains NUL, skipped"@,
        !text::occurs(range@, seq!['\0']) ==> sent@ == range@,
        text::occurs(range@, seq!['\0']) ==> sent@ == ""@,
{
}

/// The line of a result names every number that came back, in its place.
pub proof fn law_result_names_its_numbers(res: ProbeResult, tls: i32, followed: bool)
    ensures
        probe::result_line(res, tls, followed) == "NET result    status="@ + text::int_text(
            res.status as int,
        ) + " bytes="@ + text::int_text(res.bytes_read as int) + " cl="@ + text::int_text(
            res.content_length as int,
        ) + " range="@ + text::int_text(res.range_start as int) + "-"@ + text::int_text(
            res.range_end as int,
        ) + "/"@ + text::dec_text(res.range_total as nat) + " audio="@ + text::int_text(
            res.content_type_audio as int,
        ) + " auto_redirect="@ + (if followed {
            "1"@
        } else {
            "0"@
        }) + " headers="@ + text::int_text(res.headers_len as int) + " took="@ + text::dec_text(
            res.took_ms as nat,
        ) + "ms ca="@ + text::int_text(res.ca_loaded as int) + " enable_option="@ + (if tls != 1 {
            "n/a"@
        } else if res.verify_flags < 0 {
            "FAILED"@
        } else {
            "ok"@
        }) + " http_pool="@ + text::dec_text(res.http_pool as nat) + " ssl_pool="@
            + text::dec_text(res.ssl_pool as nat),
{
}

/// The report of a request begins with the result and ends with the verdict; the
/// payload, the error and the state of the connection stand between them, each
/// where there is one.
pub proof fn law_report_of_a_request(
    note: Seq<char>,
    tls: i32,
    followed: bool,
    j: Judge,
    res: ProbeResult,
    read: Seq<u8>,
    spare: Seq<u8>,
)
    requires
        res.bytes_read == read.len(),
    ensures
        ({
            let out = probe::attempt_report(note, tls, followed, j, res, read + spare);
            let payload = read.len() > 0;
            let failed = res.err_code != 0;
            let secure = res.ssl_error != 0 || res.ssl_detail != 0;
            let at_error = if payload {
                2int
            } else {
                1
            };
            let at_tls = if failed {
                at_error + 1
            } else {
                at_error
            };
            let at_verdict = if secure {
                at_tls + 1
            } else {
                at_tls
            };
            &&& out.len() == at_verdict + 1
            &&& out[0] == probe::result_line(res, tls, followed)
            &&& payload ==> out[1] == "NET payload   first="@ + probe::bytes_hex(
                probe::first_four(read),
            ) + " magic="@ + probe::magic_text(read)
            &&& failed ==> out[at_error] == "NET error     stage="@ + probe::stage_text(res.err_at)
                + " code=0x"@ + text::hex_text(res.err_code as nat, 8, true) + " "@
                + probe::error_text(res.err_code)
            &&& secure ==> out[at_tls] == "NET tls       ssl_error=0x"@ + text::hex_text(
                res.ssl_error as nat,
                8,
                true,
            ) + " detail=0x"@ + text::hex_text(res.ssl_detail as nat, 8, true)
            &&& out[at_verdict] == "NET verdict   ["@ + note + "] "@ + probe::judge_text(j) + "="@
                + (if probe::passes(j, res) {
                "true"@
            } else {
                "false"@
            }) + " cert_store="@ + (if tls != 1 {
                "n/a"@
            } else if res.ca_loaded == 0 {
                "NOT-LOADED"@
            } else {
                "loaded"@
            }) + " enable_option="@ + probe::option_text(tls, res) + " "@ + probe::pass_text(
                probe::passes(j, res),
            ) + " "@ + probe::reason(j, res)
        }),
{
    assert((read + spare).take(read.len() as int) =~= read);
    assert(probe::given_bytes(res, read + spare) =~= read);
}

/// The memory pools are told with their sizes.
pub proof fn law_memory_is_told(
    rc: i32,
    pool: u32,
    used: u32,
    peak: u32,
    ssl: u32,
    http: u32,
    r: String,
)
    requires
        call_ensures(probe::memory_report, (rc, pool, used, peak, ssl, http), r),
    ensures
        r@ == "NET memory    rc="@ + text::int_text(rc as int) + " pool="@ + text::dec_text(
            pool as nat,
        ) + "B used="@ + text::dec_text(used as nat) + "B peak="@ + text::dec_text(peak as nat)
            + "B | CA-ready pools: ssl="@ + text::dec_text(ssl as nat) + "B http="@ + text::dec_text(
            http as nat,
        ) + "B  (ssl usage figures are in the lines above)"@,
{
}

/// The transport's messages stand in the log without white space at their end.
pub proof fn law_transport_messages(message: &[u8], r: Option<String>, line: &str, s: String)
    requires
        call_ensures(net::net_line, (message,), r),
        call_ensures(net::net_log_line, (line,), s),
    ensures
        r is None <==> message@.len() == 0,
        r matches Some(t) ==> t@ == text::trim_end(text::lossy_text(message@)),
        s@ == "[net] "@ + line@,
{
}

// -------------------------------------------------------------------- targets

/// The card's target is its first line with text, and its referer the next one;
/// blank lines and blanks around them do not count.
pub proof fn law_target_of_the_card(url: Seq<char>, referer: Seq<char>, cr: bool)
    requires
        text_laws::is_line(url),
        text_laws::is_line(referer),
        text::has_inked_ends(url),
        text::has_inked_ends(referer),
    ensures
        probe::custom_target(
            text_laws::ended_lines(seq![url, referer], text_laws::line_end(cr)),
        ) == Some((url, referer)),
        probe::custom_target(
            text_laws::ended_lines(seq![Seq::empty(), url, Seq::empty(), referer], text_laws::line_end(cr)),
        ) == Some((url, referer)),
        probe::custom_target(text_laws::ended_lines(seq![url], text_laws::line_end(cr))) == Some(
            (url, Seq::<char>::empty()),
        ),
        probe::custom_target(
            text_laws::ended_lines(seq![Seq::empty()], text_laws::line_end(cr)),
        ) is None,
{
    let none = Seq::<char>::empty();
    text::law_trimmed_is_the_text(none, url, none);
    text::law_trimmed_is_the_text(none, referer, none);
    assert(text_laws::is_line(none));
    lemma_lines_of(seq![url, referer], cr);
    lemma_lines_of(seq![none, url, none, referer], cr);
    lemma_lines_of(seq![url], cr);
    lemma_lines_of(seq![none], cr);
    let e = Seq::<Seq<char>>::empty();
    lemma_full_push(e, url);
    lemma_full_push(e.push(url), referer);
    assert(seq![url, referer] =~= e.push(url).push(referer));
    assert(seq![url] =~= e.push(url));
    lemma_full_push(e, none);
    lemma_full_push(e.push(none), url);
    lemma_full_push(e.push(none).push(url), none);
    lemma_full_push(e.push(none).push(url).push(none), referer);
    assert(seq![none] =~= e.push(none));
    assert(seq![none, url, none, referer] =~= e.push(none).push(url).push(none).push(referer));
}

proof fn lemma_full_push(lines: Seq<Seq<char>>, line: Seq<char>)
    ensures
        probe::full_lines(lines.push(line)) == (if text::trimmed(line).len() == 0 {
            probe::full_lines(lines)
        } else {
            probe::full_lines(lines).push(line)
        }),
        probe::full_lines(Seq::empty()) == Seq::<Seq<char>>::empty(),
{
    assert(lines.push(line).drop_last() =~= lines);
}

proof fn lemma_lines_of(lines: Seq<Seq<char>>, cr: bool)
    requires
        text_laws::are_lines(lines),
    ensures
        text::lines_of(text_laws::ended_lines(lines, text_laws::line_end(cr))) == lines,
{
    let s = text_laws::ended_lines(lines, text_laws::line_end(cr));
    text_laws::law_lines_read_back(lines, cr, Seq::empty());
    assert(s + Seq::<char>::empty() =~= s);
}

/// A run begins with its heading and the state of the network and ends with the
/// memory and its closing line.
pub proof fn law_run_is_framed(
    init: i32,
    online: i32,
    custom: Option<(Seq<char>, Seq<char>)>,
)
    ensures
        ({
            let s = probe::run_steps(init, online, custom);
            let n = s.len() as int;
            &&& custom is Some ==> n == 7
            &&& custom is None ==> n == 12
            &&& s[0] == StepView::Line("=== yunyin Phase 0 network probe ==="@)
            &&& s[1] == StepView::Line(
                "NET env       init="@ + text::int_text(init as int) + " online="@ + text::int_text(
                    online as int,
                ),
            )
            &&& s[n - 2] == StepView::Memory
            &&& s[n - 1] == StepView::Line("=== probe finished ==="@)
        }),
{
}

/// A target of the card is asked for its first 64 KiB, judged by nothing, and then
/// given up after 400 milliseconds.
pub proof fn law_run_asks_for_the_target(
    init: i32,
    online: i32,
    url: Seq<char>,
    referer: Seq<char>,
)
    ensures
        ({
            let s = probe::run_steps(init, online, Some((url, referer)));
            &&& s[2] == StepView::Line("NET target    custom URL from netprobe.url"@)
            &&& s[3] matches StepView::Attempt(a) && a.note == "custom (netprobe.url)"@ && a.url
                == url && a.referer == referer && a.cookie == ""@ && a.tls == 0 && a.range
                == "bytes=0-65535"@ && a.read_cap == 64 * 1024 && a.auto_redirect && a.judge
                == Judge::Anything
            &&& s[4] == (StepView::Abort { note: "custom"@, url, referer, tls: 0, wait_ms: 400 })
        }),
{
}

/// Without a target: a range of the icon, the redirect to the song with and
/// without verification and unfollowed, a cookie, two bad certificates, and a
/// transfer that is given up.
pub proof fn law_run_without_a_target(init: i32, online: i32)
    ensures
        ({
            let s = probe::run_steps(init, online, None);
            let icon = "https://music.163.com/favicon.ico"@;
            let song = "https://music.163.com/song/media/outer/url?id=3346495279.mp3"@;
            let home = "https://music.163.com/"@;
            &&& s[2] matches StepView::Attempt(a) && a.note == "range/206 on API host"@ && a.url
                == icon && a.referer == ""@ && a.cookie == ""@ && a.tls == 0 && a.range
                == "bytes=0-2047"@ && a.read_cap == 65536 && a.auto_redirect && a.judge
                == Judge::Range206
            &&& s[3] matches StepView::Attempt(a) && a.note == "audio via outer/url -> CDN (302)"@
                && a.url == song && a.referer == home && a.cookie == ""@ && a.tls == 0 && a.range
                == "bytes=0-65535"@ && a.read_cap == 65536 && a.auto_redirect && a.judge
                == Judge::Range206
            &&& s[4] matches StepView::Attempt(a) && a.note
                == "same chain, certificate verification on"@ && a.url == song && a.referer == home
                && a.cookie == ""@ && a.tls == 1 && a.range == "bytes=0-65535"@ && a.read_cap
                == 65536 && a.auto_redirect && a.judge == Judge::Range206
            &&& s[5] matches StepView::Attempt(a) && a.note == "302 visible (auto-redirect off)"@
                && a.url == song && a.referer == home && a.cookie == ""@ && a.tls == 0 && a.range
                == "bytes=0-255"@ && a.read_cap == 2048 && !a.auto_redirect && a.judge
                == Judge::Redirect302
            &&& s[6] matches StepView::Attempt(a) && a.note == "cookie header reaches server"@
                && a.url == icon && a.referer == home && a.cookie == "YUNYIN_PROBE=1"@ && a.tls == 0
                && a.range == "bytes=0-255"@ && a.read_cap == 4096 && a.auto_redirect && a.judge
                == Judge::Range206
            &&& s[7] matches StepView::Attempt(a) && a.url == "https://self-signed.badssl.com/"@
                && a.referer == ""@ && a.cookie == ""@ && a.tls == 1 && a.range == "bytes=0-255"@
                && a.read_cap == 2048 && !a.auto_redirect && a.judge == Judge::CertReject && a.note
                == "bad certificate (self-signed) — refusal = verification works"@
            &&& s[8] matches StepView::Attempt(a) && a.url == "https://expired.badssl.com/"@
                && a.referer == ""@ && a.cookie == ""@ && a.tls == 1 && a.range == "bytes=0-255"@
                && a.read_cap == 2048 && !a.auto_redirect && a.judge == Judge::CertReject && a.note
                == "expired certificate — refusal = validity window is checked"@
            &&& s[9] == (StepView::Abort {
                note: "outer/url transfer"@,
                url: song,
                referer: home,
                tls: 0,
                wait_ms: 400,
            })
        }),
{
}

// ----------------------------------------------------------------- bookkeeping

/// A run begins where none goes on, and is counted.
pub proof fn law_runs_are_counted(p: &mut Probe, begins: bool)
    requires
        call_ensures(Probe::run_now, (p,), begins),
        p@.runs < u32::MAX,
    ensures
        begins <==> !old(p)@.running,
        final(p)@.running,
        begins ==> final(p)@.runs == old(p)@.runs + 1,
        !begins ==> final(p)@.runs == old(p)@.runs,
        final(p)@.started == old(p)@.started,
{
}

/// The run at the start comes once, and only where the card asks for it.
pub proof fn law_start_comes_once(p: &mut Probe, enabled: bool, begins: bool, q: &mut Probe, again: bool)
    requires
        call_ensures(Probe::start_once, (p, enabled), begins),
        call_ensures(Probe::start_once, (q, enabled), again),
        q@.started,
    ensures
        begins <==> enabled && !old(p)@.started && !old(p)@.running,
        begins ==> final(p)@.started && final(p)@.running,
        !enabled ==> final(p)@ == old(p)@,
        !again && final(q)@ == old(q)@,
{
}

/// A run that is over lets the next one begin.
pub proof fn law_finished_run_makes_room(p: &mut Probe, fresh: Probe)
    requires
        call_ensures(Probe::finished, (p,), ()),
        call_ensures(Probe::new, (), fresh),
    ensures
        !final(p)@.running,
        final(p)@.runs == old(p)@.runs,
        final(p)@.started == old(p)@.started,
        !fresh@.running && !fresh@.started && fresh@.runs == 0,
{
}

/// What the screen is told of the probe.
pub proof fn law_probe_is_told(p: ProbeView, enabled: bool)
    ensures
        p.told(enabled) == "{\"enabled\":"@ + (if enabled {
            "true"@
        } else {
            "false"@
        }) + ",\"started\":"@ + (if p.started {
            "true"@
        } else {
            "false"@
        }) + ",\"running\":"@ + (if p.running {
            "true"@
        } else {
            "false"@
        }) + ",\"runs\":"@ + text::dec_text(p.runs as nat) + ",\"report\":\""@
            + "ux0:data/yunyin-netprobe.log"@ + "\"}"@,
{
}

} // verus!
