use yunyin::net;
use yunyin::net::http;
use yunyin::net::http::Response;
use yunyin::net::probe;
use yunyin::net::probe::Judge;
use yunyin::net::probe::Probe;
use yunyin::net::probe::ProbeResult;
use yunyin::net::probe::Step;
use yunyin::source::SourceError;

fn response(status: u16) -> Response {
    Response { status, content_length: None, content_range: None, bytes: Vec::new() }
}

#[test]
fn responses_know_their_kind() {
    assert!(response(206).is_partial() && response(206).is_ok());
    assert!(!response(200).is_partial() && response(200).is_ok());
    assert!(!response(300).is_ok());
    assert!(!response(199).is_ok());
    assert_eq!(net::state(), net::NetState::Absent);
}

#[test]
fn redirects_stay_in_their_scheme() {
    assert!(http::redirect_allowed("https://a/x", "https://b/y"));
    assert!(!http::redirect_allowed("https://a/x", "http://a/x"));
    assert!(!http::redirect_allowed("http://a/x", "https://a/x"));
    assert!(!http::redirect_allowed("HTTPS://a", "https://a"));
    assert!(http::redirect_allowed("x", "x"));
}

#[test]
fn stream_openings_are_judged() {
    assert_eq!(http::stream_open_result("http://a", true, 5, 0), Ok(Some(5)));
    assert_eq!(http::stream_open_result("http://a", true, -1, 0), Ok(None));
    assert_eq!(http::stream_open_result("http://a\0b", true, 5, 0), Err(SourceError::Unsupported));
    assert_eq!(
        http::stream_open_result("http://a", false, -1, 0x80431068),
        Err(SourceError::Network("yhttp_stream_open 失败 (0x80431068)".to_string()))
    );
}

#[test]
fn stream_reads_are_judged() {
    assert_eq!(http::stream_read_result(7, 1), Ok(7));
    for code in [0, 0x80410104, 0x80431080] {
        assert_eq!(http::stream_read_result(-1, code), Err(SourceError::Cancelled));
    }
    assert_eq!(
        http::stream_read_result(-1, 0x80431068),
        Err(SourceError::Network("HTTP 流读取失败 0x80431068（超时）".to_string()))
    );
    assert_eq!(
        http::stream_read_result(-9, 0xABC),
        Err(SourceError::Network("HTTP 流读取失败 0x00000ABC".to_string()))
    );
}

#[test]
fn hints_explain_codes() {
    assert_eq!(http::vita_error_hint(0x80436002), "（DNS 解析不到主机）");
    assert_eq!(http::vita_error_hint(0x80431022), "（内存池不足）");
    assert_eq!(http::vita_error_hint(0x80431075), "（TLS 握手/证书被拒）");
    assert_eq!(http::vita_error_hint(0x80431080), "（被中止）");
    assert_eq!(http::vita_error_hint(0x80410104), "（被取消）");
    assert_eq!(http::vita_error_hint(0x80435022), "（SSL 内存不足）");
    assert_eq!(http::vita_error_hint(0x80435060), "（证书被拒）");
    assert_eq!(http::vita_error_hint(0x80436003), "（DNS 超时）");
    assert_eq!(http::vita_error_hint(1), "");
}

#[test]
fn transport_messages_lose_their_ends() {
    assert_eq!(net::net_line(b"hello \r\n"), Some("hello".to_string()));
    assert_eq!(net::net_line(b""), None);
    assert_eq!(net::net_line(&[b' ', 0xff, b'\n']), Some(" \u{fffd}".to_string()));
    assert_eq!(net::net_log_line("x"), "[net] x");
}

#[test]
fn names_of_stages_and_errors() {
    let stages: Vec<&str> = (0..7).map(probe::stage_name).collect();
    assert_eq!(stages, vec!["init", "create", "send", "status", "read", "abort", "?"]);
    assert_eq!(probe::stage_name(-1), "?");
    assert_eq!(probe::error_name(0x80431068), "TIMEOUT");
    assert_eq!(probe::error_name(0x8043600A), "RESOLVER_ENORECORD (DNS)");
    assert_eq!(probe::error_name(0), "");
    assert_eq!(probe::tls_name(1), "verify");
    assert_eq!(probe::tls_name(0), "default");
}

#[test]
fn payloads_are_recognised() {
    assert_eq!(probe::magic_of(b"fLaC"), "FLAC");
    assert_eq!(probe::magic_of(b"ID3"), "MP3(ID3)");
    assert_eq!(probe::magic_of(&[0xff, 0xe0]), "MP3(frame)");
    assert_eq!(probe::magic_of(b"OggS....OpusHead"), "OGG/Opus");
    assert_eq!(probe::magic_of(b"OggS"), "OGG/Vorbis");
    assert_eq!(probe::magic_of(b"....ftypM4A."), "M4A(ftyp)");
    assert_eq!(probe::magic_of(b"RIFF....WAVE"), "WAV");
    assert_eq!(probe::magic_of(b"<html"), "?");
    assert_eq!(probe::hex4(&[0x0a, 0xff, 1, 2, 3]), "0AFF0102");
    assert_eq!(probe::hex4(&[7]), "07");
}

#[test]
fn attempts_are_announced() {
    assert_eq!(
        probe::attempt_start("n", "http://a", 1, ""),
        Ok("NET attempt   [n] tls=verify range=- url=http://a".to_string())
    );
    assert_eq!(
        probe::attempt_start("n", "http://a", 0, "bytes=0-1"),
        Ok("NET attempt   [n] tls=default range=bytes=0-1 url=http://a".to_string())
    );
    assert_eq!(
        probe::attempt_start("n", "a\0", 0, ""),
        Err("NET attempt   URL contains NUL, skipped".to_string())
    );
    assert_eq!(probe::abort_start("c", "u"), Some("NET abort     [c] url=u".to_string()));
    assert_eq!(probe::abort_start("c", "u\0"), None);
    assert_eq!(probe::header_value("a=b"), "a=b");
    assert_eq!(probe::header_value("a\0b"), "");
}

#[test]
fn attempts_are_reported() {
    let mut res = ProbeResult::default();
    res.status = 206;
    res.bytes_read = 4;
    res.content_length = 4;
    res.range_start = 0;
    res.range_end = 3;
    res.range_total = 99;
    res.took_ms = 12;
    res.ca_loaded = 1;
    let lines = probe::attempt("n", 1, true, Judge::Range206, &res, b"fLaC");
    assert_eq!(
        lines,
        vec![
            "NET result    status=206 bytes=4 cl=4 range=0-3/99 audio=0 auto_redirect=1 headers=0 took=12ms ca=1 enable_option=ok http_pool=0 ssl_pool=0",
            "NET payload   first=664C6143 magic=FLAC",
            "NET verdict   [n] range206=true cert_store=loaded enable_option=ok PASS ",
        ]
    );
}

#[test]
fn failed_attempts_are_reported() {
    let mut res = ProbeResult::default();
    res.err_code = 0x80431075;
    res.err_at = 2;
    res.ssl_error = 0x12;
    res.ssl_detail = 8;
    res.verify_flags = -1;
    let lines = probe::attempt("t", 1, false, Judge::Redirect302, &res, &[]);
    assert_eq!(
        lines,
        vec![
            "NET result    status=0 bytes=0 cl=-1 range=-1--1/0 audio=0 auto_redirect=0 headers=0 took=0ms ca=0 enable_option=FAILED http_pool=0 ssl_pool=0",
            "NET error     stage=send code=0x80431075 SSL (handshake/certificate rejected)",
            "NET tls       ssl_error=0x00000012 detail=0x00000008",
            "NET verdict   [t] redirect302=false cert_store=NOT-LOADED enable_option=FAILED CHECK expected a visible 302",
        ]
    );
    let cert = probe::attempt("c", 0, false, Judge::CertReject, &ProbeResult::default(), &[]);
    assert_eq!(
        cert[1],
        "NET verdict   [c] cert-reject=true cert_store=n/a enable_option=n/a PASS certificate refused (verification is active)"
    );
}

#[test]
fn judges_decide() {
    let mut res = ProbeResult::default();
    res.status = 200;
    assert_eq!(Judge::Range206.verdict(&res), (false, "expected 206"));
    assert_eq!(Judge::CertReject.verdict(&res), (false, "certificate ACCEPTED: nothing is being verified"));
    assert_eq!(Judge::Anything.verdict(&res), (true, ""));
    res.status = 206;
    assert_eq!(Judge::Range206.verdict(&res), (false, ""));
    res.status = 302;
    assert_eq!(Judge::Redirect302.verdict(&res), (true, ""));
}

#[test]
fn aborts_must_be_quick() {
    let mut res = ProbeResult::default();
    res.aborted = 1;
    res.bytes_read = 100;
    res.abort_took_ms = 999;
    res.err_code = 0x80410104;
    let (line, verdict) = probe::abort_attempt("custom", &res);
    assert_eq!(
        line,
        "NET abort     [custom] aborted=1 bytes_in_flight=100 stop_after_abort=999ms last_read=0x80410104 EINTR (socket read interrupted — abort landed)"
    );
    assert_eq!(verdict, "NET verdict   [custom] abort PASS");
    res.abort_took_ms = 1000;
    assert_eq!(probe::abort_attempt("x", &res).1, "NET verdict   [x] abort CHECK");
}

#[test]
fn pools_are_reported() {
    assert_eq!(
        probe::memory_report(0, 1, 2, 3, 4, 5),
        "NET memory    rc=0 pool=1B used=2B peak=3B | CA-ready pools: ssl=4B http=5B  (ssl usage figures are in the lines above)"
    );
}

#[test]
fn the_card_may_name_a_target() {
    assert_eq!(
        probe::url_file_target("\n  http://a \n\n http://ref\nmore"),
        Some(("http://a".to_string(), "http://ref".to_string()))
    );
    assert_eq!(probe::url_file_target("http://a"), Some(("http://a".to_string(), "".to_string())));
    assert_eq!(probe::url_file_target(" \n\t\n"), None);
}

#[test]
fn a_run_has_its_steps() {
    let plan = probe::run(1, -2, &None);
    assert_eq!(plan.len(), 12);
    assert!(matches!(&plan[1], Step::Line(s) if s == "NET env       init=1 online=-2"));
    match &plan[4] {
        Step::Attempt(a) => {
            assert_eq!(a.note, "same chain, certificate verification on");
            assert_eq!((a.tls, a.read_cap, a.auto_redirect), (1, 65536, true));
        }
        _ => panic!("no request"),
    }
    assert!(matches!(&plan[7], Step::Attempt(a) if a.judge == Judge::CertReject));
    assert!(matches!(&plan[10], Step::Memory));
    let own = probe::run(0, 0, &Some(("http://a".to_string(), "http://r".to_string())));
    assert_eq!(own.len(), 7);
    match &own[4] {
        Step::Abort { note, url, referer, tls, wait_ms } => {
            assert_eq!((note.as_str(), url.as_str(), referer.as_str()), ("custom", "http://a", "http://r"));
            assert_eq!((*tls, *wait_ms), (0, 400));
        }
        _ => panic!("no abort"),
    }
}

#[test]
fn probes_run_one_at_a_time() {
    let mut p = Probe::new();
    assert!(!p.start_once(false));
    assert!(p.start_once(true));
    assert!(!p.start_once(true));
    assert!(!p.run_now());
    assert_eq!(
        p.state_json(true),
        "{\"enabled\":true,\"started\":true,\"running\":true,\"runs\":1,\"report\":\"ux0:data/yunyin-netprobe.log\"}"
    );
    p.finished();
    assert!(p.run_now());
    assert_eq!(
        p.state_json(false),
        "{\"enabled\":false,\"started\":true,\"running\":true,\"runs\":2,\"report\":\"ux0:data/yunyin-netprobe.log\"}"
    );
}
