use yunyin::source::cache::ByteCache;
use yunyin::source::cache::CacheConfig;
use yunyin::source::copy_into;
use yunyin::source::http::fetched_bytes;
use yunyin::source::http::ByteTransport;
use yunyin::source::http::HttpRangeSource;
use yunyin::source::http::Pass;
use yunyin::source::http::Patience;
use yunyin::source::http::Work;
use yunyin::source::http::WINDOW_BYTES;
use yunyin::source::local::LocalFileSource;
use yunyin::source::remote;
use yunyin::source::remote::Remote;
use yunyin::source::AudioSource;
use yunyin::source::SourceError;
use yunyin::source::SourceKind;

fn small() -> CacheConfig {
    CacheConfig { capacity: 8, high_water: 6, refill: 4, decode_margin: 3, low_water: 2 }
}

struct Memory {
    all: Vec<u8>,
    fail: bool,
}

impl ByteTransport for Memory {
    fn read_at(&mut self, off: u64, dst: &mut [u8]) -> Result<usize, SourceError> {
        if self.fail {
            return Err(SourceError::Network("down".to_string()));
        }
        let from = (off as usize).min(self.all.len());
        let n = dst.len().min(self.all.len() - from);
        dst[..n].copy_from_slice(&self.all[from..from + n]);
        Ok(n)
    }

    fn size(&self) -> Option<u64> {
        Some(self.all.len() as u64)
    }
}

fn bytes(n: usize) -> Vec<u8> {
    (0..n).map(|i| (i % 251) as u8).collect()
}

#[test]
fn caches_keep_order_and_capacity() {
    let mut c = ByteCache::new(small());
    assert_eq!(c.push(&[1, 2, 3, 4, 5]), 5);
    assert_eq!(c.push(&[6, 7, 8, 9]), 3);
    assert_eq!(c.available(), 8);
    let mut out = [0u8; 5];
    assert_eq!(c.read(&mut out), 5);
    assert_eq!(out, [1, 2, 3, 4, 5]);
    assert_eq!((c.start(), c.available()), (5, 3));
    let mut more = [9u8; 5];
    assert_eq!(c.read(&mut more), 3);
    assert_eq!(more, [6, 7, 8, 9, 9]);
    assert_eq!(c.config(), small());
}

#[test]
fn caches_have_water_marks() {
    let mut c = ByteCache::new(small());
    assert!(c.wants_refill());
    assert!(!c.can_decode());
    c.push(&[0; 3]);
    assert!(c.wants_refill() && c.can_decode());
    c.push(&[0; 1]);
    assert!(!c.wants_refill());
    c.seek(100);
    assert_eq!((c.start(), c.available()), (100, 0));
    c.mark_eof();
    assert!(c.is_eof() && c.can_decode() && !c.wants_refill());
    c.reset();
    assert!(!c.is_eof());
    assert_eq!(c.start(), 0);
    assert_eq!(ByteCache::default().config().capacity, 1 << 20);
}

#[test]
fn bytes_are_copied_in_place() {
    let mut d = [0u8; 5];
    copy_into(&mut d, 2, &[7, 8]);
    assert_eq!(d, [0, 0, 7, 8, 0]);
}

#[test]
fn local_files_never_ask_beyond_the_end() {
    let mut f = LocalFileSource::open("ux0:/a.mp3", Ok(10)).unwrap();
    assert_eq!(f.path(), "ux0:/a.mp3");
    assert_eq!(f.wanted(4), 4);
    assert_eq!(f.took(Ok(4)).unwrap(), 4);
    assert_eq!((f.tell(), f.available(), f.wanted(100)), (4, 6, 6));
    assert_eq!(f.took(Ok(6)).unwrap(), 6);
    assert!(f.is_eof());
    assert_eq!(f.wanted(100), 0);
    assert_eq!(f.seek_target(99), 10);
    f.sought(3, Ok(())).unwrap();
    assert_eq!((f.tell(), f.is_eof(), f.size()), (3, false, Some(10)));
    assert_eq!(f.kind(), SourceKind::LocalFile);
}

#[test]
fn local_files_report_failures() {
    assert_eq!(
        LocalFileSource::open("x", Err("gone".to_string())).err(),
        Some(SourceError::Io("gone".to_string()))
    );
    let mut f = LocalFileSource::open("x", Ok(10)).unwrap();
    assert_eq!(f.took(Err("bad".to_string())).unwrap_err(), SourceError::Io("bad".to_string()));
    assert_eq!(f.error(), Some(SourceError::Io("bad".to_string())));
    assert_eq!(f.tell(), 0);
    assert_eq!(f.sought(5, Err("no".to_string())).unwrap_err(), SourceError::Io("no".to_string()));
    assert_eq!(f.tell(), 0);
}

#[test]
fn streams_read_through_windows() {
    let all = bytes(WINDOW_BYTES + 100);
    let mut t = Memory { all: all.clone(), fail: false };
    let mut s = HttpRangeSource::new("http://a", t.size(), CacheConfig::default());
    assert_eq!(s.url(), "http://a");
    let mut buf = vec![0u8; 1000];
    assert_eq!(s.read(&mut buf).unwrap_err(), SourceError::WouldBlock);
    let mut got: Vec<u8> = Vec::new();
    loop {
        match s.read(&mut buf) {
            Ok(0) => break,
            Ok(n) => got.extend_from_slice(&buf[..n]),
            Err(e) => {
                assert_eq!(e, SourceError::WouldBlock);
                assert!(!s.is_eof());
                assert!(s.serve(&mut t));
            }
        }
    }
    assert_eq!(got, all);
    assert!(s.is_eof());
    assert_eq!(s.tell(), all.len() as u64);
    assert_eq!(s.kind(), SourceKind::HttpRange);
}

#[test]
fn streams_of_unknown_length_end_with_an_empty_fetch() {
    let mut t = Memory { all: bytes(10), fail: false };
    let mut s = HttpRangeSource::new("u", None, CacheConfig::default());
    assert!(s.serve(&mut t));
    assert!(!s.serve(&mut t));
    let mut buf = [0u8; 10];
    assert_eq!(s.read(&mut buf).unwrap(), 10);
    assert!(!s.is_eof());
    assert_eq!(s.read(&mut buf).unwrap_err(), SourceError::WouldBlock);
    assert!(s.serve(&mut t));
    assert!(s.is_eof());
    assert_eq!(s.read(&mut buf).unwrap(), 0);
    s.seek(3).unwrap();
    assert!(!s.is_eof());
    assert!(s.serve(&mut t));
    assert_eq!(s.read(&mut buf[..4]).unwrap(), 4);
    assert_eq!(&buf[..4], &[3, 4, 5, 6]);
}

fn taken(s: &mut HttpRangeSource) -> (u64, u64) {
    match s.begin_fetch() {
        Work::Fetch { from, gen } => (from, gen),
        _ => panic!("no request"),
    }
}

#[test]
fn overtaken_fetches_are_dropped() {
    let far = 50;
    let mut s = HttpRangeSource::new("u", Some(100), CacheConfig::default());
    let (from, gen) = taken(&mut s);
    assert_eq!(from, 0);
    s.seek(far).unwrap();
    s.finish_fetch(from, gen, Ok(vec![1; 20]));
    assert_eq!(s.available(), 0);
    let (from, gen) = taken(&mut s);
    assert_eq!(from, far);
    let mut buf = [0u8; 4];
    assert_eq!(s.read(&mut buf).unwrap_err(), SourceError::WouldBlock);
    s.finish_fetch(from, gen, Ok(vec![2; 50]));
    assert_eq!(s.available(), 50);
    assert!(s.at_cached_end());
    assert_eq!(s.read(&mut buf).unwrap(), 4);
    assert_eq!(buf, [2; 4]);
    assert!(matches!(s.begin_fetch(), Work::Idle));
}

#[test]
fn one_window_is_one_request() {
    let mut s = HttpRangeSource::new("u", None, CacheConfig::default());
    let (from, gen) = taken(&mut s);
    assert_eq!((from, gen), (0, 0));
    let mut one = [0u8; 1];
    assert!(matches!(s.fill(&mut one, 0), (0, Pass::Wait)));
    assert_eq!(s.read(&mut one).unwrap_err(), SourceError::WouldBlock);
    s.prime();
    assert!(matches!(s.begin_fetch(), Work::Idle));
    s.finish_fetch(from, gen, Ok(bytes(WINDOW_BYTES)));
    s.seek(7).unwrap();
    assert!(matches!(s.fill(&mut one, 0), (1, Pass::Full)));
    assert_eq!(one, [7]);
    assert!(matches!(s.begin_fetch(), Work::Idle));
    s.seek(WINDOW_BYTES as u64 - 1).unwrap();
    assert_eq!(s.read(&mut one).unwrap(), 1);
    assert!(matches!(s.begin_fetch(), Work::Idle));
    assert_eq!(s.read(&mut one).unwrap_err(), SourceError::WouldBlock);
    assert_eq!(taken(&mut s), (WINDOW_BYTES as u64, 1));
    assert_eq!(s.read(&mut one).unwrap_err(), SourceError::WouldBlock);
    assert!(matches!(s.begin_fetch(), Work::Idle));
}

#[test]
fn failures_stay_with_the_stream() {
    let mut t = Memory { all: bytes(10), fail: true };
    let mut s = HttpRangeSource::new("u", Some(10), CacheConfig::default());
    assert!(s.serve(&mut t));
    let mut buf = [0u8; 4];
    assert_eq!(s.read(&mut buf).unwrap_err(), SourceError::Network("down".to_string()));
    assert_eq!(s.error(), Some(SourceError::Network("down".to_string())));
    s.cancel();
    assert!(matches!(s.begin_fetch(), Work::Stop));
}

#[test]
fn passes_report_how_they_end() {
    let mut t = Memory { all: bytes(6), fail: false };
    let mut s = HttpRangeSource::new("u", Some(6), CacheConfig::default());
    s.serve(&mut t);
    let mut buf = [0u8; 8];
    let (n, pass) = s.fill(&mut buf, 1);
    assert_eq!(n, 6);
    assert!(matches!(pass, Pass::End));
    assert_eq!(buf, [0, 0, 1, 2, 3, 4, 5, 0]);
    assert_eq!(s.settle(6, pass).unwrap(), 6);
    let mut c = HttpRangeSource::new("u", Some(6), CacheConfig::default());
    c.cancel();
    assert!(matches!(c.fill(&mut buf, 0).1, Pass::Dry));
    let mut w = HttpRangeSource::new("u", Some(6), CacheConfig::default());
    assert!(matches!(w.fill(&mut buf, 0).1, Pass::Wait));
    assert!(matches!(w.fill(&mut buf[..0], 0).1, Pass::Full));
}

#[test]
fn remote_opens_one_source_at_a_time() {
    let mut r = Remote::new();
    assert!(r.gate_ok() && r.is_eof() && !r.active());
    assert_eq!(r.available(), usize::MAX);
    let t1 = r.new_token();
    let t2 = r.new_token();
    assert!(r.token_current(t2) && !r.token_current(t1));
    assert_eq!(r.open_remote("u", t1, Ok(Some(5))).unwrap_err(), SourceError::Cancelled);
    assert_eq!(r.open_remote("u", t2, Err(SourceError::Expired)).unwrap_err(), SourceError::Expired);
    r.open_remote("http://u", t2, Ok(Some(300000))).unwrap();
    assert!(r.active());
    assert_eq!(r.url(), "http://u");
    assert_eq!(r.open_remote("v", t2, Ok(None)).unwrap_err(), SourceError::Unsupported);
    r.attach(t2, true).unwrap();
    assert!(!r.gate_ok());
    assert_eq!(r.attach(t2, false).unwrap_err(), SourceError::Unsupported);
    assert!(!r.active());
    r.open_remote("w", t2, Ok(None)).unwrap();
    let _ = r.new_token();
    assert_eq!(r.attach(t2, true).unwrap_err(), SourceError::Cancelled);
    assert!(!r.active());
    r.close_remote();
    assert_eq!(r.url(), "");
}

#[test]
fn the_decoder_waits_until_enough_is_there() {
    let mut r = Remote::new();
    let t = r.new_token();
    r.open_remote("u", t, Ok(Some(1_000_000))).unwrap();
    let mut m = Memory { all: bytes(1_000_000), fail: false };
    let mut s = r.take_source().unwrap();
    assert!(s.serve(&mut m));
    r.put_source(Some(s));
    assert!(r.gate_ok());
    assert_eq!(r.available(), WINDOW_BYTES);
    let mut s = r.take_source().unwrap();
    let mut buf = vec![0u8; WINDOW_BYTES - 100];
    assert_eq!(s.read(&mut buf).unwrap(), buf.len());
    r.put_source(Some(s));
    assert!(!r.gate_ok());
    r.prime();
    let mut s = r.take_source().unwrap();
    assert!(s.serve(&mut m));
    r.put_source(Some(s));
    assert!(r.gate_ok());
    r.cancel();
    let mut s = r.take_source().unwrap();
    assert!(matches!(s.begin_fetch(), Work::Stop));
}

#[test]
fn short_ends_pass_the_valve() {
    let mut r = Remote::new();
    let t = r.new_token();
    r.open_remote("u", t, Ok(Some(100))).unwrap();
    let mut m = Memory { all: bytes(100), fail: false };
    let mut s = r.take_source().unwrap();
    s.serve(&mut m);
    r.put_source(Some(s));
    assert!(r.available() < remote::GATE_BYTES);
    assert!(r.at_cached_end() && r.gate_ok());
    assert_eq!(r.error(), None);
}

#[test]
fn the_decoder_sees_plain_numbers() {
    assert_eq!(remote::io_read_code(&Ok(7)), 7);
    assert_eq!(remote::io_read_code(&Ok(0)), 0);
    assert_eq!(remote::io_read_code(&Err(SourceError::WouldBlock)), -1);
    assert_eq!(remote::io_read_code(&Err(SourceError::Http { status: 404 })), -1);
    let mut s = HttpRangeSource::new("u", Some(100), CacheConfig::default());
    assert_eq!(remote::io_size(&s), 100);
    assert_eq!(remote::io_seek(&mut s, 10, 0), 10);
    assert_eq!(remote::io_seek(&mut s, 5, 1), 15);
    assert_eq!(remote::io_seek(&mut s, -20, 2), 80);
    assert_eq!(remote::io_seek(&mut s, -500, 1), 0);
    assert_eq!(remote::io_tell(&s), 0);
    assert_eq!(remote::io_size(&HttpRangeSource::new("u", None, CacheConfig::default())), -1);
}

#[test]
fn windows_are_cut_to_what_was_read() {
    let tmp = [1u8, 2, 3, 4];
    assert_eq!(fetched_bytes(7, &tmp, Ok(2)), Ok(vec![1, 2]));
    assert_eq!(fetched_bytes(7, &tmp, Ok(9)), Ok(vec![1, 2, 3, 4]));
    assert_eq!(fetched_bytes(7, &tmp, Ok(0)), Ok(vec![]));
    assert_eq!(fetched_bytes(u64::MAX - 4, &tmp, Ok(9)), Ok(vec![1, 2, 3, 4]));
    assert_eq!(fetched_bytes(u64::MAX - 3, &tmp, Ok(4)), Err(SourceError::Io("offset".to_string())));
    assert_eq!(fetched_bytes(7, &tmp, Err(SourceError::Cancelled)), Err(SourceError::Cancelled));
}

#[test]
fn reads_wait_a_while_from_their_last_progress() {
    let mut p = Patience::new(100);
    assert_eq!(p.after_pass(600, 0, &Pass::Wait), Some(3500));
    assert_eq!(p.after_pass(1000, 5, &Pass::Wait), Some(4000));
    assert_eq!(p.after_pass(4999, 0, &Pass::Wait), Some(1));
    assert_eq!(p.after_pass(5000, 0, &Pass::Wait), None);
    assert_eq!(p.after_pass(5000, 1, &Pass::End), None);
    assert_eq!(Patience::new(u64::MAX).after_pass(u64::MAX - 1, 0, &Pass::Wait), Some(1));
}
