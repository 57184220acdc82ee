//! A network stream as a source: a window of bytes that one fetch fills and the
//! decoder drains.
//!
//! ```text
//! the fetching side                  the reading side
//! takes a request, fetches a window  takes what the window covers
//! drops a result that a newer        asks for more where it covers nothing
//! request overtook                   the end is only the end
//! ```
//!
//! The decoder never sees the network: it sees bytes of the window, or "come
//! again". One window is one request: while it is fetched, a read inside it asks
//! for nothing. A seek to a place that the window does not hold voids the fetch.

use vstd::prelude::*;
use crate::source;
use crate::source::AudioSource;
use crate::source::SourceError;
use crate::source::SourceKind;
use crate::source::SourceView;
use crate::source::Trouble;
use crate::source::cache;
use crate::source::cache::CacheConfig;

verus! {

/// How much one fetch asks for.
pub const WINDOW_BYTES: usize = 262144;

/// How long the reading side waits before it says "come again".
pub const READ_WAIT_MS: u64 = 4000;

/// Where bytes are fetched from.
pub trait ByteTransport {
    /// Reads at an absolute offset; zero bytes mean the end.
    fn read_at(&mut self, off: u64, dst: &mut [u8]) -> Result<usize, SourceError>;

    /// The total length, where it is known.
    fn size(&self) -> Option<u64>;
}

/// A network stream: the window that both sides share, and the reading
/// position.
pub struct HttpRangeSource {
    buf: Vec<u8>,
    start: u64,
    eof: bool,
    err: Option<SourceError>,
    want_from: u64,
    generation: u64,
    pending: bool,
    running: bool,
    cancelled: bool,
    pos: u64,
    size: Option<u64>,
    url: String,
}

/// What a [`HttpRangeSource`] holds.
#[verifier::ext_equal]
pub struct Stream {
    /// The bytes of the window.
    pub buf: Seq<u8>,
    /// The offset of the first of them.
    pub start: u64,
    /// The last fetch found the end.
    pub eof: bool,
    pub err: Option<Trouble>,
    /// Where the window should begin.
    pub want_from: u64,
    /// Grows with every request; a fetch of an older one is dropped.
    pub generation: u64,
    /// A request waits to be taken.
    pub pending: bool,
    /// The fetch of the current request is under way; a newer request overtakes
    /// it.
    pub running: bool,
    pub cancelled: bool,
    pub pos: u64,
    pub size: Option<u64>,
    pub url: Seq<char>,
}

impl View for HttpRangeSource {
    type V = Stream;

    closed spec fn view(&self) -> Stream {
        Stream {
            buf: self.buf@,
            start: self.start,
            eof: self.eof,
            err: source::trouble(self.err),
            want_from: self.want_from,
            generation: self.generation,
            pending: self.pending,
            running: self.running,
            cancelled: self.cancelled,
            pos: self.pos,
            size: self.size,
            url: self.url@,
        }
    }
}

pub open spec fn next_generation(g: u64) -> u64 {
    if g == u64::MAX {
        0
    } else {
        (g + 1) as u64
    }
}

/// How a pass of reading ended.
pub enum Pass {
    /// All that was asked for is there.
    Full,
    /// The stream is over.
    End,
    /// The stream failed.
    Failed,
    /// More is on its way.
    Wait,
    /// Nothing more will come for this position.
    Dry,
}

impl Stream {
    /// The offset behind the window.
    pub open spec fn end(self) -> int {
        self.start + self.buf.len()
    }

    /// The window lies within the range of offsets, and is empty while it is
    /// fetched.
    pub open spec fn wf(self) -> bool {
        &&& self.end() <= u64::MAX
        &&& self.running ==> !self.pending && self.buf.len() == 0 && self.start == self.want_from
            && !self.eof
    }

    pub open spec fn opened(url: Seq<char>, size: Option<u64>) -> Stream {
        Stream {
            buf: Seq::empty(),
            start: 0,
            eof: false,
            err: None,
            want_from: 0,
            generation: 0,
            pending: true,
            running: false,
            cancelled: false,
            pos: 0,
            size,
            url,
        }
    }

    pub open spec fn covers(self, pos: int) -> bool {
        self.start <= pos < self.end()
    }

    /// Whether the stream is over at a position. Where the length is known only
    /// the position decides; else the last fetch must have found the end, and
    /// the window must be used up.
    pub open spec fn over_at(self, pos: int) -> bool {
        match self.size {
            Some(n) => pos >= n,
            None => self.eof && pos >= self.end(),
        }
    }

    pub open spec fn left(self) -> nat {
        if self.pos < self.start || self.end() < self.pos {
            0
        } else {
            (self.end() - self.pos) as nat
        }
    }

    /// With a request for a window at `from`. What the window held, and whether
    /// it found the end, belongs to the place it was at and is dropped.
    pub open spec fn asking(self, from: u64) -> Stream {
        Stream {
            want_from: from,
            generation: next_generation(self.generation),
            buf: Seq::empty(),
            start: from,
            eof: false,
            pending: true,
            running: false,
            ..self
        }
    }

    /// The window that is fetched right now will cover the position.
    pub open spec fn will_cover(self, pos: int) -> bool {
        self.running && self.want_from <= pos < self.want_from + WINDOW_BYTES
    }

    /// With a request for a window at `from`, unless one waits already, or the
    /// place is in the window that is fetched.
    pub open spec fn asking_once(self, from: u64) -> Stream {
        if self.pending || self.will_cover(from as int) {
            self
        } else {
            self.asking(from)
        }
    }

    /// Once a fetch took the request.
    pub open spec fn fetching(self) -> Stream {
        Stream {
            pending: false,
            running: true,
            buf: Seq::empty(),
            start: self.want_from,
            eof: false,
            ..self
        }
    }

    /// Once a fetch for a request came back. One that was overtaken changes
    /// nothing; in particular the newer request stays.
    pub open spec fn fetched(self, from: u64, gen: u64, got: Result<Seq<u8>, Trouble>) -> Stream {
        if self.cancelled {
            Stream { running: false, ..self }
        } else if self.generation != gen {
            self
        } else {
            let s = Stream { running: false, pending: false, ..self };
            match got {
                Ok(data) => if data.len() == 0 {
                    Stream { eof: true, ..s }
                } else {
                    Stream { buf: data, start: from, ..s }
                },
                Err(e) => Stream { err: Some(e), ..s },
            }
        }
    }

    /// How many bytes a pass of reading gives.
    pub open spec fn gives(self, want: int) -> int {
        if self.err is Some || self.over_at(self.pos as int) || !self.covers(self.pos as int) {
            0
        } else {
            cache::smaller(want, self.end() - self.pos)
        }
    }

    /// How a pass of reading ends.
    pub open spec fn ends(self, want: int) -> Pass {
        let n = self.gives(want);
        if n == want {
            Pass::Full
        } else if self.err is Some {
            Pass::Failed
        } else if self.over_at(self.pos + n) {
            Pass::End
        } else if self.eof || self.cancelled {
            Pass::Dry
        } else {
            Pass::Wait
        }
    }

    /// Once a pass of reading is done: the position moved, and where more is
    /// needed it is asked for.
    pub open spec fn passed(self, want: int) -> Stream {
        let moved = Stream { pos: (self.pos + self.gives(want)) as u64, ..self };
        if self.ends(want) is Wait {
            moved.asking_once(moved.pos)
        } else {
            moved
        }
    }

    /// The bytes that a pass of reading gives.
    pub open spec fn given(self, want: int) -> Seq<u8> {
        let n = self.gives(want);
        if n == 0 {
            Seq::empty()
        } else {
            self.buf.subrange(self.pos - self.start, self.pos - self.start + n)
        }
    }

    /// What a read comes to that does not wait any longer, where `done` bytes
    /// were given and the last pass ended so.
    pub open spec fn settled(self, done: int, pass: Pass) -> Result<nat, Trouble> {
        match pass {
            Pass::Full => Ok(done as nat),
            Pass::End => Ok(done as nat),
            Pass::Failed => Err(self.err->0),
            Pass::Wait => if done > 0 {
                Ok(done as nat)
            } else {
                Err(Trouble::WouldBlock)
            },
            Pass::Dry => if done > 0 {
                Ok(done as nat)
            } else {
                Err(Trouble::WouldBlock)
            },
        }
    }

    /// Once a seek is done: a window that covers the place is kept, else one is
    /// asked for there.
    pub open spec fn sought(self, pos: u64) -> Stream {
        let moved = Stream { pos, ..self };
        if self.covers(pos as int) {
            moved
        } else {
            moved.asking(pos)
        }
    }

    /// The window reaches from the position to the known end: nothing more will
    /// come.
    pub open spec fn reaches_end(self) -> bool {
        self.size matches Some(n) && self.start <= self.pos && self.end() >= n
    }

    /// Once more data was asked for ahead of a read. Nothing is asked for while a
    /// request waits or a fetch runs, nor where nothing more can come.
    pub open spec fn primed(self) -> Stream {
        if self.pending || self.running || self.cancelled || self.err is Some || self.eof
            || self.over_at(self.pos as int) || self.reaches_end() {
            self
        } else {
            self.asking(self.pos)
        }
    }
}

/// What the fetching side does next.
pub enum Work {
    /// Nothing is asked for.
    Idle,
    /// The stream is closed.
    Stop,
    /// Fetch a window.
    Fetch { from: u64, gen: u64 },
}

pub open spec fn fetch_outcome(got: Result<Vec<u8>, SourceError>) -> Result<Seq<u8>, Trouble> {
    match got {
        Ok(v) => Ok(v@),
        Err(e) => Err(e@),
    }
}

impl HttpRangeSource {
    /// A stream whose first window is asked for.
    pub fn new(url: &str, size: Option<u64>, _cfg: CacheConfig) -> (r: Self)
        ensures
            r@ == Stream::opened(url@, size),
            r@.wf(),
    {
        let r = HttpRangeSource {
            buf: Vec::new(),
            start: 0,
            eof: false,
            err: None,
            want_from: 0,
            generation: 0,
            pending: true,
            running: false,
            cancelled: false,
            pos: 0,
            size,
            url: url.to_owned(),
        };
        assert(r@ =~= Stream::opened(url@, size));
        r
    }

    pub fn url(&self) -> (r: &str)
        ensures
            r@ == self@.url,
    {
        self.url.as_str()
    }

    fn covers(&self, pos: u64) -> (r: bool)
        ensures
            r == self@.covers(pos as int),
    {
        pos >= self.start && pos - self.start < self.buf.len() as u64
    }

    fn over_at(&self, pos: u64) -> (r: bool)
        ensures
            r == self@.over_at(pos as int),
    {
        match self.size {
            Some(n) => pos >= n,
            None => self.eof && pos >= self.start && pos - self.start >= self.buf.len() as u64,
        }
    }

    fn will_cover(&self, pos: u64) -> (r: bool)
        ensures
            r == self@.will_cover(pos as int),
    {
        self.running && pos >= self.want_from && pos - self.want_from < WINDOW_BYTES as u64
    }

    /// Asks for a window at `from`.
    pub fn request_from(&mut self, from: u64)
        ensures
            final(self)@ == old(self)@.asking(from),
            final(self)@.wf(),
    {
        self.want_from = from;
        self.generation = if self.generation == u64::MAX {
            0
        } else {
            self.generation + 1
        };
        self.buf = Vec::new();
        self.start = from;
        self.eof = false;
        self.pending = true;
        self.running = false;
        assert(self@ =~= old(self)@.asking(from));
    }

    /// What the fetching side does next; a request that it gets is its own.
    pub fn begin_fetch(&mut self) -> (r: Work)
        requires
            old(self)@.wf(),
        ensures
            final(self)@.wf(),
            r == (if old(self)@.cancelled {
                Work::Stop
            } else if !old(self)@.pending {
                Work::Idle
            } else {
                Work::Fetch { from: old(self)@.want_from, gen: old(self)@.generation }
            }),
            final(self)@ == (if r is Fetch {
                old(self)@.fetching()
            } else {
                old(self)@
            }),
    {
        if self.cancelled {
            return Work::Stop;
        }
        if !self.pending {
            return Work::Idle;
        }
        self.pending = false;
        self.running = true;
        self.buf = Vec::new();
        self.start = self.want_from;
        self.eof = false;
        assert(self@ =~= old(self)@.fetching());
        Work::Fetch { from: self.want_from, gen: self.generation }
    }

    /// Takes in what a fetch got. A result that a newer request overtook is
    /// dropped.
    pub fn finish_fetch(&mut self, from: u64, gen: u64, got: Result<Vec<u8>, SourceError>)
        requires
            old(self)@.wf(),
            got matches Ok(v) ==> from + v@.len() <= u64::MAX,
        ensures
            final(self)@ == old(self)@.fetched(from, gen, fetch_outcome(got)),
            final(self)@.wf(),
    {
        if self.cancelled {
            self.running = false;
            assert(self@ =~= old(self)@.fetched(from, gen, fetch_outcome(got)));
            return;
        }
        if self.generation != gen {
            return;
        }
        self.running = false;
        self.pending = false;
        match got {
            Ok(data) => {
                if data.len() == 0 {
                    self.eof = true;
                } else {
                    self.buf = data;
                    self.start = from;
                }
            },
            Err(e) => {
                self.err = Some(e);
            },
        }
        assert(self@ =~= old(self)@.fetched(from, gen, fetch_outcome(got)));
    }

    /// Serves one request from a transport: a window is read at the place that is
    /// asked for, and whatever the transport gives is cut by [`fetched_bytes`] and
    /// taken in as the fetch of that request.
    pub fn serve<T: ByteTransport>(&mut self, transport: &mut T) -> (r: bool)
        requires
            old(self)@.wf(),
        ensures
            final(self)@.wf(),
            r == (!old(self)@.cancelled && old(self)@.pending),
            r ==> exists|t: &mut T, d: &mut [u8], got: Result<usize, SourceError>|
                #[trigger] call_ensures(T::read_at, (t, old(self)@.want_from, d), got) && *t
                    == *old(transport) && *final(t) == *final(transport) && d@.len()
                    == WINDOW_BYTES && final(self)@ == old(self)@.fetching().fetched(
                    old(self)@.want_from,
                    old(self)@.generation,
                    fetched_part(old(self)@.want_from, final(d)@, source::read_outcome(got)),
                ),
            !r ==> final(self)@ == old(self)@ && *final(transport) == *old(transport),
    {
        match self.begin_fetch() {
            Work::Fetch { from, gen } => {
                let mut tmp = window_buffer();
                let read = transport.read_at(from, tmp.as_mut_slice());
                let got = fetched_bytes(from, tmp.as_slice(), read);
                assert(fetch_outcome(got) == fetched_part(
                    from,
                    tmp@,
                    source::read_outcome(read),
                ));
                self.finish_fetch(from, gen, got);
                true
            },
            _ => false,
        }
    }

    /// One pass of reading: gives what the window has, from `at` in `dst` on, and
    /// asks for more where that is needed.
    pub fn fill(&mut self, dst: &mut [u8], at: usize) -> (r: (usize, Pass))
        requires
            old(self)@.wf(),
            at <= old(dst)@.len(),
        ensures
            final(self)@.wf(),
            r.0 == old(self)@.gives(old(dst)@.len() - at),
            r.1 == old(self)@.ends(old(dst)@.len() - at),
            final(self)@ == old(self)@.passed(old(dst)@.len() - at),
            final(dst)@ == old(dst)@.take(at as int) + old(self)@.given(old(dst)@.len() - at)
                + old(dst)@.skip(at + r.0),
            at + r.0 <= old(dst)@.len(),
    {
        let len: usize = dst.len();
        let want: usize = len - at;
        let ghost s0 = self@;
        let ghost w = want as int;
        let mut n: usize = 0;
        if self.err.is_none() && !self.over_at(self.pos) && self.covers(self.pos) {
            let off: usize = (self.pos - self.start) as usize;
            let have: usize = self.buf.len() - off;
            n = if want < have {
                want
            } else {
                have
            };
            let part = vstd::slice::slice_subrange(self.buf.as_slice(), off, off + n);
            source::copy_into(dst, at, part);
            self.pos = self.pos + n as u64;
            assert(part@ =~= s0.buf.subrange(s0.pos - s0.start, s0.pos - s0.start + n));
            if n == 0 {
                assert(part@ =~= Seq::empty());
            }
        } else {
            assert(dst@ =~= old(dst)@.take(at as int) + Seq::<u8>::empty() + old(dst)@.skip(
                at as int,
            ));
        }
        assert(n == s0.gives(w));
        assert(self@ =~= Stream { pos: (s0.pos + n) as u64, ..s0 });
        if n == want {
            return (n, Pass::Full);
        }
        if self.err.is_some() {
            return (n, Pass::Failed);
        }
        if self.over_at(self.pos) {
            return (n, Pass::End);
        }
        if self.eof || self.cancelled {
            return (n, Pass::Dry);
        }
        if !self.pending && !self.will_cover(self.pos) {
            self.request_from(self.pos);
        }
        (n, Pass::Wait)
    }

    /// What a read comes to that does not wait any longer.
    pub fn settle(&self, done: usize, pass: Pass) -> (r: Result<usize, SourceError>)
        requires
            pass is Failed ==> self@.err is Some,
        ensures
            source::read_outcome(r) == self@.settled(done as int, pass),
    {
        match pass {
            Pass::Full => Ok(done),
            Pass::End => Ok(done),
            Pass::Failed => match &self.err {
                Some(e) => Err(e.again()),
                None => Err(SourceError::WouldBlock),
            },
            Pass::Wait => if done > 0 {
                Ok(done)
            } else {
                Err(SourceError::WouldBlock)
            },
            Pass::Dry => if done > 0 {
                Ok(done)
            } else {
                Err(SourceError::WouldBlock)
            },
        }
    }

    /// Whether the window reaches to the known end.
    pub fn at_cached_end(&self) -> (r: bool)
        requires
            self@.wf(),
        ensures
            r == self@.reaches_end(),
    {
        match self.size {
            Some(n) => self.start <= self.pos && self.start + self.buf.len() as u64 >= n,
            None => false,
        }
    }

    /// Asks for more ahead of a read.
    pub fn prime(&mut self)
        requires
            old(self)@.wf(),
        ensures
            final(self)@ == old(self)@.primed(),
            final(self)@.wf(),
    {
        if self.pending || self.running || self.cancelled || self.err.is_some() || self.eof
            || self.over_at(self.pos) || self.at_cached_end() {
            return;
        }
        self.request_from(self.pos);
    }

    /// Closes the stream: the fetching side stops.
    pub fn cancel(&mut self)
        requires
            old(self)@.wf(),
        ensures
            final(self)@ == (Stream { cancelled: true, ..old(self)@ }),
            final(self)@.wf(),
    {
        self.cancelled = true;
        assert(self@ =~= Stream { cancelled: true, ..old(self)@ });
    }
}

/// What a read at `from` into `tmp` fetched: as many bytes as it says, and no more
/// than there is room for. Bytes beyond the last offset are an error.
pub open spec fn fetched_part(from: u64, tmp: Seq<u8>, got: Result<nat, Trouble>) -> Result<
    Seq<u8>,
    Trouble,
> {
    match got {
        Ok(n) => {
            let k = cache::smaller(n as int, tmp.len() as int);
            if from + k > u64::MAX {
                Err(Trouble::Io("offset"@))
            } else {
                Ok(tmp.take(k))
            }
        },
        Err(e) => Err(e),
    }
}

/// Cuts a window to what was read into it.
pub fn fetched_bytes(from: u64, tmp: &[u8], got: Result<usize, SourceError>) -> (r: Result<
    Vec<u8>,
    SourceError,
>)
    ensures
        fetch_outcome(r) == fetched_part(from, tmp@, source::read_outcome(got)),
        r matches Ok(v) ==> from + v@.len() <= u64::MAX,
{
    match got {
        Ok(n) => {
            let k: usize = if n < tmp.len() {
                n
            } else {
                tmp.len()
            };
            if k as u64 > u64::MAX - from {
                return Err(SourceError::Io("offset".to_owned()));
            }
            let v = vstd::slice::slice_to_vec(vstd::slice::slice_subrange(tmp, 0, k));
            assert(v@ =~= tmp@.take(k as int));
            Ok(v)
        },
        Err(e) => Err(e),
    }
}

/// How long a read waits for bytes that are on their way. The clock counts
/// milliseconds.
pub struct Patience {
    until: u64,
}

pub open spec fn patient_until(now_ms: u64) -> u64 {
    if now_ms + READ_WAIT_MS <= u64::MAX {
        (now_ms + READ_WAIT_MS) as u64
    } else {
        u64::MAX
    }
}

impl Patience {
    pub closed spec fn ends(&self) -> u64 {
        self.until
    }

    pub fn new(now_ms: u64) -> (r: Self)
        ensures
            r.ends() == patient_until(now_ms),
    {
        Patience { until: now_ms.saturating_add(READ_WAIT_MS) }
    }

    /// After a pass that gave `n` bytes: how long to wait before the next one, or
    /// that the read is to be settled. Progress has the time begin anew.
    pub fn after_pass(&mut self, now_ms: u64, n: usize, pass: &Pass) -> (r: Option<u64>)
        ensures
            final(self).ends() == (if n > 0 {
                patient_until(now_ms)
            } else {
                old(self).ends()
            }),
            r == (if *pass is Wait && now_ms < final(self).ends() {
                Some((final(self).ends() - now_ms) as u64)
            } else {
                None
            }),
    {
        if n > 0 {
            self.until = now_ms.saturating_add(READ_WAIT_MS);
        }
        match pass {
            Pass::Wait => if now_ms < self.until {
                Some(self.until - now_ms)
            } else {
                None
            },
            _ => None,
        }
    }
}

fn window_buffer() -> (r: Vec<u8>)
    ensures
        r@.len() == WINDOW_BYTES,
{
    let mut v: Vec<u8> = Vec::new();
    let mut i: usize = 0;
    while i < WINDOW_BYTES
        invariant
            i <= WINDOW_BYTES,
            v@.len() == i,
        decreases WINDOW_BYTES - i,
    {
        v.push(0);
        i += 1;
    }
    v
}

impl AudioSource for HttpRangeSource {
    open spec fn shown(&self) -> SourceView {
        SourceView {
            pos: self@.pos,
            size: self@.size,
            available: self@.left(),
            eof: self@.over_at(self@.pos as int),
            error: self@.err,
            kind: SourceKind::HttpRange,
        }
    }

    open spec fn sound(&self) -> bool {
        self@.wf()
    }

    fn read(&mut self, dst: &mut [u8]) -> (r: Result<usize, SourceError>)
        ensures
            source::read_outcome(r) == old(self)@.settled(
                old(self)@.gives(old(dst)@.len() as int),
                old(self)@.ends(old(dst)@.len() as int),
            ),
            final(self)@ == old(self)@.passed(old(dst)@.len() as int),
            final(dst)@ == old(self)@.given(old(dst)@.len() as int) + old(dst)@.skip(
                old(self)@.gives(old(dst)@.len() as int),
            ),
    {
        let (n, pass) = self.fill(dst, 0);
        let ghost s0 = old(self)@;
        let ghost w = old(dst)@.len() as int;
        assert(n == s0.gives(w));
        assert(s0.pos + n <= u64::MAX);
        assert(self@.pos == s0.pos + n);
        assert(n == 0 && w > 0 && !(s0.ends(w) is Failed) && !(s0.ends(w) is Wait) && !(s0.ends(
            w,
        ) is Dry) ==> s0.over_at(s0.pos as int));
        assert(old(dst)@.take(0) + old(self)@.given(old(dst)@.len() as int) =~= old(self)@.given(
            old(dst)@.len() as int,
        ));
        self.settle(n, pass)
    }

    fn seek(&mut self, pos: u64) -> (r: Result<(), SourceError>)
        ensures
            r is Ok,
            final(self)@ == old(self)@.sought(pos),
    {
        let covered = self.covers(pos);
        self.pos = pos;
        if !covered {
            self.request_from(pos);
        }
        assert(self@ =~= old(self)@.sought(pos));
        Ok(())
    }

    fn tell(&self) -> (r: u64) {
        self.pos
    }

    fn size(&self) -> (r: Option<u64>) {
        self.size
    }

    fn available(&self) -> (r: usize) {
        if self.pos < self.start {
            return 0;
        }
        let off: u64 = self.pos - self.start;
        if off >= self.buf.len() as u64 {
            0
        } else {
            self.buf.len() - off as usize
        }
    }

    fn is_eof(&self) -> (r: bool) {
        self.over_at(self.pos)
    }

    fn error(&self) -> (r: Option<SourceError>) {
        source::again_opt(&self.err)
    }

    fn kind(&self) -> (r: SourceKind) {
        SourceKind::HttpRange
    }
}

// ------------------------------------------------------------------------ laws

/// A read of zero bytes means the end and nothing else; "come again" means that
/// the stream is alive and the position unchanged.
pub proof fn law_zero_means_end(s: Stream, want: int)
    requires
        want > 0,
    ensures
        s.settled(s.gives(want), s.ends(want)) == Ok::<nat, Trouble>(0) ==> s.over_at(s.pos as int),
        s.settled(s.gives(want), s.ends(want)) == Err::<nat, Trouble>(Trouble::WouldBlock)
            && s.err is None ==> !s.over_at(s.pos as int) && s.gives(want) == 0,
{
}

/// What can be had without waiting is never more than the window holds, and a
/// read gives all of it or all that was asked for.
pub proof fn law_available_is_real(s: Stream, want: int)
    requires
        want >= 0,
        s.err is None,
        !s.over_at(s.pos as int),
    ensures
        s.left() <= s.buf.len(),
        s.gives(want) == cache::smaller(want, s.left() as int),
{
}

/// The window holds bytes of this stream.
pub open spec fn window_of(s: Stream, all: Seq<u8>) -> bool {
    s.buf.len() > 0 ==> s.end() <= all.len() && s.buf == all.subrange(s.start as int, s.end())
}

/// With a transport that gives the bytes of a stream, every read gives the bytes
/// of that stream at the reading position, and the window keeps doing so through
/// reads, seeks, requests and fetches.
pub proof fn law_reads_the_stream(
    s: Stream,
    all: Seq<u8>,
    want: int,
    pos: u64,
    from: u64,
    gen: u64,
    got: Result<Seq<u8>, Trouble>,
)
    requires
        window_of(s, all),
        want >= 0,
        got matches Ok(d) ==> from + d.len() <= all.len() && d == all.subrange(
            from as int,
            from + d.len(),
        ),
    ensures
        s.gives(want) > 0 ==> s.given(want) == all.subrange(s.pos as int, s.pos + s.gives(want)),
        window_of(s.passed(want), all),
        window_of(s.sought(pos), all),
        window_of(s.asking(from), all),
        window_of(s.fetching(), all),
        window_of(s.fetched(from, gen, got), all),
        window_of(s.primed(), all),
{
    let n = s.gives(want);
    if n > 0 {
        assert(s.given(want) =~= all.subrange(s.pos as int, s.pos + n));
    }
}

/// After a seek the end that an earlier place found does not count: a window is
/// asked for, or the place is in the window already.
pub proof fn law_seek_forgets_end(s: Stream, pos: u64)
    ensures
        s.sought(pos).pos == pos,
        s.covers(pos as int) || (s.sought(pos).pending && !s.sought(pos).eof && s.sought(
            pos,
        ).want_from == pos),
{
}

/// A fetch that a newer request overtook changes nothing: neither the window nor
/// the error, and the newer request still waits or runs.
pub proof fn law_overtaken_fetch_is_dropped(
    s: Stream,
    from: u64,
    gen: u64,
    got: Result<Seq<u8>, Trouble>,
)
    requires
        s.generation != gen,
        !s.cancelled,
    ensures
        s.fetched(from, gen, got) == s,
{
}

/// A request makes every fetch that runs an overtaken one.
pub proof fn law_request_overtakes(s: Stream, from: u64)
    ensures
        s.asking(from).generation != s.generation,
        !s.asking(from).running,
{
}

/// One window is one request: while it is fetched, a read inside it and a call
/// for more ask for nothing, and what was fetched is taken in.
pub proof fn law_one_request_per_window(s: Stream, want: int, data: Seq<u8>)
    requires
        s.wf(),
        s.will_cover(s.pos as int),
        !s.cancelled,
        data.len() > 0,
    ensures
        s.passed(want) == s,
        s.primed() == s,
        ({
            let t = s.passed(want).fetched(s.want_from, s.generation, Ok(data));
            t.buf == data && t.start == s.want_from && !t.pending && !t.running
        }),
{
}

/// A seek during a fetch keeps its request: once the overtaken fetch is back, the
/// next fetch is the one at the new place.
pub proof fn law_seek_during_fetch_is_served(s: Stream, pos: u64, got: Result<Seq<u8>, Trouble>)
    requires
        s.wf(),
        s.running,
        !s.cancelled,
    ensures
        ({
            let t = s.sought(pos).fetched(s.want_from, s.generation, got);
            t == s.sought(pos) && t.pending && t.want_from == pos
        }),
{
}

} // verus!
