//! The one online source that plays, and the valve in front of the decoder.
//!
//! Opening takes seconds and runs beside the screen, so every play request takes
//! a number; an opening whose number is no longer the current one gives up at
//! each step.

use vstd::prelude::*;
use crate::source;
use crate::source::AudioSource;
use crate::source::SourceError;
use crate::source::Trouble;
use crate::source::cache::CacheConfig;
use crate::source::http::HttpRangeSource;
use crate::source::http::Stream;

verus! {

/// The valve opens at this many bytes.
pub const GATE_BYTES: usize = 65536;

/// The current online source, and the number of the latest play request.
pub struct Remote {
    token: u32,
    source: Option<HttpRangeSource>,
}

/// What a [`Remote`] holds.
pub struct RemoteView {
    pub token: u32,
    pub source: Option<Stream>,
}

pub open spec fn stream_of(s: Option<HttpRangeSource>) -> Option<Stream> {
    match s {
        Some(x) => Some(x@),
        None => None,
    }
}

impl View for Remote {
    type V = RemoteView;

    closed spec fn view(&self) -> RemoteView {
        RemoteView { token: self.token, source: stream_of(self.source) }
    }
}

impl RemoteView {
    pub open spec fn wf(self) -> bool {
        self.source matches Some(s) ==> s.wf()
    }

    pub open spec fn over(self) -> bool {
        match self.source {
            Some(s) => s.over_at(s.pos as int),
            None => true,
        }
    }

    pub open spec fn left(self) -> nat {
        match self.source {
            Some(s) => s.left(),
            None => usize::MAX as nat,
        }
    }

    pub open spec fn reaches_end(self) -> bool {
        match self.source {
            Some(s) => s.reaches_end(),
            None => true,
        }
    }

    /// Whether the decoder may be called: always for a local file; online where
    /// enough is there, or the stream is over, or nothing more will come.
    pub open spec fn gate_open(self) -> bool {
        self.source is None || self.over() || self.left() >= GATE_BYTES || self.reaches_end()
    }
}

pub open spec fn size_outcome(r: Result<Option<u64>, SourceError>) -> Result<Option<u64>, Trouble> {
    match r {
        Ok(n) => Ok(n),
        Err(e) => Err(e@),
    }
}

/// What opening an address comes to, once the transport answered with the
/// length of the stream or failed: a request that was overtaken is cancelled,
/// and there is room for one source only.
pub open spec fn opening(r: RemoteView, token: u32, opened: Result<Option<u64>, Trouble>) -> Result<
    (),
    Trouble,
> {
    match opened {
        Err(e) => Err(e),
        Ok(_) => if r.token != token {
            Err(Trouble::Cancelled)
        } else if r.source is Some {
            Err(Trouble::Unsupported)
        } else {
            Ok(())
        },
    }
}

/// What becomes of an opening once the decoder said whether it takes the
/// stream.
pub open spec fn attaching(r: RemoteView, token: u32, taken: bool) -> Result<(), Trouble> {
    if !taken {
        Err(Trouble::Unsupported)
    } else if r.token != token {
        Err(Trouble::Cancelled)
    } else {
        Ok(())
    }
}

impl Remote {
    pub fn new() -> (r: Self)
        ensures
            r@.token == 0,
            r@.source is None,
            r@.wf(),
    {
        Remote { token: 0, source: None }
    }

    /// Declares that a new play request begins, and gives its number.
    pub fn new_token(&mut self) -> (r: u32)
        requires
            old(self)@.token < u32::MAX,
        ensures
            r == old(self)@.token + 1,
            final(self)@.token == r,
            final(self)@.source == old(self)@.source,
    {
        self.token = self.token + 1;
        self.token
    }

    /// Whether a number is still the current one.
    pub fn token_current(&self, token: u32) -> (r: bool)
        ensures
            r == (self@.token == token),
    {
        self.token == token
    }

    /// Takes in a stream that was opened; see [`Remote::attach`] for what
    /// follows.
    pub fn open_remote(&mut self, url: &str, token: u32, opened: Result<Option<u64>, SourceError>) -> (r:
        Result<(), SourceError>)
        requires
            old(self)@.wf(),
        ensures
            final(self)@.wf(),
            final(self)@.token == old(self)@.token,
            source::done_outcome(r) == opening(old(self)@, token, size_outcome(opened)),
            final(self)@.source == (if r is Ok {
                Some(Stream::opened(url@, opened->Ok_0))
            } else {
                old(self)@.source
            }),
    {
        let size = match opened {
            Ok(n) => n,
            Err(e) => {
                return Err(e);
            },
        };
        if self.token != token {
            return Err(SourceError::Cancelled);
        }
        if self.source.is_some() {
            return Err(SourceError::Unsupported);
        }
        self.source = Some(HttpRangeSource::new(url, size, CacheConfig::default()));
        Ok(())
    }

    /// Takes in whether the decoder could be set on the stream. Where the opening
    /// comes to nothing the stream is dropped; a decoder that was set for a
    /// request overtaken meanwhile is to be closed.
    pub fn attach(&mut self, token: u32, taken: bool) -> (r: Result<(), SourceError>)
        requires
            old(self)@.wf(),
        ensures
            final(self)@.wf(),
            final(self)@.token == old(self)@.token,
            source::done_outcome(r) == attaching(old(self)@, token, taken),
            final(self)@.source == (if r is Ok {
                old(self)@.source
            } else {
                None
            }),
    {
        if !taken {
            self.source = None;
            return Err(SourceError::Unsupported);
        }
        if self.token != token {
            self.source = None;
            return Err(SourceError::Cancelled);
        }
        Ok(())
    }

    /// Drops the source. The decoder must be closed by then.
    pub fn close_remote(&mut self)
        ensures
            final(self)@.wf(),
            final(self)@.token == old(self)@.token,
            final(self)@.source is None,
    {
        self.source = None;
    }

    pub fn active(&self) -> (r: bool)
        ensures
            r == (self@.source is Some),
    {
        self.source.is_some()
    }

    /// Whether the decoder may be called.
    pub fn gate_ok(&self) -> (r: bool)
        requires
            self@.wf(),
        ensures
            r == self@.gate_open(),
    {
        if !self.active() {
            return true;
        }
        if self.is_eof() {
            return true;
        }
        if self.available() >= GATE_BYTES {
            return true;
        }
        self.at_cached_end()
    }

    /// Whether the window reaches to the known end.
    pub fn at_cached_end(&self) -> (r: bool)
        requires
            self@.wf(),
        ensures
            r == self@.reaches_end(),
    {
        match &self.source {
            Some(s) => s.at_cached_end(),
            None => true,
        }
    }

    /// Bytes that are not decoded yet; a local file is not limited by them.
    pub fn available(&self) -> (r: usize)
        ensures
            r == self@.left(),
    {
        match &self.source {
            Some(s) => s.available(),
            None => usize::MAX,
        }
    }

    /// Asks for more data while the valve is shut.
    pub fn prime(&mut self)
        requires
            old(self)@.wf(),
        ensures
            final(self)@.wf(),
            final(self)@.token == old(self)@.token,
            final(self)@.source == (match old(self)@.source {
                Some(s) => Some(s.primed()),
                None => None,
            }),
    {
        let mut slot: Option<HttpRangeSource> = None;
        std::mem::swap(&mut slot, &mut self.source);
        if let Some(mut s) = slot {
            s.prime();
            self.source = Some(s);
        }
    }

    pub fn is_eof(&self) -> (r: bool)
        ensures
            r == self@.over(),
    {
        match &self.source {
            Some(s) => s.is_eof(),
            None => true,
        }
    }

    pub fn error(&self) -> (r: Option<SourceError>)
        ensures
            source::trouble(r) == (match self@.source {
                Some(s) => s.err,
                None => None,
            }),
    {
        match &self.source {
            Some(s) => s.error(),
            None => None,
        }
    }

    /// A play request is given up: the fetching side is told to stop, and reads
    /// no longer wait for it.
    pub fn cancel(&mut self)
        requires
            old(self)@.wf(),
        ensures
            final(self)@.wf(),
            final(self)@.token == old(self)@.token,
            final(self)@.source == (match old(self)@.source {
                Some(s) => Some(Stream { cancelled: true, ..s }),
                None => None,
            }),
    {
        let mut slot: Option<HttpRangeSource> = None;
        std::mem::swap(&mut slot, &mut self.source);
        if let Some(mut s) = slot {
            s.cancel();
            self.source = Some(s);
        }
    }

    pub fn url(&self) -> (r: String)
        ensures
            r@ == (match self@.source {
                Some(s) => s.url,
                None => Seq::empty(),
            }),
    {
        match &self.source {
            Some(s) => s.url().to_owned(),
            None => String::new(),
        }
    }

    /// Takes the source out, to work on it.
    pub fn take_source(&mut self) -> (r: Option<HttpRangeSource>)
        ensures
            stream_of(r) == old(self)@.source,
            final(self)@.source is None,
            final(self)@.token == old(self)@.token,
    {
        let mut slot: Option<HttpRangeSource> = None;
        std::mem::swap(&mut slot, &mut self.source);
        slot
    }

    /// Puts the source back.
    pub fn put_source(&mut self, s: Option<HttpRangeSource>)
        requires
            stream_of(s) matches Some(x) ==> x.wf(),
        ensures
            final(self)@.source == stream_of(s),
            final(self)@.token == old(self)@.token,
            final(self)@.wf(),
    {
        self.source = s;
    }
}

// ----------------------------------------------------- what the decoder is told

/// What the decoder's read is answered: a count, or -1 for "not now" and for
/// every failure.
pub open spec fn read_code(r: Result<nat, Trouble>) -> int {
    match r {
        Ok(n) => n as int,
        Err(_) => -1,
    }
}

pub fn io_read_code(r: &Result<usize, SourceError>) -> (code: i64)
    requires
        r matches Ok(n) ==> n <= i64::MAX,
    ensures
        code == read_code(source::read_outcome(*r)),
{
    match r {
        Ok(n) => *n as i64,
        Err(_) => -1,
    }
}

/// What a seek counts from: 2 is the end, 1 the position, all else the start.
pub open spec fn seek_base(s: Stream, whence: i32) -> i64 {
    if whence == 2 {
        match s.size {
            Some(n) => n as i64,
            None => 0,
        }
    } else if whence == 1 {
        s.pos as i64
    } else {
        0
    }
}

/// Where a seek goes; never before the start.
pub open spec fn seek_place(s: Stream, off: i64, whence: i32) -> int {
    let t = seek_base(s, whence) + off;
    if t > 0 {
        t
    } else {
        0
    }
}

/// Moves as the decoder asks, and answers with the new position.
pub fn io_seek(src: &mut HttpRangeSource, off: i64, whence: i32) -> (r: i64)
    requires
        old(src)@.wf(),
        i64::MIN <= seek_base(old(src)@, whence) + off <= i64::MAX,
    ensures
        final(src)@.wf(),
        r == seek_place(old(src)@, off, whence),
        final(src)@ == old(src)@.sought(seek_place(old(src)@, off, whence) as u64),
{
    let base: i64 = if whence == 2 {
        match src.size() {
            Some(n) => n as i64,
            None => 0,
        }
    } else if whence == 1 {
        src.tell() as i64
    } else {
        0
    };
    let t: i64 = base + off;
    let target: i64 = if t > 0 {
        t
    } else {
        0
    };
    let _ = src.seek(target as u64);
    target
}

/// The position as the decoder sees it.
pub fn io_tell(src: &HttpRangeSource) -> (r: i64)
    ensures
        r == src@.pos as i64,
{
    src.tell() as i64
}

/// The length as the decoder sees it; -1 where it is unknown.
pub fn io_size(src: &HttpRangeSource) -> (r: i64)
    ensures
        r == (match src@.size {
            Some(n) => n as i64,
            None => -1i64,
        }),
{
    match src.size() {
        Some(n) => n as i64,
        None => -1,
    }
}

// ------------------------------------------------------------------------ laws

/// A newer play request overtakes every opening: it ends with "cancelled", and
/// no source is left from it.
pub proof fn law_newer_request_overtakes(r: RemoteView, token: u32, size: Option<u64>)
    requires
        r.token != token,
    ensures
        opening(r, token, Ok(size)) == Err::<(), Trouble>(Trouble::Cancelled),
        attaching(r, token, true) == Err::<(), Trouble>(Trouble::Cancelled),
{
}

/// The valve never shuts on a local file, nor at the end of a stream; and it is
/// shut only where a decoder would run dry while more can come.
pub proof fn law_gate(r: RemoteView)
    ensures
        r.source is None ==> r.gate_open(),
        r.over() ==> r.gate_open(),
        r.reaches_end() ==> r.gate_open(),
        !r.gate_open() ==> r.left() < GATE_BYTES && !r.over() && !r.reaches_end(),
{
}

/// The last stretch of a stream plays however short it is: with the window up
/// to the known end the valve stays open while it is read to the end.
pub proof fn law_gate_lets_the_end_out(r: RemoteView, s: Stream, want: int)
    requires
        r.source == Some(s),
        s.wf(),
        s.reaches_end(),
        want > 0,
        s.err is None,
    ensures
        s.passed(want).reaches_end() || s.passed(want).over_at(s.passed(want).pos as int),
{
}

/// A stream that was given up never makes a read wait.
pub proof fn law_cancelled_never_waits(s: Stream, want: int)
    requires
        s.cancelled,
    ensures
        !(s.ends(want) is Wait),
{
}

/// A read that gives zero bytes to the decoder is the end; "not now" is told
/// apart from it.
pub proof fn law_decoder_sees_end_only_at_end(s: Stream, want: int)
    requires
        want > 0,
        s.err is None,
    ensures
        read_code(s.settled(s.gives(want), s.ends(want))) == 0 ==> s.over_at(s.pos as int),
{
}

/// The valve opens at 64 kibibytes, and for a local file it is never shut.
pub proof fn law_gate_opens_at_its_mark(r: RemoteView)
    ensures
        r.source is None ==> r.gate_open(),
        r.source is Some && r.left() >= 65536 ==> r.gate_open(),
        r.source is Some && r.left() < 65536 && !r.over() && !r.reaches_end() ==> !r.gate_open(),
{
}

/// Every play request has a number of its own, and only the latest is current.
pub proof fn law_numbers_are_taken_in_turn(r: &mut Remote, n: u32, after: Remote, k: u32, now: bool)
    requires
        call_ensures(Remote::new_token, (r,), n),
        call_ensures(Remote::token_current, (&after, k), now),
        after@ == final(r)@,
    ensures
        n == old(r)@.token + 1,
        now <==> k == n,
        final(r)@.source == old(r)@.source,
{
}

/// A seek counts from the start, from the position or from the end, and stops at
/// the start.
pub proof fn law_seek_places(s: Stream, off: i64, n: u64)
    requires
        s.pos < 0x8000_0000_0000_0000,
        n < 0x8000_0000_0000_0000,
        s.size == Some(n),
    ensures
        seek_place(s, off, 0) == (if off > 0 {
            off as int
        } else {
            0
        }),
        seek_place(s, off, 1) == (if s.pos + off > 0 {
            s.pos + off
        } else {
            0
        }),
        seek_place(s, off, 2) == (if n + off > 0 {
            n + off
        } else {
            0
        }),
        seek_place(s, 0, 1) == s.pos,
        seek_place(s, 0, 2) == n,
{
}

/// The decoder is told how many bytes it got, and -1 for whatever went wrong.
pub proof fn law_read_is_told_as_a_count(n: nat, e: Trouble)
    ensures
        read_code(Ok(n)) == n,
        read_code(Err(e)) == -1,
{
}

/// An opening that fails leaves things as they were, and one that succeeds begins
/// at the head of its own address.
pub proof fn law_opened_source_begins_at_its_head(
    r: &mut Remote,
    url: &str,
    token: u32,
    opened: Result<Option<u64>, SourceError>,
    done: Result<(), SourceError>,
)
    requires
        call_ensures(Remote::open_remote, (r, url, token, opened), done),
        r@.wf(),
    ensures
        done is Ok ==> opened is Ok && old(r)@.source is None && token == old(r)@.token && (
        final(r)@.source matches Some(s) && s.url == url@ && s.size == opened->Ok_0 && s.pos == 0
            && s.pending && s.want_from == 0),
        done is Err ==> final(r)@.source == old(r)@.source,
        opened is Ok && old(r)@.source is None && token == old(r)@.token ==> done is Ok,
{
}

/// An opening is refused for the transport's own failure first, then as overtaken,
/// then for want of room; else the stream is there from its beginning.
pub proof fn law_openings(r: RemoteView, token: u32, size: Option<u64>, e: Trouble)
    ensures
        opening(r, token, Err(e)) == Err::<(), Trouble>(e),
        r.token != token ==> opening(r, token, Ok(size)) == Err::<(), Trouble>(Trouble::Cancelled),
        r.token == token && r.source is Some ==> opening(r, token, Ok(size)) == Err::<(), Trouble>(
            Trouble::Unsupported,
        ),
        r.token == token && r.source is None ==> opening(r, token, Ok(size)) is Ok,
{
}

/// A stream that the decoder takes for the current request stays; any other is
/// dropped.
pub proof fn law_attached_stream_stays(
    r: &mut Remote,
    token: u32,
    taken: bool,
    done: Result<(), SourceError>,
)
    requires
        r@.wf(),
        call_ensures(Remote::attach, (r, token, taken), done),
    ensures
        done is Ok <==> taken && old(r)@.token == token,
        done is Ok ==> final(r)@.source == old(r)@.source,
        done is Err ==> final(r)@.source is None,
        !taken ==> source::done_outcome(done) == Err::<(), Trouble>(Trouble::Unsupported),
        taken && old(r)@.token != token ==> source::done_outcome(done) == Err::<(), Trouble>(
            Trouble::Cancelled,
        ),
        final(r)@.token == old(r)@.token,
{
}

/// A source that was closed is gone; one that was taken out comes back as it was.
pub proof fn law_source_is_taken_and_put_back(
    a: &mut Remote,
    b: &mut Remote,
    s: Option<HttpRangeSource>,
    c: &mut Remote,
    there: bool,
)
    requires
        call_ensures(Remote::close_remote, (a,), ()),
        call_ensures(Remote::take_source, (b,), s),
        call_ensures(Remote::put_source, (c, s), ()),
        stream_of(s) matches Some(x) ==> x.wf(),
        call_ensures(Remote::active, (&*c,), there),
    ensures
        final(a)@.source is None,
        final(a)@.token == old(a)@.token,
        final(b)@.source is None,
        final(c)@.source == old(b)@.source,
        final(c)@.token == old(c)@.token,
        there <==> old(c)@.source is Some,
{
}

/// Without an online source nothing is waited for: it reads as over, without end
/// of bytes, without error and without an address.
pub proof fn law_no_source_is_no_hindrance(
    r: &Remote,
    left: usize,
    over: bool,
    err: Option<SourceError>,
    url: String,
    at_end: bool,
)
    requires
        r@.wf(),
        r@.source is None,
        call_ensures(Remote::available, (r,), left),
        call_ensures(Remote::is_eof, (r,), over),
        call_ensures(Remote::error, (r,), err),
        call_ensures(Remote::url, (r,), url),
        call_ensures(Remote::at_cached_end, (r,), at_end),
    ensures
        left == usize::MAX,
        over,
        err is None,
        url@.len() == 0,
        at_end,
        r@.gate_open(),
{
}

/// A request that is given up closes its stream and nothing else.
pub proof fn law_cancel_closes_the_stream(r: &mut Remote, s: Stream, q: &mut Remote)
    requires
        r@.wf(),
        r@.source == Some(s),
        call_ensures(Remote::cancel, (r,), ()),
        q@.wf(),
        q@.source == Some(s),
        call_ensures(Remote::prime, (q,), ()),
    ensures
        final(r)@.source == Some(Stream { cancelled: true, ..s }),
        final(r)@.token == old(r)@.token,
        final(q)@.source == Some(s.primed()),
{
}

} // verus!
