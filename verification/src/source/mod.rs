//! The seam between where bytes come from and the decoder.
//!
//! Three rules hold: nothing above this seam knows HTTP, nothing below it knows
//! a music service, and a read of zero bytes means the end of the stream and
//! nothing else. A source that has no data for now says so with
//! [`SourceError::WouldBlock`].

pub mod cache;
pub mod http;
pub mod http_laws;
pub mod local;
pub mod netplay;
pub mod netplay_laws;
pub mod remote;

use vstd::prelude::*;

verus! {

/// Why a source failed.
#[derive(Clone, Debug, PartialEq, Eq)]
pub enum SourceError {
    /// No data now; the stream is alive.
    WouldBlock,
    /// The end of the stream.
    Eof,
    /// This source cannot seek.
    NotSeekable,
    /// The transport failed.
    Network(String),
    /// The server answered with something of no use.
    Http { status: u16 },
    /// The address went stale.
    Expired,
    /// A newer request took over.
    Cancelled,
    /// The storage failed.
    Io(String),
    Unsupported,
}

/// What a [`SourceError`] says.
pub enum Trouble {
    WouldBlock,
    Eof,
    NotSeekable,
    Network(Seq<char>),
    Http { status: u16 },
    Expired,
    Cancelled,
    Io(Seq<char>),
    Unsupported,
}

impl View for SourceError {
    type V = Trouble;

    open spec fn view(&self) -> Trouble {
        match self {
            SourceError::WouldBlock => Trouble::WouldBlock,
            SourceError::Eof => Trouble::Eof,
            SourceError::NotSeekable => Trouble::NotSeekable,
            SourceError::Network(s) => Trouble::Network(s@),
            SourceError::Http { status } => Trouble::Http { status: *status },
            SourceError::Expired => Trouble::Expired,
            SourceError::Cancelled => Trouble::Cancelled,
            SourceError::Io(s) => Trouble::Io(s@),
            SourceError::Unsupported => Trouble::Unsupported,
        }
    }
}

impl SourceError {
    /// The same error once more.
    pub fn again(&self) -> (r: Self)
        ensures
            r@ == self@,
    {
        match self {
            SourceError::WouldBlock => SourceError::WouldBlock,
            SourceError::Eof => SourceError::Eof,
            SourceError::NotSeekable => SourceError::NotSeekable,
            SourceError::Network(s) => SourceError::Network(s.as_str().to_owned()),
            SourceError::Http { status } => SourceError::Http { status: *status },
            SourceError::Expired => SourceError::Expired,
            SourceError::Cancelled => SourceError::Cancelled,
            SourceError::Io(s) => SourceError::Io(s.as_str().to_owned()),
            SourceError::Unsupported => SourceError::Unsupported,
        }
    }
}

pub open spec fn trouble(e: Option<SourceError>) -> Option<Trouble> {
    match e {
        Some(x) => Some(x@),
        None => None,
    }
}

pub fn again_opt(e: &Option<SourceError>) -> (r: Option<SourceError>)
    ensures
        trouble(r) == trouble(*e),
{
    match e {
        Some(x) => Some(x.again()),
        None => None,
    }
}

/// What came of reading.
pub open spec fn read_outcome(r: Result<usize, SourceError>) -> Result<nat, Trouble> {
    match r {
        Ok(n) => Ok(n as nat),
        Err(e) => Err(e@),
    }
}

/// What came of an operation without a value.
pub open spec fn done_outcome(r: Result<(), SourceError>) -> Result<(), Trouble> {
    match r {
        Ok(_) => Ok(()),
        Err(e) => Err(e@),
    }
}

/// Where the bytes come from. Only the log and the screen may look at it.
#[derive(Clone, Copy, Debug, PartialEq, Eq, Structural)]
pub enum SourceKind {
    LocalFile,
    HttpRange,
}

/// What a source shows of itself.
pub struct SourceView {
    pub pos: u64,
    /// The total length, where it is known.
    pub size: Option<u64>,
    /// Bytes that can be read without waiting.
    pub available: nat,
    /// The stream is over.
    pub eof: bool,
    pub error: Option<Trouble>,
    pub kind: SourceKind,
}

/// A stream of bytes that a decoder pulls from.
pub trait AudioSource {
    spec fn shown(&self) -> SourceView;

    /// Its own conditions.
    spec fn sound(&self) -> bool;

    /// Fills `dst` as far as it can without waiting. Zero bytes mean the end;
    /// `WouldBlock` means that the position is unchanged and the caller should
    /// come again.
    fn read(&mut self, dst: &mut [u8]) -> (r: Result<usize, SourceError>)
        requires
            old(self).sound(),
        ensures
            final(self).sound(),
            final(dst)@.len() == old(dst)@.len(),
            match r {
                Ok(n) => n <= old(dst)@.len() && final(self).shown().pos == old(self).shown().pos + n
                    && (n == 0 && old(dst)@.len() > 0 ==> old(self).shown().eof),
                Err(e) => final(self).shown().pos == old(self).shown().pos && (e is WouldBlock
                    && old(self).shown().error is None ==> !old(self).shown().eof),
            },
    ;

    /// Moves to an absolute position.
    fn seek(&mut self, pos: u64) -> (r: Result<(), SourceError>)
        requires
            old(self).sound(),
        ensures
            final(self).sound(),
            r is Ok ==> final(self).shown().pos == pos,
    ;

    fn tell(&self) -> (r: u64)
        ensures
            r == self.shown().pos,
    ;

    fn size(&self) -> (r: Option<u64>)
        ensures
            r == self.shown().size,
    ;

    fn available(&self) -> (r: usize)
        ensures
            r == self.shown().available,
    ;

    fn is_eof(&self) -> (r: bool)
        ensures
            r == self.shown().eof,
    ;

    fn error(&self) -> (r: Option<SourceError>)
        ensures
            trouble(r) == self.shown().error,
    ;

    fn kind(&self) -> (r: SourceKind)
        ensures
            r == self.shown().kind,
    ;
}

/// Writes bytes into a slice from `at` on.
pub fn copy_into(dst: &mut [u8], at: usize, src: &[u8])
    requires
        at + src@.len() <= old(dst)@.len(),
    ensures
        final(dst)@ == old(dst)@.take(at as int) + src@ + old(dst)@.skip(at + src@.len()),
{
    let n: usize = src.len();
    let len: usize = dst.len();
    let mut i: usize = 0;
    while i < n
        invariant
            i <= n,
            n == src@.len(),
            at + n <= len,
            len == dst@.len(),
            dst@.len() == old(dst)@.len(),
            forall|k: int|
                0 <= k < dst@.len() ==> #[trigger] dst@[k] == (if at <= k < at + i {
                    src@[k - at]
                } else {
                    old(dst)@[k]
                }),
        decreases n - i,
    {
        dst[at + i] = src[i];
        i += 1;
    }
    assert(dst@ =~= old(dst)@.take(at as int) + src@ + old(dst)@.skip(at + src@.len()));
}

} // verus!
