//! A window of compressed bytes that the network fills and a decoder drains.

use vstd::prelude::*;
use crate::source;

verus! {

/// The marks of a cache.
#[derive(Clone, Copy, Debug, PartialEq, Eq, Structural)]
pub struct CacheConfig {
    /// The most that is held.
    pub capacity: usize,
    /// Above this the network can rest.
    pub high_water: usize,
    /// Below this the network fetches.
    pub refill: usize,
    /// Below this the decoder is not called.
    pub decode_margin: usize,
    pub low_water: usize,
}

pub open spec fn default_config() -> CacheConfig {
    CacheConfig {
        capacity: 1048576,
        high_water: 786432,
        refill: 524288,
        decode_margin: 65536,
        low_water: 131072,
    }
}

impl Default for CacheConfig {
    fn default() -> (r: Self)
        ensures
            r == default_config(),
    {
        CacheConfig {
            capacity: 1048576,
            high_water: 786432,
            refill: 524288,
            decode_margin: 65536,
            low_water: 131072,
        }
    }
}

/// A contiguous window of a stream.
pub struct ByteCache {
    cfg: CacheConfig,
    bytes: Vec<u8>,
    start: u64,
    eof: bool,
}

/// What a [`ByteCache`] holds.
#[verifier::ext_equal]
pub struct CacheView {
    pub cfg: CacheConfig,
    pub bytes: Seq<u8>,
    /// The offset of the first byte.
    pub start: u64,
    pub eof: bool,
}

impl View for ByteCache {
    type V = CacheView;

    closed spec fn view(&self) -> CacheView {
        CacheView { cfg: self.cfg, bytes: self.bytes@, start: self.start, eof: self.eof }
    }
}

pub open spec fn smaller(a: int, b: int) -> int {
    if a < b {
        a
    } else {
        b
    }
}

impl CacheView {
    pub open spec fn empty(cfg: CacheConfig, start: u64) -> CacheView {
        CacheView { cfg, bytes: Seq::empty(), start, eof: false }
    }

    /// How many more bytes it takes.
    pub open spec fn room(self) -> int {
        if self.bytes.len() < self.cfg.capacity {
            self.cfg.capacity - self.bytes.len()
        } else {
            0
        }
    }

    pub open spec fn with(self, data: Seq<u8>) -> CacheView {
        CacheView { bytes: self.bytes + data.take(smaller(self.room(), data.len() as int)), ..self }
    }

    pub open spec fn without(self, n: int) -> CacheView {
        CacheView { bytes: self.bytes.skip(n), start: (self.start + n) as u64, ..self }
    }
}

impl Default for ByteCache {
    fn default() -> (r: Self)
        ensures
            r@ == CacheView::empty(default_config(), 0),
    {
        ByteCache::new(CacheConfig::default())
    }
}

impl ByteCache {
    pub fn new(cfg: CacheConfig) -> (r: Self)
        ensures
            r@ == CacheView::empty(cfg, 0),
    {
        let r = ByteCache { cfg, bytes: Vec::new(), start: 0, eof: false };
        assert(r@ =~= CacheView::empty(cfg, 0));
        r
    }

    /// Drops everything, the end too.
    pub fn reset(&mut self)
        ensures
            final(self)@ == CacheView::empty(old(self)@.cfg, 0),
    {
        self.bytes = Vec::new();
        self.start = 0;
        self.eof = false;
        assert(self@ =~= CacheView::empty(old(self)@.cfg, 0));
    }

    pub fn config(&self) -> (r: CacheConfig)
        ensures
            r == self@.cfg,
    {
        self.cfg
    }

    /// Where the window begins.
    pub fn start(&self) -> (r: u64)
        ensures
            r == self@.start,
    {
        self.start
    }

    /// How many bytes a decoder can have now: never more than are held.
    pub fn available(&self) -> (r: usize)
        ensures
            r == self@.bytes.len(),
    {
        self.bytes.len()
    }

    pub fn mark_eof(&mut self)
        ensures
            final(self)@ == (CacheView { eof: true, ..old(self)@ }),
    {
        self.eof = true;
        assert(self@ =~= CacheView { eof: true, ..old(self)@ });
    }

    pub fn is_eof(&self) -> (r: bool)
        ensures
            r == self@.eof,
    {
        self.eof
    }

    /// Whether the network should fetch.
    pub fn wants_refill(&self) -> (r: bool)
        ensures
            r == (!self@.eof && self@.bytes.len() < self@.cfg.refill),
    {
        !self.eof && self.bytes.len() < self.cfg.refill
    }

    /// Whether the decoder may be called.
    pub fn can_decode(&self) -> (r: bool)
        ensures
            r == (self@.bytes.len() >= self@.cfg.decode_margin || self@.eof),
    {
        self.bytes.len() >= self.cfg.decode_margin || self.eof
    }

    /// Appends bytes that continue the window, as many as there is room for.
    pub fn push(&mut self, data: &[u8]) -> (n: usize)
        ensures
            n == smaller(old(self)@.room(), data@.len() as int),
            final(self)@ == old(self)@.with(data@),
    {
        let room: usize = if self.bytes.len() < self.cfg.capacity {
            self.cfg.capacity - self.bytes.len()
        } else {
            0
        };
        let n: usize = if room < data.len() {
            room
        } else {
            data.len()
        };
        let ghost before = self.bytes@;
        let mut i: usize = 0;
        while i < n
            invariant
                i <= n <= data@.len(),
                self.cfg == old(self).cfg,
                self.start == old(self).start,
                self.eof == old(self).eof,
                self.bytes@ =~= before + data@.take(i as int),
            decreases n - i,
        {
            self.bytes.push(data[i]);
            i += 1;
        }
        assert(self@ =~= old(self)@.with(data@));
        n
    }

    /// Moves bytes out of the window.
    pub fn read(&mut self, dst: &mut [u8]) -> (n: usize)
        requires
            old(self)@.start + smaller(old(dst)@.len() as int, old(self)@.bytes.len() as int)
                <= u64::MAX,
        ensures
            n == smaller(old(dst)@.len() as int, old(self)@.bytes.len() as int),
            final(dst)@ == old(self)@.bytes.take(n as int) + old(dst)@.skip(n as int),
            final(self)@ == old(self)@.without(n as int),
    {
        let n: usize = if dst.len() < self.bytes.len() {
            dst.len()
        } else {
            self.bytes.len()
        };
        let ghost held = self.bytes@;
        let part = vstd::slice::slice_subrange(self.bytes.as_slice(), 0, n);
        source::copy_into(dst, 0, part);
        assert(part@ =~= held.take(n as int));
        assert(dst@ =~= held.take(n as int) + old(dst)@.skip(n as int));
        let rest = vstd::slice::slice_to_vec(
            vstd::slice::slice_subrange(self.bytes.as_slice(), n, self.bytes.len()),
        );
        assert(rest@ =~= held.skip(n as int));
        self.bytes = rest;
        self.start = self.start + n as u64;
        assert(self@ =~= old(self)@.without(n as int));
        n
    }

    /// Moves the window to an absolute offset.
    pub fn seek(&mut self, pos: u64)
        ensures
            final(self)@ == CacheView::empty(old(self)@.cfg, pos),
    {
        self.reset();
        self.start = pos;
        assert(self@ =~= CacheView::empty(old(self)@.cfg, pos));
    }
}

/// Bytes come out in the order in which they went in.
pub proof fn law_first_in_first_out(c: CacheView, data: Seq<u8>, n: int)
    requires
        data.len() <= c.room(),
        0 <= n <= c.bytes.len() + data.len(),
    ensures
        c.with(data).bytes.take(n) + c.with(data).without(n).bytes == c.bytes + data,
{
    assert(data.take(data.len() as int) =~= data);
    assert(c.with(data).bytes.take(n) + c.with(data).without(n).bytes =~= c.bytes + data);
}

/// A window never grows beyond its capacity.
pub proof fn law_capacity_holds(c: CacheView, data: Seq<u8>)
    requires
        c.bytes.len() <= c.cfg.capacity,
    ensures
        c.with(data).bytes.len() <= c.cfg.capacity,
{
}

/// The end of the window moves only by what is pushed: reading keeps it.
pub proof fn law_reading_keeps_end(c: CacheView, n: int)
    requires
        0 <= n <= c.bytes.len(),
        c.start + n <= u64::MAX,
    ensures
        c.without(n).start + c.without(n).bytes.len() == c.start + c.bytes.len(),
{
}

/// An empty window that is not over does not let the decoder run.
pub proof fn law_empty_is_not_decodable(c: CacheView)
    requires
        c.bytes.len() == 0,
        !c.eof,
        c.cfg.decode_margin > 0,
    ensures
        !(c.bytes.len() >= c.cfg.decode_margin || c.eof),
{
}

/// The marks of a cache that is not told otherwise: a mebibyte, three quarters and
/// half of it, 64 and 128 kibibytes.
pub proof fn law_default_marks()
    ensures
        default_config().capacity == 0x10_0000,
        default_config().high_water == 0xc_0000,
        default_config().refill == 0x8_0000,
        default_config().decode_margin == 0x1_0000,
        default_config().low_water == 0x2_0000,
{
}

/// A cache asks for more below its mark while the stream goes on; a decoder may be
/// called at its own mark, and at the end whatever is left.
pub proof fn law_marks_are_kept(c: ByteCache, refill: bool, decode: bool)
    requires
        call_ensures(ByteCache::wants_refill, (&c,), refill),
        call_ensures(ByteCache::can_decode, (&c,), decode),
    ensures
        refill <==> !c@.eof && c@.bytes.len() < c@.cfg.refill,
        decode <==> c@.eof || c@.bytes.len() >= c@.cfg.decode_margin,
{
}

/// Pushing takes as much as there is room for, in order, and says how much.
pub proof fn law_push_takes_what_fits(c: &mut ByteCache, data: &[u8], n: usize)
    requires
        call_ensures(ByteCache::push, (c, data), n),
        c@.bytes.len() <= c@.cfg.capacity,
    ensures
        n <= data@.len(),
        final(c)@.bytes == old(c)@.bytes + data@.take(n as int),
        n < data@.len() ==> final(c)@.bytes.len() == old(c)@.cfg.capacity,
        final(c)@.start == old(c)@.start,
{
}

/// Reading gives the oldest bytes, as many as fit, and moves the window on.
pub proof fn law_read_gives_the_oldest(c: &mut ByteCache, dst: &mut [u8], n: usize)
    requires
        call_ensures(ByteCache::read, (c, dst), n),
        c@.start + dst@.len() <= u64::MAX,
    ensures
        n <= old(dst)@.len(),
        n <= old(c)@.bytes.len(),
        n == old(dst)@.len() || n == old(c)@.bytes.len(),
        final(dst)@.take(n as int) == old(c)@.bytes.take(n as int),
        final(c)@.bytes == old(c)@.bytes.skip(n as int),
        final(c)@.start == old(c)@.start + n,
{
    assert(final(dst)@.take(n as int) =~= old(c)@.bytes.take(n as int));
}

/// A window that is moved is empty, stands at its new place, and has not seen the
/// end; one that is dropped stands at the beginning. The marks stay.
pub proof fn law_window_moves(a: &mut ByteCache, pos: u64, b: &mut ByteCache, c: &mut ByteCache)
    requires
        call_ensures(ByteCache::seek, (a, pos), ()),
        call_ensures(ByteCache::reset, (b,), ()),
        call_ensures(ByteCache::mark_eof, (c,), ()),
    ensures
        final(a)@.start == pos,
        final(a)@.bytes.len() == 0,
        !final(a)@.eof,
        final(a)@.cfg == old(a)@.cfg,
        final(b)@.start == 0,
        final(b)@.bytes.len() == 0,
        !final(b)@.eof,
        final(b)@.cfg == old(b)@.cfg,
        final(c)@.eof,
        final(c)@.bytes == old(c)@.bytes,
        final(c)@.start == old(c)@.start,
{
}

/// What a window holds is told as it is.
pub proof fn law_window_is_told(c: &ByteCache, left: usize, at: u64, over: bool, cfg: CacheConfig)
    requires
        call_ensures(ByteCache::available, (c,), left),
        call_ensures(ByteCache::start, (c,), at),
        call_ensures(ByteCache::is_eof, (c,), over),
        call_ensures(ByteCache::config, (c,), cfg),
    ensures
        left == c@.bytes.len(),
        at == c@.start,
        cfg == c@.cfg,
        over == c@.eof,
{
}

} // verus!
