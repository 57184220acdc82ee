//! Covers on their way to the screen: how much of a file to read, the cache of
//! decoded pictures, and the texture handles.

use vstd::prelude::*;
use crate::host;
use crate::tags::image;
use crate::tags;
use crate::text;

verus! {

/// The side of a decoded cover.
pub const COVER_PX: u32 = 256;

/// The most that is read of a file.
pub const PREFIX_CAP: usize = 1114112;

/// Bytes of a decoded cover.
pub const COVER_BYTES: usize = 262144;

/// The tag size in an ID3 header, its four bytes shifted by seven bits each.
pub open spec fn header_size(head: Seq<u8>) -> u32 {
    (((head[6] as u32) << 21) | ((head[7] as u32) << 14) | ((head[8] as u32) << 7) | (
    head[9] as u32))
}

/// How much of a file is wanted, told from its first bytes (at most ten): the
/// whole tag of a file that begins with one, half the most of another, and a
/// file shorter than eight bytes as it is.
pub open spec fn wanted_prefix(head: Seq<u8>) -> int {
    let want = if head.len() >= 10 && head.subrange(0, 3) == seq![0x49u8, 0x44u8, 0x33u8] {
        10 + header_size(head)
    } else if head.len() >= 8 {
        PREFIX_CAP as int / 2
    } else {
        head.len() as int
    };
    if want < PREFIX_CAP {
        want
    } else {
        PREFIX_CAP as int
    }
}

pub fn prefix_len(head: &[u8]) -> (r: usize)
    ensures
        r == wanted_prefix(head@),
        r <= PREFIX_CAP,
{
    let n: usize = head.len();
    if n >= 10 {
        let ghost magic = head@.subrange(0, 3);
        assert(magic[0] == head@[0] && magic[1] == head@[1] && magic[2] == head@[2]);
        if head[0] == 0x49 && head[1] == 0x44 && head[2] == 0x33 {
            assert(magic =~= seq![0x49u8, 0x44u8, 0x33u8]);
            let tag: u32 = ((head[6] as u32) << 21) | ((head[7] as u32) << 14) | ((head[8] as u32)
                << 7) | (head[9] as u32);
            return if (tag as usize) < PREFIX_CAP - 10 {
                tag as usize + 10
            } else {
                PREFIX_CAP
            };
        }
    }
    if n >= 8 {
        PREFIX_CAP / 2
    } else {
        n
    }
}

// --------------------------------------------------------------------- cache

/// FNV-1a over bytes.
pub open spec fn fnv_of(data: Seq<u8>) -> u64
    decreases data.len(),
{
    if data.len() == 0 {
        0xcbf29ce484222325
    } else {
        (fnv_of(data.drop_last()) ^ data.last() as u64).wrapping_mul(0x100000001b3)
    }
}

pub fn fnv64(data: &[u8]) -> (r: u64)
    ensures
        r == fnv_of(data@),
{
    let mut h: u64 = 0xcbf29ce484222325;
    let mut i: usize = 0;
    assert(data@.take(0) == Seq::<u8>::empty());
    while i < data.len()
        invariant
            i <= data@.len(),
            h == fnv_of(data@.take(i as int)),
        decreases data.len() - i,
    {
        assert(data@.take(i + 1).drop_last() == data@.take(i as int));
        h = (h ^ data[i] as u64).wrapping_mul(0x100000001b3);
        i += 1;
    }
    assert(data@.take(i as int) == data@);
    h
}

pub open spec fn cache_path_text(path: Seq<char>) -> Seq<char> {
    "ux0:/data/yunyin/covers/"@ + text::hex_text(
        fnv_of(vstd::utf8::encode_utf8(path)) as nat,
        16,
        false,
    ) + ".rgba"@
}

/// Where the decoded cover of a file is kept.
pub fn cover_cache_path(path: &str) -> (r: Option<String>)
    ensures
        match r {
            Some(p) => path@.len() > 0 && p@ == cache_path_text(path@),
            None => path@.len() == 0,
        },
{
    if path.is_empty() {
        return None;
    }
    let h = fnv64(path.as_bytes());
    let mut s = "ux0:/data/yunyin/covers/".to_owned();
    s.append(text::hex_fixed(h, 16, false).as_str());
    s.append(".rgba");
    Some(s)
}

/// The number in eight little-endian bytes.
pub open spec fn size_bytes(size: u64) -> Seq<u8> {
    Seq::new(8, |i: int| byte_of(size, i))
}

pub open spec fn byte_of(size: u64, i: int) -> u8 {
    ((size >> ((8 * i) as u64)) & 0xff) as u8
}

/// A kept cover: the size of its file, and the pixels. A size of zero, or
/// pixels of another amount, are not kept.
pub open spec fn cache_entry(size: u64, rgba: Seq<u8>) -> Option<Seq<u8>> {
    if size == 0 || rgba.len() != COVER_BYTES {
        None
    } else {
        Some(size_bytes(size) + rgba)
    }
}

/// The pixels of a kept cover, if it is whole and belongs to a file of this
/// size.
pub open spec fn cached_pixels(data: Seq<u8>, size: u64) -> Option<Seq<u8>> {
    if size != 0 && data.len() == COVER_BYTES + 8 && data.take(8) == size_bytes(size) {
        Some(data.skip(8))
    } else {
        None
    }
}

/// What is kept for a file is what is found for it while its size stays, and
/// only then.
pub proof fn law_cache_gives_back(size: u64, rgba: Seq<u8>, now: u64)
    requires
        cache_entry(size, rgba) is Some,
    ensures
        cached_pixels(cache_entry(size, rgba)->0, now) == if now == size {
            Some(rgba)
        } else {
            None
        },
{
    let e = cache_entry(size, rgba)->0;
    assert(e.take(8) =~= size_bytes(size));
    assert(e.skip(8) =~= rgba);
    if now != size && size_bytes(size) == size_bytes(now) {
        assert forall|i: int| 0 <= i < 8 implies byte_of(size, i) == byte_of(now, i) by {
            assert(size_bytes(size)[i] == size_bytes(now)[i]);
        }
        lemma_bytes_tell(size, now);
    }
}

proof fn lemma_bytes_tell(a: u64, b: u64)
    requires
        forall|i: int| 0 <= i < 8 ==> byte_of(a, i) == byte_of(b, i),
    ensures
        a == b,
{
    assert(byte_of(a, 0) == byte_of(b, 0));
    assert(byte_of(a, 1) == byte_of(b, 1));
    assert(byte_of(a, 2) == byte_of(b, 2));
    assert(byte_of(a, 3) == byte_of(b, 3));
    assert(byte_of(a, 4) == byte_of(b, 4));
    assert(byte_of(a, 5) == byte_of(b, 5));
    assert(byte_of(a, 6) == byte_of(b, 6));
    assert(byte_of(a, 7) == byte_of(b, 7));
    assert(((a >> 0u64) & 0xff) as u8 == ((b >> 0u64) & 0xff) as u8 && ((a >> 8u64) & 0xff) as u8
        == ((b >> 8u64) & 0xff) as u8 && ((a >> 16u64) & 0xff) as u8 == ((b >> 16u64) & 0xff) as u8
        && ((a >> 24u64) & 0xff) as u8 == ((b >> 24u64) & 0xff) as u8 && ((a >> 32u64) & 0xff) as u8
        == ((b >> 32u64) & 0xff) as u8 && ((a >> 40u64) & 0xff) as u8 == ((b >> 40u64) & 0xff) as u8
        && ((a >> 48u64) & 0xff) as u8 == ((b >> 48u64) & 0xff) as u8 && ((a >> 56u64) & 0xff) as u8
        == ((b >> 56u64) & 0xff) as u8 ==> a == b) by (bit_vector);
}

fn size_byte(size: u64, i: usize) -> (r: u8)
    requires
        i < 8,
    ensures
        r == byte_of(size, i as int),
{
    ((size >> ((8 * i) as u64)) & 0xff) as u8
}

/// The bytes to keep for a decoded cover.
pub fn cover_cache_entry(size: u64, rgba: &[u8]) -> (r: Option<Vec<u8>>)
    ensures
        image::opt_bytes(r) == cache_entry(size, rgba@),
{
    if size == 0 || rgba.len() != COVER_BYTES {
        return None;
    }
    let mut buf: Vec<u8> = Vec::new();
    let mut i: usize = 0;
    while i < 8
        invariant
            i <= 8,
            buf@ =~= size_bytes(size).take(i as int),
        decreases 8 - i,
    {
        buf.push(size_byte(size, i));
        i += 1;
    }
    let mut k: usize = 0;
    while k < rgba.len()
        invariant
            k <= rgba@.len(),
            buf@ =~= size_bytes(size) + rgba@.take(k as int),
        decreases rgba.len() - k,
    {
        buf.push(rgba[k]);
        k += 1;
    }
    assert(rgba@.take(k as int) =~= rgba@);
    Some(buf)
}

/// The pixels in kept bytes.
pub fn cover_cache_rgba(data: &[u8], size: u64) -> (r: Option<Vec<u8>>)
    ensures
        image::opt_bytes(r) == cached_pixels(data@, size),
{
    if size == 0 || data.len() != COVER_BYTES + 8 {
        return None;
    }
    let mut i: usize = 0;
    while i < 8
        invariant
            i <= 8,
            data@.len() == COVER_BYTES + 8,
            forall|j: int| 0 <= j < i ==> #[trigger] data@[j] == byte_of(size, j),
        decreases 8 - i,
    {
        if data[i] != size_byte(size, i) {
            assert(data@.take(8)[i as int] != size_bytes(size)[i as int]);
            return None;
        }
        i += 1;
    }
    assert(data@.take(8) =~= size_bytes(size));
    let out = vstd::slice::slice_to_vec(vstd::slice::slice_subrange(data, 8, data.len()));
    assert(out@ =~= data@.skip(8));
    Some(out)
}

// ------------------------------------------------------------------- handles

/// The texture handles of the covers uploaded so far, by path.
pub struct CoverHandles {
    entries: Vec<(String, i32)>,
}

pub open spec fn handle_in(entries: Seq<(Seq<char>, i32)>, path: Seq<char>) -> Option<i32>
    decreases entries.len(),
{
    if entries.len() == 0 {
        None
    } else if entries.last().0 == path {
        Some(entries.last().1)
    } else {
        handle_in(entries.drop_last(), path)
    }
}

/// What to do for a cover.
#[derive(Clone, Copy, Debug, PartialEq, Eq, Structural)]
pub enum CoverStart {
    /// This is the answer.
    Answer(i32),
    /// The pixels have to be had first.
    Load,
}

impl CoverHandles {
    pub closed spec fn listed(self) -> Seq<(Seq<char>, i32)> {
        self.entries@.map_values(|e: (String, i32)| (e.0@, e.1))
    }

    /// The handle under which a cover is known.
    pub open spec fn handle(self, path: Seq<char>) -> Option<i32> {
        handle_in(self.listed(), path)
    }

    pub fn empty() -> (r: Self)
        ensures
            forall|p: Seq<char>| #[trigger] r.handle(p) is None,
    {
        CoverHandles { entries: Vec::new() }
    }

    pub fn get(&self, path: &str) -> (r: Option<i32>)
        ensures
            r == self.handle(path@),
    {
        let mut i: usize = self.entries.len();
        let ghost all = self.listed();
        assert(all.take(all.len() as int) == all);
        while i > 0
            invariant
                i <= self.entries@.len(),
                all == self.listed(),
                handle_in(all, path@) == handle_in(all.take(i as int), path@),
            decreases i,
        {
            assert(all.take(i as int).drop_last() == all.take(i - 1));
            if text::same_text(self.entries[i - 1].0.as_str(), path) {
                return Some(self.entries[i - 1].1);
            }
            i -= 1;
        }
        None
    }

    fn put(&mut self, path: &str, handle: i32)
        ensures
            final(self).handle(path@) == Some(handle),
            forall|p: Seq<char>|
                p != path@ ==> #[trigger] final(self).handle(p) == old(self).handle(p),
    {
        let ghost before = self.listed();
        self.entries.push((path.to_owned(), handle));
        assert(self.listed() =~= before.push((path@, handle)));
        assert(self.listed().drop_last() =~= before);
    }

    /// What an upload starts with: no path is an error, a known cover is
    /// answered at once, every other has to be loaded.
    pub fn start(&self, path: &str) -> (r: CoverStart)
        ensures
            r == (if path@.len() == 0 {
                CoverStart::Answer(-1i32)
            } else {
                match self.handle(path@) {
                    Some(h) => CoverStart::Answer(h),
                    None => CoverStart::Load,
                }
            }),
    {
        if path.is_empty() {
            return CoverStart::Answer(-1);
        }
        match self.get(path) {
            Some(h) => CoverStart::Answer(h),
            None => CoverStart::Load,
        }
    }

    /// Notes the handle that an upload gave; a failed one is not noted.
    pub fn finish(&mut self, path: &str, handle: i32)
        ensures
            handle >= 0 ==> final(self).handle(path@) == Some(handle),
            forall|p: Seq<char>|
                p != path@ || handle < 0 ==> #[trigger] final(self).handle(p) == old(self).handle(p),
    {
        if handle >= 0 {
            self.put(path, handle);
        }
    }
}

/// The picture to decode for a cover, from the prefix of its file.
pub fn cover_art(prefix: &[u8]) -> (r: Option<Vec<u8>>)
    ensures
        image::opt_bytes(r) == (if prefix@.len() == 0 {
            None
        } else {
            tags::cover_of(prefix@)
        }),
{
    if prefix.len() == 0 {
        return None;
    }
    tags::extract_cover_bytes(prefix)
}

/// The pixels that an image decoder gave, in bytes; none where it failed.
pub fn decoded_bytes(rc: i32, given: bool, w: i32, h: i32) -> (r: Option<usize>)
    requires
        w > 0 && h > 0 ==> w * h * 4 <= usize::MAX,
    ensures
        r == (if rc != 0 || !given || w <= 0 || h <= 0 {
            None
        } else {
            Some((w * h * 4) as usize)
        }),
{
    if rc != 0 || !given || w <= 0 || h <= 0 {
        return None;
    }
    assert(w * h <= w * h * 4) by (nonlinear_arith)
        requires
            w > 0,
            h > 0,
    ;
    let n: usize = w as usize * h as usize;
    Some(n * 4)
}

/// Hands decoded pixels to the interface core and notes the handle.
pub fn upload_cover(
    ui: &mut pocketjs_core::Ui,
    handles: &mut CoverHandles,
    path: &str,
    rgba: &[u8],
) -> (r: i32)
    ensures
        host::uploaded(*old(ui), *final(ui), r, rgba@.take(COVER_BYTES as int)),
        rgba@.len() < COVER_BYTES ==> r == -1,
        r >= 0 ==> final(handles).handle(path@) == Some(r),
        forall|p: Seq<char>|
            p != path@ || r < 0 ==> #[trigger] final(handles).handle(p) == old(handles).handle(p),
{
    let h = host::upload_texture(ui, rgba, COVER_PX, COVER_PX);
    handles.finish(path, h);
    h
}

} // verus!
