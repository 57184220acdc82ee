//! FLAC metadata blocks: pictures and comments.

use vstd::prelude::*;
use crate::tags::image;
use crate::tags::numbers;
use crate::text;

verus! {

/// The picture in a picture block: behind the kind, the type name, the
/// description and sixteen bytes of measures.
pub open spec fn block_picture(block: Seq<u8>) -> Option<Seq<u8>> {
    let mime_end = 8 + numbers::be32_of(block.skip(4)) as int;
    let desc_end = mime_end + 4 + numbers::be32_of(block.skip(mime_end)) as int + 16;
    let start = desc_end + 4;
    let len = numbers::be32_of(block.skip(desc_end)) as int;
    if block.len() < 32 || mime_end + 4 > block.len() || desc_end + 4 > block.len() {
        None
    } else if len == 0 || len > image::MAX_ART || start + len > block.len() {
        None
    } else {
        Some(block.subrange(start, start + len))
    }
}

pub fn flac_picture_data(block: &[u8]) -> (r: Option<Vec<u8>>)
    ensures
        image::opt_bytes(r) == block_picture(block@),
{
    let n: usize = block.len();
    if n < 32 {
        return None;
    }
    let b1 = vstd::slice::slice_subrange(block, 4, n);
    assert(b1@ =~= block@.skip(4));
    let mime_len = numbers::be32(b1);
    if mime_len > n - 12 {
        return None;
    }
    let mime_end: usize = 8 + mime_len;
    let b2 = vstd::slice::slice_subrange(block, mime_end, n);
    assert(b2@ =~= block@.skip(mime_end as int));
    let desc_len = numbers::be32(b2);
    if n - mime_end < 24 || desc_len > n - mime_end - 24 {
        return None;
    }
    let desc_end: usize = mime_end + 4 + desc_len + 16;
    let b3 = vstd::slice::slice_subrange(block, desc_end, n);
    assert(b3@ =~= block@.skip(desc_end as int));
    let len = numbers::be32(b3);
    let start: usize = desc_end + 4;
    if len == 0 || len > image::MAX_ART || len > n - start {
        return None;
    }
    let out = vstd::slice::slice_to_vec(vstd::slice::slice_subrange(block, start, start + len));
    Some(out)
}

/// The picture of the first picture block, from the block header at `i` on,
/// that holds one.
pub open spec fn picture_from(bytes: Seq<u8>, i: int) -> Option<Seq<u8>>
    decreases bytes.len() - i,
{
    if i + 4 > bytes.len() {
        None
    } else {
        let size = bytes[i + 1] as int * 0x1_0000 + bytes[i + 2] as int * 0x100 + bytes[i + 3] as int;
        let start = i + 4;
        if start + size > bytes.len() {
            None
        } else {
            let found = block_picture(bytes.subrange(start, start + size));
            if bytes[i] as int % 128 == 6 && found is Some {
                Some(image::picture_or_all(found->0))
            } else if bytes[i] >= 128 {
                None
            } else {
                picture_from(bytes, start + size)
            }
        }
    }
}

/// The mark at the head of a FLAC file.
pub open spec fn is_flac(bytes: Seq<u8>) -> bool {
    text::begins(bytes, seq![0x66u8, 0x4cu8, 0x61u8, 0x43u8])
}

pub fn has_flac_mark(bytes: &[u8]) -> (r: bool)
    ensures
        r == is_flac(bytes@),
{
    let mark: [u8; 4] = [0x66, 0x4c, 0x61, 0x43];
    assert(mark@ =~= seq![0x66u8, 0x4cu8, 0x61u8, 0x43u8]);
    text::bytes_at(bytes, mark.as_slice(), 0)
}

/// The first comment block, from the block header at `i` on. A block that is cut
/// short ends the search, and so does the last one.
pub open spec fn comment_block_from(bytes: Seq<u8>, i: int) -> Option<Seq<u8>>
    decreases bytes.len() - i,
{
    if i + 4 > bytes.len() {
        None
    } else {
        let size = bytes[i + 1] as int * 0x1_0000 + bytes[i + 2] as int * 0x100 + bytes[i + 3] as int;
        let start = i + 4;
        if start + size > bytes.len() {
            None
        } else if bytes[i] as int % 128 == 4 {
            Some(bytes.subrange(start, start + size))
        } else if bytes[i] >= 128 {
            None
        } else {
            comment_block_from(bytes, start + size)
        }
    }
}

/// The comment block of a FLAC file.
pub fn extract_flac_comments(bytes: &[u8]) -> (r: Option<Vec<u8>>)
    ensures
        image::opt_bytes(r) == (if is_flac(bytes@) {
            comment_block_from(bytes@, 4)
        } else {
            None
        }),
{
    if !has_flac_mark(bytes) {
        return None;
    }
    let n: usize = bytes.len();
    let mut i: usize = 4;
    while n - i >= 4
        invariant
            n == bytes@.len(),
            i <= n,
            is_flac(bytes@),
            comment_block_from(bytes@, 4) == comment_block_from(bytes@, i as int),
        decreases n - i,
    {
        let size: usize = bytes[i + 1] as usize * 0x1_0000 + bytes[i + 2] as usize * 0x100 + bytes[i
            + 3] as usize;
        let start: usize = i + 4;
        if size > n - start {
            return None;
        }
        if bytes[i] % 128 == 4 {
            let body = vstd::slice::slice_to_vec(
                vstd::slice::slice_subrange(bytes, start, start + size),
            );
            return Some(body);
        }
        if bytes[i] >= 128 {
            return None;
        }
        i = start + size;
    }
    None
}

/// The cover of a FLAC file.
pub open spec fn flac_cover(bytes: Seq<u8>) -> Option<Seq<u8>> {
    if bytes.len() < 8 || bytes.subrange(0, 4) != seq![0x66u8, 0x4cu8, 0x61u8, 0x43u8] {
        None
    } else {
        picture_from(bytes, 4)
    }
}

pub fn extract_flac_picture(bytes: &[u8]) -> (r: Option<Vec<u8>>)
    ensures
        image::opt_bytes(r) == flac_cover(bytes@),
{
    let n: usize = bytes.len();
    if n < 8 {
        return None;
    }
    let ghost magic = bytes@.subrange(0, 4);
    if bytes[0] != 0x66 || bytes[1] != 0x4c || bytes[2] != 0x61 || bytes[3] != 0x43 {
        assert(magic[0] == bytes@[0] && magic[1] == bytes@[1] && magic[2] == bytes@[2] && magic[3]
            == bytes@[3]);
        return None;
    }
    assert(magic =~= seq![0x66u8, 0x4cu8, 0x61u8, 0x43u8]);
    let mut i: usize = 4;
    while n - i >= 4
        invariant
            n == bytes@.len(),
            i <= n,
            flac_cover(bytes@) == picture_from(bytes@, i as int),
        decreases n - i,
    {
        let last: bool = bytes[i] >= 128;
        let typ: u8 = bytes[i] % 128;
        let size: usize = bytes[i + 1] as usize * 0x1_0000 + bytes[i + 2] as usize * 0x100 + bytes[i
            + 3] as usize;
        let start: usize = i + 4;
        if size > n - start {
            return None;
        }
        if typ == 6 {
            let found = flac_picture_data(vstd::slice::slice_subrange(bytes, start, start + size));
            if let Some(pic) = found {
                return Some(image::picture_or_rest(pic));
            }
        }
        if last {
            return None;
        }
        i = start + size;
    }
    None
}

} // verus!
