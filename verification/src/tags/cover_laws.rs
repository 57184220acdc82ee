//! What is read of a file for its cover, and how a cover is kept.

use vstd::prelude::*;
use crate::json;
use crate::tags;
use crate::tags::cover;
use crate::tags::laws;
use crate::text;

verus! {

/// Of a file that begins with a tag the header and the whole tag are read, of
/// another half of the most; the most is seventeen pieces of 64 KiB.
pub proof fn law_prefix_holds_the_tag(version: Seq<u8>, size: nat, other: Seq<u8>)
    requires
        version.len() == 3,
        size < 0x1000_0000,
        8 <= other.len(),
        other[0] != 'I' as u8,
    ensures
        ({
            let head = seq!['I' as u8, 'D' as u8, '3' as u8] + version + laws::seven_bit(size);
            let read = cover::wanted_prefix(head);
            &&& size + 10 <= 17 * 65536 ==> read == size + 10
            &&& size + 10 > 17 * 65536 ==> read == 17 * 65536
        }),
        cover::wanted_prefix(other) * 2 == 17 * 65536,
{
    let head = seq!['I' as u8, 'D' as u8, '3' as u8] + version + laws::seven_bit(size);
    reveal(laws::seven_bit);
    assert(head.len() == 10);
    assert(head.subrange(0, 3) =~= seq![0x49u8, 0x44u8, 0x33u8]);
    let a = (size / 0x20_0000 % 128) as u8;
    let b = (size / 0x4000 % 128) as u8;
    let c = (size / 0x80 % 128) as u8;
    let d = (size % 128) as u8;
    assert(head[6] == a && head[7] == b && head[8] == c && head[9] == d);
    lemma_shifted(a, b, c, d);
    assert(size == (size / 0x20_0000 % 128) * 0x20_0000 + (size / 0x4000 % 128) * 0x4000 + (size
        / 0x80 % 128) * 0x80 + size % 128) by (nonlinear_arith)
        requires
            size < 0x1000_0000,
    ;
    assert(cover::header_size(head) == size);
    assert(other.subrange(0, 3)[0] == other[0]);
}

proof fn lemma_shifted(a: u8, b: u8, c: u8, d: u8)
    requires
        a < 128,
        b < 128,
        c < 128,
        d < 128,
    ensures
        (((a as u32) << 21) | ((b as u32) << 14) | ((c as u32) << 7) | (d as u32)) == a * 0x20_0000
            + b * 0x4000 + c * 0x80 + d,
{
    assert((((a as u32) << 21) | ((b as u32) << 14) | ((c as u32) << 7) | (d as u32)) == a
        * 0x20_0000 + b * 0x4000 + c * 0x80 + d) by (bit_vector)
        requires
            a < 128,
            b < 128,
            c < 128,
            d < 128,
    ;
}

/// The digest of a path begins at the offset basis of the 64-bit FNV-1a hash; each
/// byte is folded in and multiplied by the prime of that hash.
pub proof fn law_digest_grows_by_bytes(front: Seq<u8>, b: u8)
    ensures
        cover::fnv_of(Seq::empty()) == 14695981039346656037u64,
        cover::fnv_of(front.push(b)) as int == (cover::fnv_of(front) ^ (b as u64)) * 1099511628211
            % 0x1_0000_0000_0000_0000,
{
    assert(front.push(b).drop_last() =~= front);
}

/// The cover of a file is kept under the sixteen digits of the path's digest.
pub proof fn law_cover_has_its_place(path: Seq<char>)
    ensures
        ({
            let digits = text::hex_text(
                cover::fnv_of(vstd::utf8::encode_utf8(path)) as nat,
                16,
                false,
            );
            cover::cache_path_text(path) == "ux0:/data/yunyin/covers/"@ + digits + ".rgba"@
        }),
{
}

/// The number in front of a kept cover is the size of its file, the lowest byte
/// first, and the pixels behind it are those of a square of 256 by 256.
pub proof fn law_kept_cover_begins_with_the_size(size: u64, rgba: Seq<u8>)
    ensures
        ({
            let b = cover::size_bytes(size);
            &&& b.len() == 8
            &&& size == b[0] + b[1] * 0x100 + b[2] * 0x1_0000 + b[3] * 0x100_0000 + b[4]
                * 0x1_0000_0000 + b[5] * 0x100_0000_0000 + b[6] * 0x1_0000_0000_0000 + b[7]
                * 0x100_0000_0000_0000
        }),
        cover::cache_entry(size, rgba) is Some <==> size > 0 && rgba.len() == 256 * 256 * 4,
        cover::cache_entry(size, rgba) matches Some(e) ==> e.len() == 8 + rgba.len() && e.skip(8)
            == rgba,
{
    let b = cover::size_bytes(size);
    assert(b[0] == cover::byte_of(size, 0) && b[1] == cover::byte_of(size, 1) && b[2]
        == cover::byte_of(size, 2) && b[3] == cover::byte_of(size, 3) && b[4] == cover::byte_of(
        size,
        4,
    ) && b[5] == cover::byte_of(size, 5) && b[6] == cover::byte_of(size, 6) && b[7]
        == cover::byte_of(size, 7));
    assert(((size >> 0u64) & 0xff) as u8 + ((size >> 8u64) & 0xff) as u8 * 0x100 + ((size >> 16u64)
        & 0xff) as u8 * 0x1_0000 + ((size >> 24u64) & 0xff) as u8 * 0x100_0000 + ((size >> 32u64)
        & 0xff) as u8 * 0x1_0000_0000 + ((size >> 40u64) & 0xff) as u8 * 0x100_0000_0000 + ((size
        >> 48u64) & 0xff) as u8 * 0x1_0000_0000_0000 + ((size >> 56u64) & 0xff) as u8
        * 0x100_0000_0000_0000 == size) by (bit_vector);
    if cover::cache_entry(size, rgba) is Some {
        assert((b + rgba).skip(8) =~= rgba);
    }
}

/// The handle that was noted last for a path is the one that is found.
pub proof fn law_last_handle_is_found(
    entries: Seq<(Seq<char>, i32)>,
    path: Seq<char>,
    other: Seq<char>,
    h: i32,
)
    requires
        other != path,
    ensures
        cover::handle_in(entries.push((path, h)), path) == Some(h),
        cover::handle_in(entries.push((path, h)), other) == cover::handle_in(entries, other),
        cover::handle_in(Seq::empty(), path) is None,
{
    assert(entries.push((path, h)).drop_last() =~= entries);
}

/// A cover without a path is refused, a known one answered, any other loaded.
pub proof fn law_cover_is_loaded_once(
    handles: &cover::CoverHandles,
    path: &str,
    r: cover::CoverStart,
)
    requires
        call_ensures(cover::CoverHandles::start, (handles, path), r),
    ensures
        path@.len() == 0 ==> r == cover::CoverStart::Answer(-1i32),
        path@.len() > 0 && handles.handle(path@) is None ==> r == cover::CoverStart::Load,
        path@.len() > 0 && handles.handle(path@) is Some ==> r == cover::CoverStart::Answer(
            handles.handle(path@)->0,
        ),
{
}

/// A decoder that succeeded gave four bytes for each pixel.
pub proof fn law_pixels_take_four_bytes(rc: i32, given: bool, w: i32, h: i32, r: Option<usize>)
    requires
        w > 0 && h > 0 ==> w * h * 4 <= usize::MAX,
        call_ensures(cover::decoded_bytes, (rc, given, w, h), r),
    ensures
        r is Some <==> rc == 0 && given && w > 0 && h > 0,
        r matches Some(n) ==> n == 4 * (w * h),
{
    if w > 0 && h > 0 {
        assert(w * h * 4 == 4 * (w * h));
        assert(w * h >= 0) by (nonlinear_arith)
            requires
                w > 0,
                h > 0,
        ;
    }
}

// ------------------------------------------------------------------- the tags

/// The frames that name a file's title, artist and album, as they are spelled.
pub proof fn law_frames_of_the_tags()
    ensures
        tags::TIT2@ == seq!['T' as u8, 'I' as u8, 'T' as u8, '2' as u8],
        tags::TPE1@ == seq!['T' as u8, 'P' as u8, 'E' as u8, '1' as u8],
        tags::TALB@ == seq!['T' as u8, 'A' as u8, 'L' as u8, 'B' as u8],
{
}

/// What is told of a file is its title, artist, album, whether it has a cover,
/// and its lyrics, each read from the frame or the comment of that meaning.
pub proof fn law_tags_are_told(bytes: Seq<u8>)
    requires
        bytes.len() > 0,
    ensures
        ({
            let title = tags::tag_text(
                bytes,
                seq!['T' as u8, 'I' as u8, 'T' as u8, '2' as u8],
                "TITLE"@,
            );
            let artist = tags::tag_text(
                bytes,
                seq!['T' as u8, 'P' as u8, 'E' as u8, '1' as u8],
                "ARTIST"@,
            );
            let album = tags::tag_text(
                bytes,
                seq!['T' as u8, 'A' as u8, 'L' as u8, 'B' as u8],
                "ALBUM"@,
            );
            tags::tags_json_text(bytes) == "{\"title\":\""@ + json::escaped(title, true)
                + "\",\"artist\":\""@ + json::escaped(artist, true) + "\",\"album\":\""@
                + json::escaped(album, true) + "\",\"cover\":"@ + (if tags::cover_of(bytes)
                is Some {
                "true"@
            } else {
                "false"@
            }) + ",\"lyrics\":\""@ + json::escaped(tags::lyrics_of(bytes), true) + "\"}"@
        }),
{
    law_frames_of_the_tags();
}

} // verus!
