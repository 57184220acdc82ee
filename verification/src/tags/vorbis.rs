//! Vorbis comments in Ogg files, with Vorbis or Opus inside, and in FLAC files.

use vstd::prelude::*;
use crate::text;
use crate::tags::base64;
use crate::tags::flac;
use crate::tags::image;
use crate::tags::numbers;

verus! {

// --------------------------------------------------------------------- pages

pub open spec fn is_page(bytes: Seq<u8>, i: int) -> bool {
    bytes[i] == 0x4f && bytes[i + 1] == 0x67 && bytes[i + 2] == 0x67 && bytes[i + 3] == 0x53
}

/// The sum of `n` segment lengths from `at` on.
pub open spec fn segments_len(bytes: Seq<u8>, at: int, n: int) -> int
    decreases n,
{
    if n <= 0 {
        0
    } else {
        segments_len(bytes, at, n - 1) + bytes[at + n - 1] as int
    }
}

/// The mark of a comment header of Vorbis.
pub open spec fn vorbis_mark() -> Seq<u8> {
    seq![3u8, 0x76u8, 0x6fu8, 0x72u8, 0x62u8, 0x69u8, 0x73u8]
}

/// The mark of a comment header of Opus: `OpusTags`.
pub open spec fn opus_mark() -> Seq<u8> {
    seq![0x4fu8, 0x70u8, 0x75u8, 0x73u8, 0x54u8, 0x61u8, 0x67u8, 0x73u8]
}

/// What a complete packet holds behind the mark of a comment header; `None` where
/// it is none.
pub open spec fn behind_mark(packet: Seq<u8>) -> Option<Seq<u8>> {
    if text::begins(packet, vorbis_mark()) {
        Some(packet.skip(7))
    } else if text::begins(packet, opus_mark()) {
        Some(packet.skip(8))
    } else {
        None
    }
}

fn body_of_packet(packet: &[u8]) -> (r: Option<Vec<u8>>)
    ensures
        image::opt_bytes(r) == behind_mark(packet@),
{
    let vorbis: [u8; 7] = [3, 0x76, 0x6f, 0x72, 0x62, 0x69, 0x73];
    assert(vorbis@ =~= vorbis_mark());
    if text::bytes_at(packet, vorbis.as_slice(), 0) {
        let body = vstd::slice::slice_to_vec(vstd::slice::slice_subrange(packet, 7, packet.len()));
        assert(body@ =~= packet@.skip(7));
        return Some(body);
    }
    let opus: [u8; 8] = [0x4f, 0x70, 0x75, 0x73, 0x54, 0x61, 0x67, 0x73];
    assert(opus@ =~= opus_mark());
    if text::bytes_at(packet, opus.as_slice(), 0) {
        let body = vstd::slice::slice_to_vec(vstd::slice::slice_subrange(packet, 8, packet.len()));
        assert(body@ =~= packet@.skip(8));
        return Some(body);
    }
    None
}

/// The body of the first comment header packet, from `i` on, where `packet` is
/// what earlier pages began. Bytes between pages are skipped; a page that is cut
/// short ends the search. A page whose last segment is full leaves its packet
/// open.
pub open spec fn comment_body_from(bytes: Seq<u8>, i: int, packet: Seq<u8>) -> Option<Seq<u8>>
    decreases bytes.len() - i,
    when 0 <= i
    via comment_body_decreases
{
    if i + 27 > bytes.len() {
        None
    } else if !is_page(bytes, i) {
        comment_body_from(bytes, i + 1, packet)
    } else {
        let n = bytes[i + 26] as int;
        let hdr = i + 27;
        let start = hdr + n;
        let end = start + segments_len(bytes, hdr, n);
        if start > bytes.len() || end > bytes.len() {
            None
        } else {
            let whole = packet + bytes.subrange(start, end);
            if n > 0 && bytes[hdr + n - 1] == 255 {
                comment_body_from(bytes, end, whole)
            } else if behind_mark(whole) is Some {
                behind_mark(whole)
            } else {
                comment_body_from(bytes, end, Seq::empty())
            }
        }
    }
}

#[via_fn]
proof fn comment_body_decreases(bytes: Seq<u8>, i: int, packet: Seq<u8>) {
    if i + 27 <= bytes.len() {
        lemma_segments_nonneg(bytes, i + 27, bytes[i + 26] as int);
    }
}

proof fn lemma_segments_nonneg(bytes: Seq<u8>, at: int, n: int)
    ensures
        0 <= segments_len(bytes, at, n),
        n >= 0 ==> segments_len(bytes, at, n) <= 255 * n,
    decreases n,
{
    if n > 0 {
        lemma_segments_nonneg(bytes, at, n - 1);
    }
}

/// The body of the comment header of an Ogg file.
pub fn comment_body(bytes: &[u8]) -> (r: Option<Vec<u8>>)
    ensures
        image::opt_bytes(r) == comment_body_from(bytes@, 0, Seq::empty()),
{
    let len: usize = bytes.len();
    let mut i: usize = 0;
    let mut packet: Vec<u8> = Vec::new();
    let ghost want = comment_body_from(bytes@, 0, Seq::empty());
    while len - i >= 27
        invariant
            len == bytes@.len(),
            i <= len,
            want == comment_body_from(bytes@, 0, Seq::empty()),
            want == comment_body_from(bytes@, i as int, packet@),
        decreases len - i,
    {
        if !(bytes[i] == 0x4f && bytes[i + 1] == 0x67 && bytes[i + 2] == 0x67 && bytes[i + 3]
            == 0x53) {
            i += 1;
            continue ;
        }
        let n: usize = bytes[i + 26] as usize;
        let hdr: usize = i + 27;
        proof {
            lemma_segments_nonneg(bytes@, hdr as int, n as int);
        }
        if n > len - hdr {
            return None;
        }
        let mut payload: usize = 0;
        let mut k: usize = 0;
        while k < n
            invariant
                k <= n <= 255,
                hdr + n <= bytes@.len(),
                bytes@.len() == len,
                payload == segments_len(bytes@, hdr as int, k as int),
                payload <= 255 * k,
            decreases n - k,
        {
            payload += bytes[hdr + k] as usize;
            k += 1;
        }
        let start: usize = hdr + n;
        if payload > len - start {
            return None;
        }
        let end: usize = start + payload;
        let ghost before = packet@;
        let mut j: usize = start;
        while j < end
            invariant
                start <= j <= end <= bytes@.len(),
                packet@ =~= before + bytes@.subrange(start as int, j as int),
            decreases end - j,
        {
            packet.push(bytes[j]);
            j += 1;
        }
        i = end;
        if n > 0 && bytes[hdr + n - 1] == 255 {
            continue ;
        }
        let body = body_of_packet(packet.as_slice());
        if body.is_some() {
            return body;
        }
        packet = Vec::new();
        assert(packet@ =~= Seq::empty());
    }
    None
}

// ------------------------------------------------------------------ comments

/// At most `count` comments from `p` on, each behind its length.
pub open spec fn entries_from(body: Seq<u8>, p: int, count: int) -> Seq<Seq<u8>>
    decreases count,
{
    let n = numbers::le32_of(body.skip(p)) as int;
    if count <= 0 || p + 4 > body.len() || p + 4 + n > body.len() {
        Seq::empty()
    } else {
        seq![body.subrange(p + 4, p + 4 + n)] + entries_from(body, p + 4 + n, count - 1)
    }
}

/// The comments of a header body: behind the vendor string and their count.
pub open spec fn entries_of(body: Seq<u8>) -> Seq<Seq<u8>> {
    let p = 4 + numbers::le32_of(body) as int;
    if body.len() < 8 || p + 4 > body.len() {
        Seq::empty()
    } else {
        entries_from(body, p + 4, numbers::le32_of(body.skip(p)) as int)
    }
}

pub open spec fn spans(body: Seq<u8>, at: Seq<(usize, usize)>) -> Seq<Seq<u8>> {
    at.map_values(|s: (usize, usize)| body.subrange(s.0 as int, s.1 as int))
}

/// Where the comments lie.
pub fn comment_entries(body: &[u8]) -> (r: Vec<(usize, usize)>)
    ensures
        spans(body@, r@) == entries_of(body@),
        forall|i: int| 0 <= i < r@.len() ==> (#[trigger] r@[i]).0 <= r@[i].1 <= body@.len(),
{
    let mut out: Vec<(usize, usize)> = Vec::new();
    let len: usize = body.len();
    assert(spans(body@, out@) =~= Seq::empty());
    if len < 8 {
        return out;
    }
    let vendor = numbers::le32(body);
    if vendor > len - 8 {
        return out;
    }
    let mut p: usize = 4 + vendor;
    let b = vstd::slice::slice_subrange(body, p, len);
    assert(b@ =~= body@.skip(p as int));
    let mut count: usize = numbers::le32(b);
    p += 4;
    let ghost all = entries_of(body@);
    assert(all == spans(body@, out@) + entries_from(body@, p as int, count as int));
    while count > 0 && len - p >= 4
        invariant
            len == body@.len(),
            p <= len,
            forall|i: int|
                0 <= i < out@.len() ==> (#[trigger] out@[i]).0 <= out@[i].1 <= body@.len(),
            all == spans(body@, out@) + entries_from(body@, p as int, count as int),
        ensures
            all == spans(body@, out@),
        decreases count,
    {
        let b = vstd::slice::slice_subrange(body, p, len);
        assert(b@ =~= body@.skip(p as int));
        let n = numbers::le32(b);
        let start: usize = p + 4;
        if n > len - start {
            assert(all =~= spans(body@, out@));
            break ;
        }
        let ghost before = out@;
        out.push((start, start + n));
        assert(spans(body@, out@) =~= spans(body@, before).push(
            body@.subrange(start as int, start + n),
        ));
        p = start + n;
        count -= 1;
        assert(all =~= spans(body@, out@) + entries_from(body@, p as int, count as int));
        if !(count > 0 && len - p >= 4) {
            assert(all =~= spans(body@, out@));
        }
    }
    out
}

/// A comment as text; empty where it is not UTF-8.
pub open spec fn entry_text(entry: Seq<u8>) -> Seq<char> {
    if vstd::utf8::valid_utf8(entry) {
        vstd::utf8::decode_utf8(entry)
    } else {
        Seq::empty()
    }
}

/// What stands behind the first equals sign of a comment whose key matches,
/// whatever its ASCII case.
pub open spec fn entry_value(entry: Seq<u8>, key: Seq<char>) -> Option<Seq<char>> {
    let t = entry_text(entry);
    match text::find(t, seq!['=']) {
        Some(i) => if text::same_ignoring_ascii_case(t.take(i), key) {
            Some(t.skip(i + 1))
        } else {
            None
        },
        None => None,
    }
}

fn value_of_entry(entry: &[u8], key: &[char]) -> (r: Option<String>)
    ensures
        match r {
            Some(v) => entry_value(entry@, key@) == Some(v@),
            None => entry_value(entry@, key@) is None,
        },
{
    let s: &str = match core::str::from_utf8(entry) {
        Ok(s) => s,
        Err(_) => {
            proof {
                text::lemma_find_from(Seq::<char>::empty(), seq!['='], 0);
            }
            return None;
        },
    };
    let cs = text::chars_of(s);
    let n: usize = cs.len();
    let mut eq: Vec<char> = Vec::new();
    eq.push('=');
    assert(eq@ =~= seq!['=']);
    match text::find_chars(cs.as_slice(), eq.as_slice()) {
        Some(i) => {
            let k = vstd::slice::slice_subrange(cs.as_slice(), 0, i);
            assert(k@ =~= cs@.take(i as int));
            if text::eq_ignore_ascii_case(k, key) {
                let v = text::text_of_range(cs.as_slice(), i + 1, n);
                assert(v@ =~= cs@.skip(i + 1));
                Some(v)
            } else {
                None
            }
        },
        None => None,
    }
}

/// The first value, not empty once trimmed, of the comments with a key.
pub open spec fn first_value(entries: Seq<Seq<u8>>, key: Seq<char>) -> Seq<char>
    decreases entries.len(),
{
    if entries.len() == 0 {
        Seq::empty()
    } else {
        match entry_value(entries[0], key) {
            Some(v) => if text::trimmed(v).len() > 0 {
                text::trimmed(v)
            } else {
                first_value(entries.skip(1), key)
            },
            None => first_value(entries.skip(1), key),
        }
    }
}

/// The comments of an Ogg file.
pub open spec fn ogg_comments_of(bytes: Seq<u8>) -> Seq<Seq<u8>> {
    match comment_body_from(bytes, 0, Seq::empty()) {
        Some(body) => entries_of(body),
        None => Seq::empty(),
    }
}

/// The comments of an Ogg or of a FLAC file.
pub open spec fn comments_of(bytes: Seq<u8>) -> Seq<Seq<u8>> {
    if flac::is_flac(bytes) {
        match flac::comment_block_from(bytes, 4) {
            Some(body) => entries_of(body),
            None => Seq::empty(),
        }
    } else {
        ogg_comments_of(bytes)
    }
}

/// The text of a comment of an Ogg or of a FLAC file.
pub fn extract_ogg_text(bytes: &[u8], key: &str) -> (r: String)
    ensures
        r@ == first_value(comments_of(bytes@), key@),
{
    let found = if flac::has_flac_mark(bytes) {
        flac::extract_flac_comments(bytes)
    } else {
        comment_body(bytes)
    };
    let body = match found {
        Some(b) => b,
        None => {
            return String::new();
        },
    };
    let kc = text::chars_of(key);
    let at = comment_entries(body.as_slice());
    let ghost entries = comments_of(bytes@);
    let mut k: usize = 0;
    assert(entries.skip(0) == entries);
    while k < at.len()
        invariant
            k <= at@.len(),
            kc@ == key@,
            entries == comments_of(bytes@),
            entries == spans(body@, at@),
            forall|i: int| 0 <= i < at@.len() ==> (#[trigger] at@[i]).0 <= at@[i].1 <= body@.len(),
            first_value(entries, key@) == first_value(entries.skip(k as int), key@),
        decreases at.len() - k,
    {
        let (from, to) = at[k];
        assert(entries.skip(k as int)[0] == body@.subrange(from as int, to as int));
        assert(entries.skip(k as int).skip(1) == entries.skip(k + 1));
        let entry = vstd::slice::slice_subrange(body.as_slice(), from, to);
        if let Some(v) = value_of_entry(entry, kc.as_slice()) {
            let t = text::trim(v.as_str());
            if !t.as_str().is_empty() {
                return t;
            }
        }
        k += 1;
    }
    String::new()
}

/// The picture in a picture comment.
pub open spec fn entry_picture(entry: Seq<u8>) -> Option<Seq<u8>> {
    match entry_value(entry, "METADATA_BLOCK_PICTURE"@) {
        Some(v) => match base64::b64_bytes(vstd::utf8::encode_utf8(v)) {
            Some(block) => match flac::block_picture(block) {
                Some(pic) => Some(image::picture_or_all(pic)),
                None => None,
            },
            None => None,
        },
        None => None,
    }
}

pub open spec fn first_picture(entries: Seq<Seq<u8>>) -> Option<Seq<u8>>
    decreases entries.len(),
{
    if entries.len() == 0 {
        None
    } else if entry_picture(entries[0]) is Some {
        entry_picture(entries[0])
    } else {
        first_picture(entries.skip(1))
    }
}

fn picture_of_entry(entry: &[u8]) -> (r: Option<Vec<u8>>)
    ensures
        image::opt_bytes(r) == entry_picture(entry@),
{
    let kc = text::chars_of("METADATA_BLOCK_PICTURE");
    let v = match value_of_entry(entry, kc.as_slice()) {
        Some(v) => v,
        None => {
            return None;
        },
    };
    let block = match base64::b64_decode(v.as_str()) {
        Some(b) => b,
        None => {
            return None;
        },
    };
    match flac::flac_picture_data(block.as_slice()) {
        Some(pic) => Some(image::picture_or_rest(pic)),
        None => None,
    }
}

/// The cover among the comments of an Ogg file.
pub fn extract_ogg_picture(bytes: &[u8]) -> (r: Option<Vec<u8>>)
    ensures
        image::opt_bytes(r) == first_picture(ogg_comments_of(bytes@)),
{
    let body = match comment_body(bytes) {
        Some(b) => b,
        None => {
            return None;
        },
    };
    let at = comment_entries(body.as_slice());
    let ghost entries = ogg_comments_of(bytes@);
    let mut k: usize = 0;
    assert(entries.skip(0) == entries);
    while k < at.len()
        invariant
            k <= at@.len(),
            entries == ogg_comments_of(bytes@),
            entries == spans(body@, at@),
            forall|i: int| 0 <= i < at@.len() ==> (#[trigger] at@[i]).0 <= at@[i].1 <= body@.len(),
            first_picture(entries) == first_picture(entries.skip(k as int)),
        decreases at.len() - k,
    {
        let (from, to) = at[k];
        assert(entries.skip(k as int)[0] == body@.subrange(from as int, to as int));
        assert(entries.skip(k as int).skip(1) == entries.skip(k + 1));
        let found = picture_of_entry(vstd::slice::slice_subrange(body.as_slice(), from, to));
        if found.is_some() {
            return found;
        }
        k += 1;
    }
    None
}

} // verus!
