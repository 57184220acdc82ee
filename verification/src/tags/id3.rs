//! ID3v2 frames: pictures, text, and lyrics.

use vstd::prelude::*;
use crate::text;
use crate::tags::image;
use crate::tags::numbers;

verus! {

// -------------------------------------------------------------------- frames

/// The frames between `pos` and `end`, each an identifier and its data. A zero
/// byte, an empty frame, or one that does not fit ends them.
pub open spec fn frames_from(bytes: Seq<u8>, safe: bool, pos: int, end: int) -> Seq<
    (Seq<u8>, Seq<u8>),
>
    decreases end - pos,
{
    if pos + 10 > end || bytes[pos] == 0 {
        Seq::empty()
    } else {
        let size_bytes = bytes.subrange(pos + 4, pos + 8);
        let size = if safe {
            numbers::synchsafe_of(size_bytes)
        } else {
            numbers::be32_of(size_bytes)
        };
        let start = pos + 10;
        if size == 0 || start + size > end {
            Seq::empty()
        } else {
            seq![(bytes.subrange(pos, pos + 4), bytes.subrange(start, start + size))]
                + frames_from(bytes, safe, start + size, end)
        }
    }
}

pub open spec fn tag_end(bytes: Seq<u8>) -> int {
    let end = 10 + numbers::synchsafe_of(bytes.subrange(6, 10));
    if end < bytes.len() {
        end as int
    } else {
        bytes.len() as int
    }
}

/// Where the first frame stands: behind the header, and behind the extended
/// header where the flags name one.
pub open spec fn first_frame(bytes: Seq<u8>) -> int {
    let end = tag_end(bytes);
    if bytes[5] as int / 64 % 2 == 1 && 14 <= end {
        let b = bytes.subrange(10, 14);
        let ext = if bytes[3] >= 4 {
            numbers::synchsafe_of(b)
        } else {
            numbers::be32_of(b)
        };
        let skip = if ext < 4 {
            4
        } else {
            ext as int
        };
        if 10 + skip < end {
            10 + skip
        } else {
            end
        }
    } else {
        10
    }
}

/// All frames of the tag at the head of a file; none without a tag.
pub open spec fn frames_of(bytes: Seq<u8>) -> Seq<(Seq<u8>, Seq<u8>)> {
    if bytes.len() < 10 || bytes.subrange(0, 3) != seq![0x49u8, 0x44u8, 0x33u8] {
        Seq::empty()
    } else {
        frames_from(bytes, bytes[3] >= 4, first_frame(bytes), tag_end(bytes))
    }
}

/// Where a frame lies in the file.
#[derive(Clone, Copy)]
pub struct FrameAt {
    pub pos: usize,
    pub start: usize,
    pub end: usize,
}

impl FrameAt {
    pub open spec fn within(self, bytes: Seq<u8>) -> bool {
        self.pos + 10 == self.start && self.start < self.end && self.end <= bytes.len()
    }

    pub open spec fn of(self, bytes: Seq<u8>) -> (Seq<u8>, Seq<u8>) {
        (
            bytes.subrange(self.pos as int, self.pos + 4),
            bytes.subrange(self.start as int, self.end as int),
        )
    }
}

pub open spec fn located(bytes: Seq<u8>, at: Seq<FrameAt>) -> Seq<(Seq<u8>, Seq<u8>)> {
    at.map_values(|f: FrameAt| f.of(bytes))
}

/// The frames of the tag, in order.
pub fn walk_id3_frames(bytes: &[u8]) -> (r: Vec<FrameAt>)
    ensures
        located(bytes@, r@) == frames_of(bytes@),
        forall|i: int| 0 <= i < r@.len() ==> (#[trigger] r@[i]).within(bytes@),
{
    let mut out: Vec<FrameAt> = Vec::new();
    assert(located(bytes@, out@) =~= Seq::empty());
    if bytes.len() < 10 {
        return out;
    }
    let ghost magic = bytes@.subrange(0, 3);
    if bytes[0] != 0x49 || bytes[1] != 0x44 || bytes[2] != 0x33 {
        assert(magic[0] == bytes@[0] && magic[1] == bytes@[1] && magic[2] == bytes@[2]);
        return out;
    }
    assert(magic =~= seq![0x49u8, 0x44u8, 0x33u8]);
    let safe: bool = bytes[3] >= 4;
    let tag_size = numbers::synchsafe(vstd::slice::slice_subrange(bytes, 6, 10));
    let end: usize = if 10 + tag_size < bytes.len() {
        10 + tag_size
    } else {
        bytes.len()
    };
    let mut pos: usize = 10;
    if bytes[5] / 64 % 2 == 1 && 14 <= end {
        let b = vstd::slice::slice_subrange(bytes, 10, 14);
        let ext: usize = if safe {
            numbers::synchsafe(b)
        } else {
            numbers::be32(b)
        };
        let skip: usize = if ext < 4 {
            4
        } else {
            ext
        };
        pos = if skip < end - 10 {
            10 + skip
        } else {
            end
        };
    }
    assert(pos == first_frame(bytes@));
    assert(end == tag_end(bytes@));
    let ghost all = frames_of(bytes@);
    assert(all == located(bytes@, out@) + frames_from(bytes@, safe, pos as int, end as int));
    while pos <= end && end - pos >= 10
        invariant
            end <= bytes@.len(),
            forall|i: int| 0 <= i < out@.len() ==> (#[trigger] out@[i]).within(bytes@),
            all == located(bytes@, out@) + frames_from(bytes@, safe, pos as int, end as int),
        ensures
            all == located(bytes@, out@),
        decreases end + 1 - pos,
    {
        if bytes[pos] == 0 {
            assert(all =~= located(bytes@, out@));
            break ;
        }
        let b = vstd::slice::slice_subrange(bytes, pos + 4, pos + 8);
        let size: usize = if safe {
            numbers::synchsafe(b)
        } else {
            numbers::be32(b)
        };
        let start: usize = pos + 10;
        if size == 0 || size > end - start {
            assert(all =~= located(bytes@, out@));
            break ;
        }
        let f = FrameAt { pos, start, end: start + size };
        let ghost before = out@;
        out.push(f);
        assert(located(bytes@, out@) =~= located(bytes@, before).push(f.of(bytes@)));
        assert(all =~= located(bytes@, out@) + frames_from(
            bytes@,
            safe,
            start + size,
            end as int,
        ));
        pos = start + size;
    }
    out
}

fn is_id(bytes: &[u8], f: FrameAt, id: &[u8; 4]) -> (r: bool)
    requires
        f.within(bytes@),
    ensures
        r == (f.of(bytes@).0 == id@),
{
    let ghost have = f.of(bytes@).0;
    let r: bool = bytes[f.pos] == id[0] && bytes[f.pos + 1] == id[1] && bytes[f.pos + 2] == id[2]
        && bytes[f.pos + 3] == id[3];
    assert(have[0] == bytes@[f.pos as int] && have[1] == bytes@[f.pos + 1] && have[2]
        == bytes@[f.pos + 2] && have[3] == bytes@[f.pos + 3]);
    if r {
        assert(have =~= id@);
    }
    r
}

fn data_of(bytes: &[u8], f: FrameAt) -> (r: &[u8])
    requires
        f.within(bytes@),
    ensures
        r@ == f.of(bytes@).1,
        r@.len() > 0,
{
    vstd::slice::slice_subrange(bytes, f.start, f.end)
}

// ------------------------------------------------------------------ pictures

/// The part of a picture frame behind its encoding, type name, picture kind and
/// description; `None` where one of them does not end.
pub open spec fn apic_rest(data: Seq<u8>) -> Option<Seq<u8>> {
    let p = data.skip(1);
    match numbers::zero_from(p, 0) {
        None => None,
        Some(n) => {
            let q = p.skip(n + 1);
            if q.len() == 0 {
                None
            } else if data[0] == 1 || data[0] == 2 {
                let d = q.skip(1);
                match numbers::zero_pair_from(d, 0) {
                    None => None,
                    Some(i) => Some(d.skip(i + 2)),
                }
            } else {
                let d = q.skip(1);
                match numbers::zero_from(d, 0) {
                    None => None,
                    Some(i) => Some(d.skip(i + 1)),
                }
            }
        },
    }
}

/// The picture in a picture frame.
pub open spec fn apic_picture(data: Seq<u8>) -> Option<Seq<u8>> {
    if data.len() < 4 {
        None
    } else {
        match apic_rest(data) {
            None => None,
            Some(p) => if p.len() == 0 || p.len() > image::MAX_ART {
                None
            } else if image::picture_in(p) is Some {
                image::picture_in(p)
            } else {
                image::picture_in(data)
            },
        }
    }
}

/// The first picture that a picture frame gives.
pub open spec fn first_picture(frames: Seq<(Seq<u8>, Seq<u8>)>) -> Option<Seq<u8>>
    decreases frames.len(),
{
    if frames.len() == 0 {
        None
    } else if frames[0].0 == APIC@ && apic_picture(frames[0].1) is Some {
        apic_picture(frames[0].1)
    } else {
        first_picture(frames.skip(1))
    }
}

pub const APIC: [u8; 4] = [0x41, 0x50, 0x49, 0x43];

pub const TXXX: [u8; 4] = [0x54, 0x58, 0x58, 0x58];

pub const USLT: [u8; 4] = [0x55, 0x53, 0x4c, 0x54];

fn picture_of_frame(data: &[u8]) -> (r: Option<Vec<u8>>)
    ensures
        image::opt_bytes(r) == apic_picture(data@),
{
    if data.len() < 4 {
        return None;
    }
    let wide: bool = data[0] == 1 || data[0] == 2;
    let p = vstd::slice::slice_subrange(data, 1, data.len());
    assert(p@ =~= data@.skip(1));
    let n: usize = match numbers::find_zero(p, 0) {
        Some(n) => n,
        None => {
            return None;
        },
    };
    let q = vstd::slice::slice_subrange(p, n + 1, p.len());
    assert(q@ =~= p@.skip(n + 1));
    if q.len() == 0 {
        return None;
    }
    let d = vstd::slice::slice_subrange(q, 1, q.len());
    assert(d@ =~= q@.skip(1));
    let rest: &[u8];
    if wide {
        match numbers::find_zero_pair(d, 0) {
            Some(i) => {
                rest = vstd::slice::slice_subrange(d, i + 2, d.len());
                assert(rest@ =~= d@.skip(i + 2));
            },
            None => {
                return None;
            },
        }
    } else {
        match numbers::find_zero(d, 0) {
            Some(i) => {
                rest = vstd::slice::slice_subrange(d, i + 1, d.len());
                assert(rest@ =~= d@.skip(i + 1));
            },
            None => {
                return None;
            },
        }
    }
    assert(apic_rest(data@) == Some(rest@));
    if rest.len() == 0 || rest.len() > image::MAX_ART {
        return None;
    }
    match image::image_payload(rest) {
        Some(img) => Some(img),
        None => image::image_payload(data),
    }
}

pub fn extract_id3_apic(bytes: &[u8]) -> (r: Option<Vec<u8>>)
    ensures
        image::opt_bytes(r) == first_picture(frames_of(bytes@)),
{
    let at = walk_id3_frames(bytes);
    let ghost frames = frames_of(bytes@);
    let mut k: usize = 0;
    assert(frames.skip(0) == frames);
    while k < at.len()
        invariant
            k <= at@.len(),
            frames == frames_of(bytes@),
            frames == located(bytes@, at@),
            forall|i: int| 0 <= i < at@.len() ==> (#[trigger] at@[i]).within(bytes@),
            first_picture(frames) == first_picture(frames.skip(k as int)),
        decreases at.len() - k,
    {
        let f = at[k];
        assert(frames.skip(k as int)[0] == f.of(bytes@));
        assert(frames.skip(k as int).skip(1) == frames.skip(k + 1));
        if is_id(bytes, f, &APIC) {
            let found = picture_of_frame(data_of(bytes, f));
            if found.is_some() {
                return found;
            }
        }
        k += 1;
    }
    None
}

// ---------------------------------------------------------------------- text

/// Two bytes as a UTF-16 unit.
pub open spec fn unit_at(txt: Seq<u8>, little: bool, i: int) -> u32 {
    if little {
        (txt[i] as u32 + txt[i + 1] as u32 * 256) as u32
    } else {
        (txt[i] as u32 * 256 + txt[i + 1] as u32) as u32
    }
}

/// The characters of the units from `i` up to a zero unit or the end; units
/// that are half of a pair are dropped.
pub open spec fn units_text(txt: Seq<u8>, little: bool, i: int) -> Seq<char>
    decreases txt.len() - i,
{
    if i + 1 >= txt.len() || unit_at(txt, little, i) == 0 {
        Seq::empty()
    } else {
        let u = unit_at(txt, little, i);
        let rest = units_text(txt, little, i + 2);
        if vstd::utf8::is_scalar(u) {
            seq![u as char] + rest
        } else {
            rest
        }
    }
}

/// UTF-16 with a byte order mark, little-endian without one.
pub open spec fn utf16_text(txt: Seq<u8>) -> Seq<char> {
    let le = txt.len() >= 2 && txt[0] == 0xff && txt[1] == 0xfe;
    let be = txt.len() >= 2 && txt[0] == 0xfe && txt[1] == 0xff;
    units_text(
        txt,
        !be,
        if le || be {
            2
        } else {
            0
        },
    )
}

/// Lossily decoded text without zero characters and white space at its ends.
pub open spec fn clean_text(s: Seq<char>) -> Seq<char> {
    text::trimmed(text::strip_end(text::strip_start(s, '\0'), '\0'))
}

pub open spec fn is_utf8_encoding(enc: u8) -> bool {
    enc == 0 || enc == 3
}

/// The text of a text frame.
pub open spec fn frame_text(data: Seq<u8>) -> Seq<char> {
    let txt = data.skip(1);
    if data.len() == 0 {
        Seq::empty()
    } else if is_utf8_encoding(data[0]) {
        clean_text(text::lossy_text(txt))
    } else if txt.len() >= 2 {
        text::trimmed(utf16_text(txt))
    } else {
        Seq::empty()
    }
}

/// The first text, not empty, of the frames with an identifier.
pub open spec fn first_text(frames: Seq<(Seq<u8>, Seq<u8>)>, want: Seq<u8>) -> Seq<char>
    decreases frames.len(),
{
    if frames.len() == 0 {
        Seq::empty()
    } else if frames[0].0 == want && frame_text(frames[0].1).len() > 0 {
        frame_text(frames[0].1)
    } else {
        first_text(frames.skip(1), want)
    }
}

/// The first frame with an identifier stands at `j`.
pub open spec fn is_first(frames: Seq<(Seq<u8>, Seq<u8>)>, want: Seq<u8>, j: int) -> bool {
    frames[j].0 == want && forall|i: int| 0 <= i < j ==> (#[trigger] frames[i]).0 != want
}

fn read_utf16(txt: &[u8]) -> (r: String)
    ensures
        r@ == utf16_text(txt@),
{
    let mut u = String::new();
    let n: usize = txt.len();
    let mut i: usize = 0;
    let mut little: bool = true;
    if n >= 2 {
        if txt[0] == 0xff && txt[1] == 0xfe {
            i = 2;
        } else if txt[0] == 0xfe && txt[1] == 0xff {
            little = false;
            i = 2;
        }
    }
    let ghost want = utf16_text(txt@);
    assert(want =~= u@ + units_text(txt@, little, i as int));
    while i < n && n - i > 1
        invariant
            n == txt@.len(),
            i <= n,
            want == u@ + units_text(txt@, little, i as int),
        ensures
            want == u@,
        decreases n - i,
    {
        let cp: u32 = if little {
            txt[i] as u32 + txt[i + 1] as u32 * 256
        } else {
            txt[i] as u32 * 256 + txt[i + 1] as u32
        };
        assert(cp == unit_at(txt@, little, i as int));
        if cp == 0 {
            assert(want =~= u@);
            break ;
        }
        let ghost before = u@;
        if let Some(c) = char::from_u32(cp) {
            u.push(c);
            proof {
                vstd::utf8::char_u32_cast(c, cp);
            }
        }
        assert(want =~= u@ + units_text(txt@, little, i + 2));
        i += 2;
        if i >= n || n - i <= 1 {
            assert(want =~= u@);
        }
    }
    u
}

fn text_of_frame(data: &[u8]) -> (r: String)
    ensures
        r@ == frame_text(data@),
        forall|t: Seq<char>|
            text::has_inked_ends(t) && (data@ == seq![0u8] + vstd::utf8::encode_utf8(t) || data@
                == seq![3u8] + #[trigger] vstd::utf8::encode_utf8(t)) ==> r@ == t,
{
    if data.len() == 0 {
        return String::new();
    }
    let txt = vstd::slice::slice_subrange(data, 1, data.len());
    assert(txt@ =~= data@.skip(1));
    if data[0] == 3 || data[0] == 0 {
        let s = text::from_utf8_lossy(txt);
        proof {
            assert forall|t: Seq<char>|
                text::has_inked_ends(t) && (data@ == seq![0u8] + vstd::utf8::encode_utf8(t) || data@
                    == seq![3u8] + #[trigger] vstd::utf8::encode_utf8(t)) implies clean_text(s@)
                == t by {
                assert(txt@ =~= vstd::utf8::encode_utf8(t));
                vstd::utf8::encode_utf8_valid_utf8(t);
                vstd::utf8::encode_utf8_decode_utf8(t);
                text::law_clean_text_stays(t, '\0');
            }
        }
        text::strip_and_trim(s.as_str(), '\0')
    } else if txt.len() >= 2 {
        let u = read_utf16(txt);
        text::trim(u.as_str())
    } else {
        String::new()
    }
}

pub fn extract_id3_text(bytes: &[u8], want: &[u8; 4]) -> (r: String)
    ensures
        r@ == first_text(frames_of(bytes@), want@),
        forall|j: int, t: Seq<char>|
            #![trigger frames_of(bytes@)[j], vstd::utf8::encode_utf8(t)]
            0 <= j < frames_of(bytes@).len() && is_first(frames_of(bytes@), want@, j)
                && text::has_inked_ends(t) && (frames_of(bytes@)[j].1 == seq![0u8]
                + vstd::utf8::encode_utf8(t) || frames_of(bytes@)[j].1 == seq![3u8]
                + vstd::utf8::encode_utf8(t)) ==> r@ == t,
{
    let at = walk_id3_frames(bytes);
    let ghost frames = frames_of(bytes@);
    let mut k: usize = 0;
    assert(frames.skip(0) == frames);
    while k < at.len()
        invariant
            k <= at@.len(),
            frames == frames_of(bytes@),
            frames == located(bytes@, at@),
            forall|i: int| 0 <= i < at@.len() ==> (#[trigger] at@[i]).within(bytes@),
            first_text(frames, want@) == first_text(frames.skip(k as int), want@),
            forall|j: int, t: Seq<char>|
                #![trigger frames[j], vstd::utf8::encode_utf8(t)]
                0 <= j < k && is_first(frames, want@, j) && text::has_inked_ends(t) ==> frames[j].1
                    != seq![0u8] + vstd::utf8::encode_utf8(t) && frames[j].1 != seq![3u8]
                    + vstd::utf8::encode_utf8(t),
        decreases at.len() - k,
    {
        let f = at[k];
        assert(frames.skip(k as int)[0] == f.of(bytes@));
        assert(frames.skip(k as int).skip(1) == frames.skip(k + 1));
        assert(frames[k as int] == f.of(bytes@));
        if is_id(bytes, f, want) {
            let t = text_of_frame(data_of(bytes, f));
            if !t.as_str().is_empty() {
                return t;
            }
        }
        k += 1;
    }
    String::new()
}

// -------------------------------------------------------------------- lyrics

/// The string that begins at `start`, up to its zero.
pub open spec fn string_at(data: Seq<u8>, enc: u8, start: int) -> Seq<char> {
    if start >= data.len() {
        Seq::empty()
    } else {
        let txt = data.skip(start);
        if is_utf8_encoding(enc) {
            let own = match numbers::zero_from(txt, 0) {
                Some(n) => txt.take(n),
                None => txt,
            };
            text::trimmed(text::lossy_text(own))
        } else {
            text::trimmed(utf16_text(txt))
        }
    }
}

/// Where the string that begins at `start` ends, its terminator counted.
pub open spec fn string_end(data: Seq<u8>, enc: u8, start: int) -> int {
    let zero = if enc == 1 || enc == 2 {
        numbers::zero_pair_from(data, start)
    } else {
        numbers::zero_from(data, start)
    };
    match zero {
        Some(i) => if enc == 1 || enc == 2 {
            i + 2
        } else {
            i + 1
        },
        None => data.len() as int,
    }
}

/// Decodes the string that begins at `start`; it ends at its zero.
pub fn decode_id3_from(data: &[u8], enc: u8, start: usize) -> (r: String)
    ensures
        r@ == string_at(data@, enc, start as int),
{
    if start >= data.len() {
        return String::new();
    }
    let txt = vstd::slice::slice_subrange(data, start, data.len());
    assert(txt@ =~= data@.skip(start as int));
    if enc == 3 || enc == 0 {
        let own: &[u8] = match numbers::find_zero(txt, 0) {
            Some(n) => {
                let part = vstd::slice::slice_subrange(txt, 0, n);
                assert(part@ =~= txt@.take(n as int));
                part
            },
            None => txt,
        };
        let s = text::from_utf8_lossy(own);
        return text::trim(s.as_str());
    }
    let u = read_utf16(txt);
    text::trim(u.as_str())
}

pub fn id3_cstr_end(data: &[u8], enc: u8, start: usize) -> (r: usize)
    requires
        start <= data@.len(),
    ensures
        r == string_end(data@, enc, start as int),
        r <= data@.len(),
{
    let n: usize = data.len();
    if enc == 1 || enc == 2 {
        match numbers::find_zero_pair(data, start) {
            Some(i) => i + 2,
            None => n,
        }
    } else {
        match numbers::find_zero(data, start) {
            Some(i) => i + 1,
            None => n,
        }
    }
}

pub open spec fn str_texts(v: Seq<&str>) -> Seq<Seq<char>> {
    v.map_values(|s: &str| s@)
}

/// Whether a description is one of the wanted ones, whatever the case.
pub open spec fn is_wanted(desc: Seq<char>, wanted: Seq<Seq<char>>) -> bool {
    exists|k: int|
        0 <= k < wanted.len() && text::lowercase_text(desc) == text::lowercase_text(
            #[trigger] wanted[k],
        )
}

/// The value of a custom text frame whose description is wanted; empty else.
pub open spec fn txxx_value(data: Seq<u8>, wanted: Seq<Seq<char>>) -> Seq<char> {
    if data.len() >= 2 && is_wanted(string_at(data, data[0], 1), wanted) {
        string_at(data, data[0], string_end(data, data[0], 1))
    } else {
        Seq::empty()
    }
}

pub open spec fn first_txxx(frames: Seq<(Seq<u8>, Seq<u8>)>, wanted: Seq<Seq<char>>) -> Seq<char>
    decreases frames.len(),
{
    if frames.len() == 0 {
        Seq::empty()
    } else if frames[0].0 == TXXX@ && txxx_value(frames[0].1, wanted).len() > 0 {
        txxx_value(frames[0].1, wanted)
    } else {
        first_txxx(frames.skip(1), wanted)
    }
}

fn wants(desc: &str, wanted: &[&str]) -> (r: bool)
    ensures
        r == is_wanted(desc@, str_texts(wanted@)),
{
    let low = text::to_lowercase(desc);
    let mut k: usize = 0;
    while k < wanted.len()
        invariant
            k <= wanted@.len(),
            low@ == text::lowercase_text(desc@),
            forall|j: int|
                0 <= j < k ==> low@ != text::lowercase_text(#[trigger] str_texts(wanted@)[j]),
        decreases wanted.len() - k,
    {
        let w = text::to_lowercase(wanted[k]);
        assert(str_texts(wanted@)[k as int] == wanted@[k as int]@);
        if text::same_text(low.as_str(), w.as_str()) {
            return true;
        }
        k += 1;
    }
    false
}

/// The value of the first custom text frame with a wanted description.
pub fn extract_txxx(bytes: &[u8], wanted: &[&str]) -> (r: String)
    ensures
        r@ == first_txxx(frames_of(bytes@), str_texts(wanted@)),
{
    let at = walk_id3_frames(bytes);
    let ghost frames = frames_of(bytes@);
    let ghost w = str_texts(wanted@);
    let mut k: usize = 0;
    assert(frames.skip(0) == frames);
    while k < at.len()
        invariant
            k <= at@.len(),
            frames == frames_of(bytes@),
            frames == located(bytes@, at@),
            w == str_texts(wanted@),
            forall|i: int| 0 <= i < at@.len() ==> (#[trigger] at@[i]).within(bytes@),
            first_txxx(frames, w) == first_txxx(frames.skip(k as int), w),
        decreases at.len() - k,
    {
        let f = at[k];
        assert(frames.skip(k as int)[0] == f.of(bytes@));
        assert(frames.skip(k as int).skip(1) == frames.skip(k + 1));
        if is_id(bytes, f, &TXXX) {
            let data = data_of(bytes, f);
            if data.len() >= 2 {
                let enc = data[0];
                let end = id3_cstr_end(data, enc, 1);
                let desc = decode_id3_from(data, enc, 1);
                if wants(desc.as_str(), wanted) {
                    let t = decode_id3_from(data, enc, end);
                    if !t.as_str().is_empty() {
                        return t;
                    }
                }
            }
        }
        k += 1;
    }
    String::new()
}

/// The text of a lyrics frame: behind the encoding, three bytes of language and
/// the description.
pub open spec fn uslt_text(data: Seq<u8>) -> Seq<char> {
    if data.len() >= 5 {
        string_at(data, data[0], string_end(data, data[0], 4))
    } else {
        Seq::empty()
    }
}

pub open spec fn first_uslt(frames: Seq<(Seq<u8>, Seq<u8>)>) -> Seq<char>
    decreases frames.len(),
{
    if frames.len() == 0 {
        Seq::empty()
    } else if frames[0].0 == USLT@ && uslt_text(frames[0].1).len() > 0 {
        uslt_text(frames[0].1)
    } else {
        first_uslt(frames.skip(1))
    }
}

/// The text of the first lyrics frame that holds any.
pub fn extract_uslt(bytes: &[u8]) -> (r: String)
    ensures
        r@ == first_uslt(frames_of(bytes@)),
{
    let at = walk_id3_frames(bytes);
    let ghost frames = frames_of(bytes@);
    let mut k: usize = 0;
    assert(frames.skip(0) == frames);
    while k < at.len()
        invariant
            k <= at@.len(),
            frames == frames_of(bytes@),
            frames == located(bytes@, at@),
            forall|i: int| 0 <= i < at@.len() ==> (#[trigger] at@[i]).within(bytes@),
            first_uslt(frames) == first_uslt(frames.skip(k as int)),
        decreases at.len() - k,
    {
        let f = at[k];
        assert(frames.skip(k as int)[0] == f.of(bytes@));
        assert(frames.skip(k as int).skip(1) == frames.skip(k + 1));
        if is_id(bytes, f, &USLT) {
            let data = data_of(bytes, f);
            if data.len() >= 5 {
                let enc = data[0];
                let end = id3_cstr_end(data, enc, 4);
                let t = decode_id3_from(data, enc, end);
                if !t.as_str().is_empty() {
                    return t;
                }
            }
        }
        k += 1;
    }
    String::new()
}

} // verus!
